use zk_deap_harness::procfs::{
    clock_ticks_per_sec, cpu_times_us, io_kb, peak_rss_kb, rss_kb, status_field_kb,
};

const STATUS: &str = "Name:\ttest_harness\nState:\tR (running)\nVmPeak:\t  9000 kB\nVmHWM:\t    2048 kB\nVmRSS:\t    1024 kB\nThreads:\t1\n";

#[test]
fn rss_reads_the_vmrss_line() {
    assert_eq!(rss_kb(STATUS), 1024);
}

#[test]
fn peak_rss_reads_the_vmhwm_line() {
    assert_eq!(peak_rss_kb(STATUS), 2048);
}

#[test]
fn missing_or_malformed_status_line_reads_as_zero() {
    assert_eq!(rss_kb("Name:\tx\n"), 0);
    assert_eq!(rss_kb("VmRSS:\n"), 0);
    assert_eq!(rss_kb("VmRSS:\tlots kB\n"), 0);
    assert_eq!(rss_kb(""), 0);
}

#[test]
fn first_matching_status_line_wins() {
    assert_eq!(status_field_kb("VmRSS: 5 kB\nVmRSS: 6 kB\n", "VmRSS:"), 5);
    assert_eq!(status_field_kb("XVmRSS: 5 kB\nVmRSS: 6 kB", "VmRSS:"), 6);
}

#[test]
fn cpu_times_convert_ticks_to_microseconds() {
    let stat = "1234 (test_harness) R 1 1234 1234 0 -1 4194304 100 0 0 0 250 75 0 0 20 0 1 0 100 0 0";
    assert_eq!(cpu_times_us(stat, 100), (2_500_000, 750_000));
    assert_eq!(cpu_times_us(stat, 1000), (250_000, 75_000));
}

#[test]
fn short_or_unparsable_stat_gives_zero() {
    assert_eq!(cpu_times_us("1 (x) R 1 2 3", 100), (0, 0));
    let stat = "1 (x) R 1 2 3 4 5 6 7 8 9 10 abc 3 0 0";
    assert_eq!(cpu_times_us(stat, 100), (0, 30_000));
}

#[test]
fn tick_product_wraps_as_in_release_builds() {
    let stat = "1 (x) R 1 2 3 4 5 6 7 8 9 10 18446744073709551615 0 0 0";
    let want = 18446744073709551615u64.wrapping_mul(1_000_000) / 100;
    assert_eq!(cpu_times_us(stat, 100), (want as u128, 0));
}

#[test]
fn clock_ticks_fall_back_to_one_hundred() {
    assert_eq!(clock_ticks_per_sec(250), 250);
    assert_eq!(clock_ticks_per_sec(0), 100);
    assert_eq!(clock_ticks_per_sec(-1), 100);
}

#[test]
fn io_reads_last_counters_in_kilobytes() {
    let io = "rchar: 1\nwchar: 2\nread_bytes: 4096\nwrite_bytes: 10240\nread_bytes: 8192\n";
    assert_eq!(io_kb(io), (8, 10));
    assert_eq!(io_kb("rchar: 5\n"), (0, 0));
    assert_eq!(io_kb("read_bytes: 1023\nwrite_bytes: 1025"), (0, 1));
}
