use zk_deap_harness::metrics::{
    build_metrics, bulletproof_components, is_success_status, sigma_components, total_size,
    warmup_runs, Metrics, ProofComponents, ResourceProbes, Tally,
};
use zk_deap_harness::suite::{TestConfig, TestFunction};

fn config(run: usize) -> TestConfig {
    TestConfig { zkp_type: None, function: TestFunction::DKG1, n: 5, t: 3, device_id: 1, run }
}

fn probes(initial: u64, peak: u64) -> ResourceProbes {
    ResourceProbes {
        initial_rss_kb: initial,
        peak_rss_kb: peak,
        cpu_before: (1_000, 500),
        cpu_after: (4_000, 400),
        disk_read_kb: 12,
        disk_write_kb: 34,
    }
}

fn metrics(outcome: Result<(u128, usize), String>) -> Metrics {
    build_metrics(
        "2024-01-01T00:00:00+00:00".to_string(),
        "D4s_v5".to_string(),
        "x86_64".to_string(),
        config(3),
        outcome,
        probes(300, 1000),
        None,
    )
}

#[test]
fn successful_run_is_recorded_with_time_and_size() {
    let m = metrics(Ok((1234, 512)));
    assert_eq!(m.status, "SUCCESS");
    assert_eq!(m.failure_reason, None);
    assert_eq!(m.wall_time_us, 1234);
    assert_eq!(m.output_size_bytes, Some(512));
    assert_eq!(m.test_config, config(3));
    assert_eq!(m.vm_profile, "D4s_v5");
    assert_eq!(m.vm_arch, "x86_64");
    assert_eq!(m.disk_read_kb, 12);
    assert_eq!(m.disk_write_kb, 34);
    assert_eq!((m.cycles, m.instructions, m.cache_misses), (None, None, None));
}

#[test]
fn failed_run_is_recorded_with_its_reason() {
    let m = metrics(Err("HTTP error: refused".to_string()));
    assert_eq!(m.status, "FAILED");
    assert_eq!(m.failure_reason, Some("HTTP error: refused".to_string()));
    assert_eq!(m.wall_time_us, 0);
    assert_eq!(m.output_size_bytes, None);
}

#[test]
fn cpu_time_is_a_saturating_delta() {
    let m = metrics(Ok((1, 1)));
    assert_eq!(m.cpu_time_user_us, 3_000);
    assert_eq!(m.cpu_time_system_us, 0);
}

#[test]
fn rss_delta_is_peak_minus_initial() {
    let m = metrics(Ok((1, 1)));
    assert_eq!((m.initial_rss_kb, m.peak_rss_kb, m.delta_rss_kb), (300, 1000, 700));
    let down = build_metrics(String::new(), String::new(), String::new(), config(1), Ok((0, 0)), probes(300, 100), None);
    assert_eq!(down.delta_rss_kb, -200);
    let wrapped = build_metrics(String::new(), String::new(), String::new(), config(1), Ok((0, 0)), probes(0, u64::MAX), None);
    assert_eq!(wrapped.delta_rss_kb, (u64::MAX as i64).wrapping_sub(0));
}

#[test]
fn proof_components_are_carried_over() {
    let c = ProofComponents { elgamal_bytes: 64, schnorr_bytes: 208, zkp_bytes: 600, signature_bytes: 64 };
    let m = build_metrics(String::new(), String::new(), String::new(), config(1), Ok((0, 0)), probes(0, 0), Some(c));
    assert_eq!(m.proof_components, Some(c));
}

#[test]
fn warmup_precedes_first_two_runs_only() {
    assert_eq!(warmup_runs(&config(1)), 2);
    assert_eq!(warmup_runs(&config(2)), 2);
    assert_eq!(warmup_runs(&config(3)), 0);
    assert_eq!(warmup_runs(&config(30)), 0);
}

#[test]
fn two_points_are_sixty_four_bytes() {
    let c = bulletproof_components(32, 32, 32, 32, 32, 32, 32, 32, 16, 672, 64);
    assert_eq!(c.elgamal_bytes, 64);
    assert_eq!(c.schnorr_bytes, 6 * 32 + 16);
    assert_eq!(c.zkp_bytes, 672);
    assert_eq!(c.signature_bytes, 64);
}

#[test]
fn sigma_components_count_the_flag_byte() {
    let c = sigma_components(32, 32, 32, 32, 32, 32, 32, 32, 32, 32, 32, 1500, 64);
    assert_eq!(c.elgamal_bytes, 64);
    assert_eq!(c.schnorr_bytes, 9 * 32 + 1);
    assert_eq!(c.zkp_bytes, 1500);
}

#[test]
fn total_size_adds_package_sizes() {
    assert_eq!(total_size(&[]), 0);
    assert_eq!(total_size(&[100, 0, 250]), 350);
}

#[test]
fn success_status_is_exactly_success() {
    assert!(is_success_status("SUCCESS"));
    assert!(!is_success_status("FAILED"));
    assert!(!is_success_status("SUCCESS "));
    assert!(!is_success_status(""));
}

#[test]
fn tally_counts_successes_and_failures() {
    let mut t = Tally::new();
    let ok = metrics(Ok((1, 1)));
    let failed = metrics(Err("x".to_string()));
    t.record(Some(&ok));
    t.record(Some(&failed));
    t.record(None);
    t.record(Some(&ok));
    assert_eq!(t.count(), 4);
    assert_eq!(t.successes(), 2);
    assert_eq!(t.failures(), 2);
    assert_eq!(t.successes() + t.failures(), t.count());
}
