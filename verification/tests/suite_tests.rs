use zk_deap_harness::suite::{build_schedule, total_tests, TestConfig, TestFunction, ZKPType};

#[test]
fn default_sweep_announces_5250_tests() {
    assert_eq!(total_tests(7, 4), 5250);
    assert_eq!(total_tests(0, 0), 210);
}

#[test]
fn schedule_length_matches_announced_total() {
    let configs = [(5usize, 2usize), (5, 3), (10, 5), (10, 7)];
    let s = build_schedule(7, &configs);
    assert_eq!(s.len(), total_tests(2, 2));
    assert_eq!(s.len(), 4 * 6 * 30 + 30 + 180);
}

#[test]
fn schedule_order_follows_the_suite() {
    let configs = [(5usize, 2usize), (10, 5)];
    let s = build_schedule(7, &configs);
    assert_eq!(
        s[0],
        TestConfig { zkp_type: None, function: TestFunction::PartialVerify, n: 5, t: 3, device_id: 7, run: 1 }
    );
    assert_eq!(s[29].run, 30);
    assert_eq!(
        s[30],
        TestConfig { zkp_type: Some(ZKPType::Bulletproof), function: TestFunction::ProofGen, n: 5, t: 3, device_id: 7, run: 1 }
    );
    assert_eq!(s[60].function, TestFunction::ProofVerify);
    assert_eq!(s[60].zkp_type, Some(ZKPType::Bulletproof));
    assert_eq!(s[90].zkp_type, Some(ZKPType::SNARK));
    assert_eq!(s[150].zkp_type, Some(ZKPType::STARK));
    assert_eq!(s[180].function, TestFunction::ProofVerify);
    assert_eq!(
        s[210],
        TestConfig { zkp_type: None, function: TestFunction::PartialGen, n: 5, t: 2, device_id: 7, run: 1 }
    );
    assert_eq!((s[240].n, s[240].t), (10, 5));
    assert_eq!(s[270].function, TestFunction::AggCompute);
    let last = s[s.len() - 1];
    assert_eq!(
        last,
        TestConfig { zkp_type: None, function: TestFunction::BaselineRound, n: 10, t: 5, device_id: 7, run: 30 }
    );
}

#[test]
fn every_scheduled_test_runs_on_the_device_with_run_in_range() {
    let configs = [(5usize, 2usize), (20, 10)];
    for c in build_schedule(3, &configs) {
        assert_eq!(c.device_id, 3);
        assert!(1 <= c.run && c.run <= 30);
        let proof = matches!(c.function, TestFunction::ProofGen | TestFunction::ProofVerify);
        assert_eq!(c.zkp_type.is_some(), proof);
    }
}

#[test]
fn empty_sweep_keeps_fixed_size_tests() {
    let s = build_schedule(1, &[]);
    assert_eq!(s.len(), 210);
    assert!(s.iter().all(|c| c.n == 5 && c.t == 3));
}
