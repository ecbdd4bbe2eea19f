use base64::Engine;
use zk_deap_harness::fixture::{
    decode_all, decode_round2, dkg_url, zkp_str, zkp_url, DkgStage, FixtureError, ZkpResource,
};
use zk_deap_harness::suite::ZKPType;

const BASE: &str = "http://fixture-server:8080";

#[test]
fn dkg_urls_name_stage_size_threshold_and_device() {
    assert_eq!(dkg_url(BASE, DkgStage::Completed, 5, 3, 2), "http://fixture-server:8080/api/dkg/completed/5/3/2");
    assert_eq!(dkg_url(BASE, DkgStage::Round1, 100, 50, 17), "http://fixture-server:8080/api/dkg/round1/100/50/17");
    assert_eq!(dkg_url("", DkgStage::Round2, 0, 0, 0), "/api/dkg/round2/0/0/0");
}

#[test]
fn zkp_urls_name_resource_and_proof_system() {
    assert_eq!(zkp_url(BASE, ZkpResource::Proof, ZKPType::SNARK, 5, 3), "http://fixture-server:8080/api/proof/snark/5/3");
    assert_eq!(zkp_url(BASE, ZkpResource::Ciphertexts, ZKPType::Bulletproof, 20, 10), "http://fixture-server:8080/api/ciphertexts/bulletproof/20/10");
    assert_eq!(zkp_url(BASE, ZkpResource::Partial, ZKPType::STARK, 5, 3), "http://fixture-server:8080/api/partial/stark/5/3");
    assert_eq!(zkp_url(BASE, ZkpResource::Partials, ZKPType::Bulletproof, 250, 63), "http://fixture-server:8080/api/partials/bulletproof/250/63");
}

#[test]
fn zkp_segments() {
    assert_eq!(zkp_str(ZKPType::Bulletproof), "bulletproof");
    assert_eq!(zkp_str(ZKPType::SNARK), "snark");
    assert_eq!(zkp_str(ZKPType::STARK), "stark");
}

#[test]
fn decode_all_decodes_every_item() {
    let items = vec!["aGVsbG8=".to_string(), "".to_string(), "AAEC".to_string()];
    let out = decode_all(&items).unwrap();
    assert_eq!(out, vec![b"hello".to_vec(), vec![], vec![0, 1, 2]]);
}

#[test]
fn decode_all_agrees_with_the_engine() {
    let raw: Vec<Vec<u8>> = vec![vec![255; 33], (0u8..=200).collect(), vec![7]];
    let items: Vec<String> = raw.iter().map(|r| base64::engine::general_purpose::STANDARD.encode(r)).collect();
    assert_eq!(decode_all(&items).unwrap(), raw);
}

#[test]
fn decode_all_fails_on_any_bad_item() {
    let items = vec!["aGVsbG8=".to_string(), "!!".to_string()];
    match decode_all(&items) {
        Err(FixtureError::Base64(_)) => {}
        Ok(_) => panic!("accepted invalid Base64"),
    }
    assert!(decode_all(&vec!["aGVsbG8".to_string()]).is_err());
}

#[test]
fn round2_needs_both_lists() {
    let good = vec!["AQ==".to_string()];
    let bad = vec!["A".to_string()];
    let (a, b) = decode_round2(&good, &vec!["Ag==".to_string(), "Aw==".to_string()]).unwrap();
    assert_eq!(a, vec![vec![1]]);
    assert_eq!(b, vec![vec![2], vec![3]]);
    assert!(decode_round2(&bad, &good).is_err());
    assert!(decode_round2(&good, &bad).is_err());
}

#[test]
fn decode_item_decodes_one_text() {
    assert_eq!(zk_deap_harness::fixture::decode_item("aGk=").unwrap(), b"hi".to_vec());
    assert!(zk_deap_harness::fixture::decode_item("aGk").is_err());
    assert!(zk_deap_harness::fixture::decode_item("a!==").is_err());
}

#[test]
fn decode_all_reports_the_first_bad_item() {
    let items = vec!["AQ==".to_string(), "A".to_string(), "!!!!".to_string()];
    let want = base64::engine::general_purpose::STANDARD.decode("A").unwrap_err();
    match decode_all(&items) {
        Err(FixtureError::Base64(e)) => assert_eq!(e, want),
        Ok(_) => panic!("accepted invalid Base64"),
    }
}

#[test]
fn round2_reports_the_first_list_error_first() {
    let r1 = vec!["A".to_string()];
    let r2 = vec!["!!!!".to_string()];
    let first = base64::engine::general_purpose::STANDARD.decode("A").unwrap_err();
    let second = base64::engine::general_purpose::STANDARD.decode("!!!!").unwrap_err();
    assert_ne!(first, second);
    match decode_round2(&r1, &r2) {
        Err(FixtureError::Base64(e)) => assert_eq!(e, first),
        Ok(_) => panic!("accepted invalid Base64"),
    }
    match decode_round2(&vec!["AQ==".to_string()], &r2) {
        Err(FixtureError::Base64(e)) => assert_eq!(e, second),
        Ok(_) => panic!("accepted invalid Base64"),
    }
}
