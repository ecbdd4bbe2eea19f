use ed25519_dalek::{SigningKey, VerifyingKey};
use zk_deap_harness::peers::{
    device_signing_key, peer_ids, PeerKeyCache, PeerKeyCollector, PeerKeyError,
};

fn public_key(seed: u8) -> [u8; 32] {
    SigningKey::from_bytes(&[seed; 32]).verifying_key().to_bytes()
}

fn invalid_key() -> [u8; 32] {
    (0u8..=255)
        .map(|b| {
            let mut k = [0u8; 32];
            k[0] = b;
            k[1] = 1;
            k
        })
        .find(|k| VerifyingKey::from_bytes(k).is_err())
        .unwrap()
}

#[test]
fn peers_exclude_own_device() {
    assert_eq!(peer_ids(5, 3), vec![1, 2, 4, 5]);
    assert_eq!(peer_ids(5, 1), vec![2, 3, 4, 5]);
    assert_eq!(peer_ids(3, 9), vec![1, 2, 3]);
    assert_eq!(peer_ids(0, 1), Vec::<u16>::new());
}

#[test]
fn peer_ids_take_sizes_as_u16() {
    assert_eq!(peer_ids(65537, 2), vec![1]);
    assert_eq!(peer_ids(4, 65538), vec![1, 3, 4]);
}

#[test]
fn collector_takes_keys_in_device_order() {
    let mut c = PeerKeyCollector::new(3);
    let mut seen = Vec::new();
    while let Some(id) = c.next_device() {
        seen.push(id);
        c.accept(public_key(id as u8)).unwrap();
    }
    assert_eq!(seen, vec![1, 2, 3]);
    let keys = c.finish();
    assert_eq!(keys.len(), 3);
    for id in 1u32..=3 {
        let want = VerifyingKey::from_bytes(&public_key(id as u8)).unwrap();
        assert_eq!(keys[&id], want);
        assert_eq!(keys[&id].to_bytes(), public_key(id as u8));
    }
}

#[test]
fn collector_rejects_bytes_that_are_no_point() {
    let mut c = PeerKeyCollector::new(2);
    c.accept(public_key(1)).unwrap();
    match c.accept(invalid_key()) {
        Err(PeerKeyError::InvalidKey { device_id, .. }) => assert_eq!(device_id, 2),
        Ok(()) => panic!("accepted bytes that are no curve point"),
    }
    assert_eq!(c.next_device(), Some(2));
    c.accept(public_key(2)).unwrap();
    assert_eq!(c.finish().len(), 2);
}

#[test]
fn cache_reads_back_what_was_stored() {
    let mut cache = PeerKeyCache::new();
    assert!(cache.get(5, 3).is_none());
    let mut c = PeerKeyCollector::new(2);
    c.accept(public_key(1)).unwrap();
    c.accept(public_key(2)).unwrap();
    let stored = c.finish();
    cache.insert(5, 3, stored.clone());
    let got = cache.get(5, 3).unwrap();
    assert_eq!(got, stored);
    assert_eq!(got[&2], VerifyingKey::from_bytes(&public_key(2)).unwrap());
    assert!(cache.get(5, 2).is_none());
    assert!(cache.get(3, 5).is_none());
    assert_eq!(cache.get(5, 3).unwrap(), got);
}

#[test]
fn cache_replaces_and_keeps_other_configurations() {
    let mut cache = PeerKeyCache::new();
    let mut a = PeerKeyCollector::new(1);
    a.accept(public_key(7)).unwrap();
    cache.insert(10, 5, a.finish());
    let mut b = PeerKeyCollector::new(2);
    b.accept(public_key(8)).unwrap();
    b.accept(public_key(9)).unwrap();
    cache.insert(5, 3, b.finish());
    let mut c = PeerKeyCollector::new(1);
    c.accept(public_key(11)).unwrap();
    cache.insert(10, 5, c.finish());
    assert_eq!(cache.get(10, 5).unwrap()[&1].to_bytes(), public_key(11));
    assert_eq!(cache.get(5, 3).unwrap().len(), 2);
}

#[test]
fn device_signing_key_is_the_seeded_key() {
    let seed = [42u8; 32];
    let k = device_signing_key(&seed);
    assert_eq!(k.to_bytes(), SigningKey::from_bytes(&seed).to_bytes());
    assert_eq!(k.verifying_key(), SigningKey::from_bytes(&seed).verifying_key());
}
