use dedup_registry::service::{InMemoryStorage, Key, StorageService, StorageServiceError, TenantId};

#[test]
fn test_key_validator_ok() {
    let key = "K-h53dk-A".into();
    assert!(Key::new(key).is_ok())
}

#[test]
fn test_key_validator_ko() {
    let key = "not-a-key".into();
    assert!(Key::new(key).is_err())
}

#[test]
fn test_storage_service_default_sample_data() {
    let mut under_test = StorageService::default();
    let msg1 = (
        TenantId::new("3bd1c697".into()),
        Key::new("K-h53dk-A".into()).unwrap(),
    );
    let msg2 = (
        TenantId::new("75682017".into()),
        Key::new("K-h53dk-A".into()).unwrap(),
    );
    let msg3 = (
        TenantId::new("3bd1c697".into()),
        Key::new("K-867vc-C".into()).unwrap(),
    );
    let msg4 = (
        TenantId::new("75682017".into()),
        Key::new("K-h53dk-A".into()).unwrap(),
    );

    let resp1 = under_test.insert(msg1.0, msg1.1);
    let resp2 = under_test.insert(msg2.0, msg2.1);
    let resp3 = under_test.insert(msg3.0, msg3.1);
    let resp4 = under_test.insert(msg4.0, msg4.1);

    assert_eq!(resp1, (true, 1));
    assert_eq!(resp2, (true, 2));
    assert_eq!(resp3, (true, 3));
    assert_eq!(resp4, (false, 2));
}

fn key(raw: &str) -> Key {
    Key::new(raw.into()).unwrap()
}

fn tenant(raw: &str) -> TenantId {
    TenantId::new(raw.into())
}

#[test]
fn key_validator_rejects_malformed_keys() {
    assert!(Key::new("".into()).is_err());
    // wrong length
    assert!(Key::new("K-h53d-A".into()).is_err());
    assert!(Key::new("K-h53dkk-A".into()).is_err());
    // wrong case placement
    assert!(Key::new("k-h53dk-A".into()).is_err());
    assert!(Key::new("K-h53dk-a".into()).is_err());
    assert!(Key::new("K-H53DK-A".into()).is_err());
    // wrong separators
    assert!(Key::new("K_h53dk_A".into()).is_err());
    assert!(Key::new("K-h53dkAA".into()).is_err());
    // non-ASCII of the right length
    assert!(Key::new("K-h53dé-A".into()).is_err());
}

#[test]
fn key_validator_accepts_digits_in_body() {
    assert!(Key::new("Z-00000-Q".into()).is_ok());
    assert!(Key::new("A-a1b2c-B".into()).is_ok());
}

#[test]
fn key_validation_error_carries_offending_value() {
    match Key::new("not-a-key".into()) {
        Err(StorageServiceError::KeyPatternNotValid(raw)) => assert_eq!(raw, "not-a-key"),
        Ok(_) => panic!("malformed key accepted"),
    }
}

#[test]
fn tenant_id_is_unconstrained() {
    let t = TenantId::new("".into());
    assert_eq!(t.0, "");
    let t = TenantId::new("anything at all, even spaces".into());
    assert_eq!(t.0, "anything at all, even spaces");
}

#[test]
fn get_next_id_is_strictly_monotonic_from_one() {
    let mut s = StorageService::default();
    assert_eq!(s.get_next_id(), 1);
    assert_eq!(s.get_next_id(), 2);
    assert_eq!(s.get_next_id(), 3);
}

#[test]
fn insert_is_idempotent() {
    let mut s = StorageService::default();
    let first = s.insert(tenant("acme"), key("K-abc12-Z"));
    let second = s.insert(tenant("acme"), key("K-abc12-Z"));
    assert_eq!(first, (true, 1));
    assert_eq!(second, (false, 1));
}

#[test]
fn identities_are_globally_unique_and_start_at_one() {
    let mut s = StorageService::default();
    let a = s.insert(tenant("t1"), key("K-aaaaa-A"));
    let b = s.insert(tenant("t1"), key("K-bbbbb-B"));
    let c = s.insert(tenant("t2"), key("K-aaaaa-A"));
    assert_eq!(a, (true, 1));
    assert_ne!(a.1, b.1);
    assert_ne!(a.1, c.1);
    assert_ne!(b.1, c.1);
}

#[test]
fn identities_share_one_counter_across_tenants() {
    let mut s = StorageService::default();
    let a = s.insert(tenant("t1"), key("K-aaaaa-A"));
    let b = s.insert(tenant("t2"), key("K-bbbbb-B"));
    // the second tenant continues the global sequence instead of restarting it
    assert_eq!(a, (true, 1));
    assert_eq!(b, (true, 2));
}

#[test]
fn repeated_callers_of_one_pair_see_one_identity() {
    let mut s = StorageService::default();
    let mut news = 0;
    let mut the_id = None;
    for _ in 0..10 {
        let (is_new, id) = s.insert(tenant("acme"), key("K-abc12-Z"));
        if is_new {
            news += 1;
        }
        match the_id {
            None => the_id = Some(id),
            Some(seen) => assert_eq!(id, seen),
        }
    }
    assert_eq!(news, 1);
}

#[test]
fn new_tenant_keeps_every_key_of_its_first_sightings() {
    let mut s = StorageService::default();
    let (new1, id1) = s.insert(tenant("fresh"), key("K-aaaaa-A"));
    let (new2, id2) = s.insert(tenant("fresh"), key("K-bbbbb-B"));
    assert!(new1 && new2);
    // both keys stayed visible in the one shared sub-map
    assert_eq!(s.insert(tenant("fresh"), key("K-aaaaa-A")), (false, id1));
    assert_eq!(s.insert(tenant("fresh"), key("K-bbbbb-B")), (false, id2));
}

#[test]
fn process_answers_valid_requests() {
    let mut s = StorageService::default();
    let out = s.process("3bd1c697".into(), "K-h53dk-A".into()).unwrap();
    assert!(out.new);
    assert_eq!(out.id, 1);
    assert!(out.timestamp >= 0);
    let again = s.process("3bd1c697".into(), "K-h53dk-A".into()).unwrap();
    assert!(!again.new);
    assert_eq!(again.id, 1);
}

#[test]
fn process_rejects_invalid_keys_without_mutating() {
    let mut s = StorageService::default();
    match s.process("3bd1c697".into(), "not-a-key".into()) {
        Err(StorageServiceError::KeyPatternNotValid(raw)) => assert_eq!(raw, "not-a-key"),
        Ok(_) => panic!("invalid key accepted"),
    }
    // nothing was inserted and no identity was minted
    let out = s.process("3bd1c697".into(), "K-h53dk-A".into()).unwrap();
    assert!(out.new);
    assert_eq!(out.id, 1);
}
