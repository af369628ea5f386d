use tipbot::{
    OwnedWalletMetadata, OwnedWalletMetadataStore, TipError, TransitionWalletMetadata,
    TransitionWalletMetadataStore,
};

fn escrow(from: &str, to: &str, secret: &str, address: &str) -> TransitionWalletMetadata {
    TransitionWalletMetadata::new(from.to_string(), to.to_string(), secret.to_string(), address.to_string())
}

#[test]
fn owned_add_then_find() {
    let mut store = OwnedWalletMetadataStore::new();
    let record = OwnedWalletMetadata::new("tg-alice".to_string(), "spectre:qalice".to_string());
    assert_eq!(store.add(&record), Ok(()));
    assert!(store.contains("tg-alice"));
    assert_eq!(store.find_by_owner_identifier("tg-alice"), Ok(record));
}

#[test]
fn owned_add_twice_is_duplicate_key() {
    let mut store = OwnedWalletMetadataStore::new();
    let first = OwnedWalletMetadata::new("tg-alice".to_string(), "spectre:qa1".to_string());
    let second = OwnedWalletMetadata::new("tg-alice".to_string(), "spectre:qa2".to_string());
    assert_eq!(store.add(&first), Ok(()));
    assert_eq!(store.add(&second), Err(TipError::DuplicateKey));
    assert_eq!(store.find_by_owner_identifier("tg-alice"), Ok(first));
}

#[test]
fn owned_find_missing_is_not_found() {
    let store = OwnedWalletMetadataStore::new();
    assert_eq!(store.find_by_owner_identifier("tg-nobody"), Err(TipError::NotFound));
}

#[test]
fn owned_remove() {
    let mut store = OwnedWalletMetadataStore::new();
    let record = OwnedWalletMetadata::new("tg-bob".to_string(), "spectre:qbob".to_string());
    store.add(&record).unwrap();
    assert_eq!(store.remove_by_owner_identifier("tg-bob"), Some(record));
    assert_eq!(store.remove_by_owner_identifier("tg-bob"), None);
    assert!(!store.contains("tg-bob"));
}

#[test]
fn replace_leaves_one_record_with_new_address() {
    let mut store = OwnedWalletMetadataStore::new();
    let old = OwnedWalletMetadata::new("tg-carol".to_string(), "spectre:qold".to_string());
    let new = OwnedWalletMetadata::new("tg-carol".to_string(), "spectre:qnew".to_string());
    store.add(&old).unwrap();
    assert_eq!(store.replace(&new), Some(old));
    assert_eq!(store.find_by_owner_identifier("tg-carol"), Ok(new.clone()));
    // a second add under the same owner is refused: only one record exists
    assert_eq!(store.add(&new), Err(TipError::DuplicateKey));
}

#[test]
fn replace_on_fresh_owner_adds() {
    let mut store = OwnedWalletMetadataStore::new();
    let record = OwnedWalletMetadata::new("tg-dave".to_string(), "spectre:qdave".to_string());
    assert_eq!(store.replace(&record), None);
    assert_eq!(store.find_by_owner_identifier("tg-dave"), Ok(record));
}

#[test]
fn escrows_of_distinct_senders_to_one_target() {
    let mut store = TransitionWalletMetadataStore::new();
    store.add(escrow("tg-x", "tg-other", "s0", "spectre:q0")).unwrap();
    let senders = ["tg-a", "tg-b", "tg-c"];
    for (i, s) in senders.iter().enumerate() {
        let r = escrow(s, "tg-r", &format!("secret{}", i), &format!("spectre:q{}", i));
        assert_eq!(store.add(r), Ok(()));
    }
    let all = store.find_all_by_target("tg-r");
    assert_eq!(all.len(), 3);
    for (i, s) in senders.iter().enumerate() {
        let found = store.find_by_identifier_couple(s, "tg-r").unwrap();
        assert_eq!(found.receive_address, format!("spectre:q{}", i));
        assert_eq!(all[i], found);
    }
}

#[test]
fn escrow_same_pair_is_duplicate_key() {
    let mut store = TransitionWalletMetadataStore::new();
    assert_eq!(store.add(escrow("tg-a", "tg-r", "s1", "spectre:q1")), Ok(()));
    assert_eq!(store.add(escrow("tg-a", "tg-r", "s2", "spectre:q2")), Err(TipError::DuplicateKey));
    assert_eq!(store.find_all_by_target("tg-r").len(), 1);
    assert_eq!(store.find_by_identifier_couple("tg-a", "tg-r").unwrap().secret, "s1");
}

#[test]
fn escrow_lookup_misses() {
    let mut store = TransitionWalletMetadataStore::new();
    store.add(escrow("tg-a", "tg-r", "s1", "spectre:q1")).unwrap();
    assert_eq!(store.find_by_identifier_couple("tg-r", "tg-a"), None);
    assert!(store.find_all_by_target("tg-a").is_empty());
}
