use tipbot::{
    escrow_wallet_name, OwnedWalletMetadata, OwnedWalletMetadataStore, TransitionWalletMetadata,
    TransitionWalletMetadataStore,
};

#[test]
fn owned_index_text_round_trip() {
    let mut store = OwnedWalletMetadataStore::new();
    store.add(&OwnedWalletMetadata::new("tg-alice".to_string(), "spectre:qa".to_string())).unwrap();
    store.add(&OwnedWalletMetadata::new("123".to_string(), "spectre:qb".to_string())).unwrap();
    let text = store.to_text();
    assert_eq!(text, "tg-alice\nspectre:qa\n123\nspectre:qb\n");
    let back = OwnedWalletMetadataStore::from_text(&text).unwrap();
    assert_eq!(back.find_by_owner_identifier("tg-alice").unwrap().receive_address, "spectre:qa");
    assert_eq!(back.find_by_owner_identifier("123").unwrap().receive_address, "spectre:qb");
    assert_eq!(back.to_text(), text);
}

#[test]
fn owned_index_empty_text() {
    let store = OwnedWalletMetadataStore::from_text("").unwrap();
    assert_eq!(store.to_text(), "");
}

#[test]
fn owned_index_rejects_bad_text() {
    assert!(OwnedWalletMetadataStore::from_text("tg-alice\n").is_none());
    assert!(OwnedWalletMetadataStore::from_text("tg-alice\nspectre:qa").is_none());
    assert!(OwnedWalletMetadataStore::from_text("tg-a\nq1\ntg-a\nq2\n").is_none());
}

#[test]
fn escrow_index_text_round_trip() {
    let mut store = TransitionWalletMetadataStore::new();
    store.add(TransitionWalletMetadata::new("tg-a".to_string(), "tg-r".to_string(), "s 1".to_string(), "spectre:q1".to_string())).unwrap();
    store.add(TransitionWalletMetadata::new("tg-b".to_string(), "tg-r".to_string(), "s2".to_string(), "spectre:q2".to_string())).unwrap();
    let text = store.to_text();
    assert_eq!(text, "tg-a\ntg-r\ns 1\nspectre:q1\ntg-b\ntg-r\ns2\nspectre:q2\n");
    let back = TransitionWalletMetadataStore::from_text(&text).unwrap();
    assert_eq!(back.find_all_by_target("tg-r"), store.find_all_by_target("tg-r"));
    assert_eq!(back.to_text(), text);
}

#[test]
fn escrow_index_rejects_bad_text() {
    assert!(TransitionWalletMetadataStore::from_text("a\nb\nc\n").is_none());
    assert!(TransitionWalletMetadataStore::from_text("a\nb\nc\nd").is_none());
    assert!(TransitionWalletMetadataStore::from_text("a\nb\nc\nd\na\nb\ne\nf\n").is_none());
    assert!(TransitionWalletMetadataStore::from_text("").unwrap().find_all_by_target("b").is_empty());
}

#[test]
fn escrow_wallet_names() {
    assert_eq!(escrow_wallet_name("tg-alice", "tg-bob"), "tg-alice.tg-bob");
    assert_ne!(escrow_wallet_name("tg-bob", "tg-alice"), escrow_wallet_name("tg-alice", "tg-bob"));
}
