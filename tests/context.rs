use tipbot::{
    access_failure_error, OwnedWalletMetadataStore, TipContext, TipError, TipOwnedWallet, TipRoute,
    TransitionWalletMetadata, TransitionWalletMetadataStore, WalletAccessFailure, WalletState,
};

fn context() -> TipContext<u32> {
    TipContext::new(OwnedWalletMetadataStore::new(), TransitionWalletMetadataStore::new())
}

fn wallet(id: &str, handle: u32, address: &str) -> TipOwnedWallet<u32> {
    TipOwnedWallet::new(id.to_string(), handle, address.to_string())
}

#[test]
fn exists_after_add_and_not_after_remove() {
    let mut ctx = context();
    assert!(!ctx.does_opened_owned_wallet_exists("tg-alice"));
    ctx.add_opened_owned_wallet("tg-alice", wallet("tg-alice", 1, "spectre:qa"));
    assert!(ctx.does_opened_owned_wallet_exists("tg-alice"));
    let removed = ctx.remove_opened_owned_wallet("tg-alice").unwrap();
    assert_eq!(*removed.wallet(), 1);
    assert!(!ctx.does_opened_owned_wallet_exists("tg-alice"));
    assert!(ctx.remove_opened_owned_wallet("tg-alice").is_none());
}

#[test]
fn add_overwrites_entry() {
    let mut ctx = context();
    ctx.add_opened_owned_wallet("tg-alice", wallet("tg-alice", 1, "spectre:qa"));
    ctx.add_opened_owned_wallet("tg-alice", wallet("tg-alice", 2, "spectre:qa"));
    assert_eq!(*ctx.get_opened_owned_wallet("tg-alice").unwrap().wallet(), 2);
    assert!(ctx.get_opened_owned_wallet("tg-bob").is_none());
}

#[test]
fn create_then_reopen_keeps_address() {
    let mut ctx = context();
    assert_eq!(ctx.check_create("tg-alice", false), Ok(()));
    assert_eq!(ctx.register_created(wallet("tg-alice", 1, "spectre:qalice")), Ok(()));
    let created = ctx.get_opened_owned_wallet("tg-alice").unwrap().receive_address();
    let closed = ctx.remove_opened_owned_wallet("tg-alice").unwrap();
    assert_eq!(closed.owned_identifier(), "tg-alice");
    ctx.register_opened(wallet("tg-alice", 2, "spectre:qalice"));
    let reopened = ctx.get_opened_owned_wallet("tg-alice").unwrap().receive_address();
    assert_eq!(created, reopened);
    let record = ctx.owned_wallet_metadata_store().find_by_owner_identifier("tg-alice").unwrap();
    assert_eq!(record.receive_address, "spectre:qalice");
}

#[test]
fn create_refused_when_anything_exists() {
    let mut ctx = context();
    assert_eq!(ctx.check_create("tg-alice", true), Err(TipError::DuplicateKey));
    ctx.register_created(wallet("tg-alice", 1, "spectre:qa")).unwrap();
    assert_eq!(ctx.check_create("tg-alice", false), Err(TipError::DuplicateKey));
    ctx.remove_opened_owned_wallet("tg-alice");
    assert_eq!(ctx.check_create("tg-alice", false), Err(TipError::DuplicateKey));
    assert_eq!(ctx.register_created(wallet("tg-alice", 3, "spectre:qz")), Err(TipError::DuplicateKey));
    assert!(!ctx.does_opened_owned_wallet_exists("tg-alice"));
}

#[test]
fn restore_replaces_the_record() {
    let mut ctx = context();
    ctx.register_created(wallet("tg-alice", 1, "spectre:qold")).unwrap();
    let replaced = ctx.register_restored(wallet("tg-alice", 2, "spectre:qnew")).unwrap();
    assert_eq!(replaced.receive_address, "spectre:qold");
    let record = ctx.owned_wallet_metadata_store().find_by_owner_identifier("tg-alice").unwrap();
    assert_eq!(record.receive_address, "spectre:qnew");
    assert_eq!(ctx.get_opened_owned_wallet("tg-alice").unwrap().receive_address(), "spectre:qnew");
}

#[test]
fn restore_of_unknown_owner_adds_the_record() {
    let mut ctx = context();
    assert!(ctx.register_restored(wallet("tg-bob", 2, "spectre:qb")).is_none());
    assert!(ctx.owned_wallet_metadata_store().contains("tg-bob"));
}

#[test]
fn tips_route_to_owned_then_escrow() {
    let mut ctx = context();
    ctx.register_created(wallet("tg-alice", 1, "spectre:qalice")).unwrap();
    assert_eq!(ctx.route_tip("tg-bob", "tg-alice"), TipRoute::Owned("spectre:qalice".to_string()));
    assert_eq!(ctx.route_tip("tg-alice", "tg-carol"), TipRoute::NewEscrow);
    let record = TransitionWalletMetadata::new(
        "tg-alice".to_string(),
        "tg-carol".to_string(),
        "secret".to_string(),
        "spectre:qescrow".to_string(),
    );
    assert_eq!(ctx.add_escrow(record.clone()), Ok(()));
    assert_eq!(ctx.add_escrow(record.clone()), Err(TipError::DuplicateKey));
    assert_eq!(ctx.route_tip("tg-alice", "tg-carol"), TipRoute::Escrow("spectre:qescrow".to_string()));
    assert_eq!(ctx.route_tip("tg-bob", "tg-carol"), TipRoute::NewEscrow);
    assert_eq!(ctx.escrows_for("tg-carol"), vec![record]);
}

#[test]
fn wrong_secret_is_reported_as_such() {
    assert_eq!(access_failure_error(WalletAccessFailure::Decrypt), TipError::WrongSecret);
    assert_eq!(access_failure_error(WalletAccessFailure::NoWalletInStorage), TipError::NotFound);
    assert_eq!(access_failure_error(WalletAccessFailure::Other), TipError::WalletFailure);
}

#[test]
fn wallet_states() {
    let mut ctx = context();
    assert_eq!(ctx.wallet_state("tg-alice", false), WalletState::Uninitiated);
    assert_eq!(ctx.wallet_state("tg-alice", true), WalletState::Created);
    ctx.register_opened(wallet("tg-alice", 1, "spectre:qa"));
    assert_eq!(ctx.wallet_state("tg-alice", true), WalletState::Active);
    ctx.remove_opened_owned_wallet("tg-alice");
    assert_eq!(ctx.wallet_state("tg-alice", true), WalletState::Created);
}
