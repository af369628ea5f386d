//! Custodial tipping wallets for chat users: the session registry, the two
//! metadata indexes (owned wallets and escrow wallets), the escrow routing of
//! tips and the claim (sweep) planning, each with a verified contract.

mod claim;
mod commands;
mod context;
mod error;
mod escrow;
mod handler;
mod owned;
mod session;
mod table;
mod text;
mod user;

pub use claim::{
    claimable_total, claimed_total, lemma_failed_probe_isolated, lemma_failed_sweep_isolated,
    plan_claim, probe_balance, success_count, summarize_claim,
    sweep_indices, sweep_payout, sweep_result, total_balance, ClaimPlan, ClaimReport, EscrowProbe,
};
pub use commands::{
    count_words, is_white_space, password_long_enough, recovery_phrase_length_ok, white_space,
    word_count, Command, MIN_PASSWORD_BYTES,
};
pub use context::{lemma_add_then_remove, TipContext, TipRoute, WalletState};
pub use error::TipError;
pub use escrow::{
    decode_escrows, escrow_fields, escrow_records_of, escrow_single_line, escrow_wallet_name,
    escrow_wallet_name_of, find_pair, for_target, is_pair, lemma_distinct_initiators_escrows,
    lemma_escrow_wallet_name_injective, pair_taken, pairs_unique, record_view,
    TransitionWalletMetadata, TransitionWalletMetadataStore,
};
pub use handler::LoggingErrorHandler;
pub use owned::{
    decode_owned, owned_fields, owned_records_of, owned_single_line, OwnedWalletMetadata,
    OwnedWalletMetadataStore,
};
pub use session::{access_failure_error, TipOwnedWallet, WalletAccessFailure};
pub use table::KeyedTable;
pub use text::{
    joined, lemma_lines_of_joined, lines_of, owned_string, single_line_fields, split_state,
};
pub use user::{
    decimal, decimal_string, digit_char, escape_char, escape_markdown, escaped, lower_of,
    telegram_wallet_identifier, telegram_wallet_identifier_of, TipUser,
};
