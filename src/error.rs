use vstd::prelude::*;

verus! {

/// What a wallet operation can fail with.
#[derive(Debug, Clone, Copy, PartialEq, Eq, Structural)]
pub enum TipError {
    /// No wallet, escrow or metadata record exists for the given key.
    NotFound,
    /// The secret did not decrypt the wallet material.
    WrongSecret,
    /// A record with the same key already exists.
    DuplicateKey,
    /// The fee estimate gave no payout amount.
    FeeEstimationUnavailable,
    /// Building, signing or submitting a transfer failed.
    TransferFailed,
    /// The network node cannot be reached.
    Unreachable,
    /// Any other failure reported by the wallet toolkit.
    WalletFailure,
}

} // verus!
