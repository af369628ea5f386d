use vstd::prelude::*;

use crate::error::TipError;

verus! {

/// A user's opened wallet: its owner, the wallet toolkit's handle `W`, and its
/// primary receive address.
pub struct TipOwnedWallet<W> {
    owned_identifier: String,
    wallet: W,
    receive_address: String,
}

impl<W> TipOwnedWallet<W> {
    pub closed spec fn identifier_view(&self) -> Seq<char> {
        self.owned_identifier@
    }

    pub closed spec fn address_view(&self) -> Seq<char> {
        self.receive_address@
    }

    pub closed spec fn handle(&self) -> W {
        self.wallet
    }

    pub fn new(owned_identifier: String, wallet: W, receive_address: String) -> (r: Self)
        ensures
            r.identifier_view() == owned_identifier@,
            r.handle() == wallet,
            r.address_view() == receive_address@,
    {
        TipOwnedWallet { owned_identifier, wallet, receive_address }
    }

    pub fn owned_identifier(&self) -> (r: &str)
        ensures
            r@ == self.identifier_view(),
    {
        self.owned_identifier.as_str()
    }

    pub fn wallet(&self) -> (r: &W)
        ensures
            *r == self.handle(),
    {
        &self.wallet
    }

    pub fn receive_address(&self) -> (r: String)
        ensures
            r@ == self.address_view(),
    {
        self.receive_address.clone()
    }
}

/// Why the wallet toolkit failed to open a wallet or to change its secret.
#[derive(Debug, Clone, Copy, PartialEq, Eq, Structural)]
pub enum WalletAccessFailure {
    /// The secret did not decrypt the stored material.
    Decrypt,
    /// No wallet material is stored under the identifier.
    NoWalletInStorage,
    /// Anything else.
    Other,
}

/// The error that a failed open or change of secret is reported as: a wrong secret
/// is always `WrongSecret` and missing material `NotFound`, never a generic failure.
pub fn access_failure_error(failure: WalletAccessFailure) -> (r: TipError)
    ensures
        failure == WalletAccessFailure::Decrypt <==> r == TipError::WrongSecret,
        failure == WalletAccessFailure::NoWalletInStorage <==> r == TipError::NotFound,
        failure == WalletAccessFailure::Other <==> r == TipError::WalletFailure,
{
    match failure {
        WalletAccessFailure::Decrypt => TipError::WrongSecret,
        WalletAccessFailure::NoWalletInStorage => TipError::NotFound,
        WalletAccessFailure::Other => TipError::WalletFailure,
    }
}

} // verus!
