use vstd::prelude::*;

use crate::error::TipError;
use crate::escrow::{
    find_pair, for_target, pair_taken, TransitionWalletMetadata, TransitionWalletMetadataStore,
};
use crate::owned::{OwnedWalletMetadata, OwnedWalletMetadataStore};
use crate::session::TipOwnedWallet;
use crate::table::KeyedTable;
use crate::text::owned_string;

verus! {

/// Where a tip goes.
#[derive(Debug, Clone, PartialEq, Eq)]
pub enum TipRoute {
    /// The recipient has a wallet: pay its receive address.
    Owned(String),
    /// The recipient has none, and this sender already has an escrow for them: pay it.
    Escrow(String),
    /// The recipient has none, and this sender no escrow for them yet: make one first.
    NewEscrow,
}

/// Where a user's wallet stands.
#[derive(Debug, Clone, Copy, PartialEq, Eq, Structural)]
pub enum WalletState {
    /// Nothing is stored for the user.
    Uninitiated,
    /// Wallet material is stored, but the wallet is not open (never opened, or closed).
    Created,
    /// The wallet is open and registered.
    Active,
}

/// The state shared by all commands: the wallets that are open now, keyed by their
/// owner, and the two metadata indexes.
pub struct TipContext<W> {
    opened: KeyedTable<TipOwnedWallet<W>>,
    owned_wallet_metadata_store: OwnedWalletMetadataStore,
    transition_wallet_metadata_store: TransitionWalletMetadataStore,
}

/// A wallet added under an identifier is there at once, and gone at once after
/// it is removed.
pub proof fn lemma_add_then_remove<W>(
    opened: Map<Seq<char>, TipOwnedWallet<W>>,
    owned_identifier: Seq<char>,
    wallet: TipOwnedWallet<W>,
)
    ensures
        opened.insert(owned_identifier, wallet).contains_key(owned_identifier),
        opened.insert(owned_identifier, wallet)[owned_identifier] == wallet,
        !opened.insert(owned_identifier, wallet).remove(owned_identifier).contains_key(
            owned_identifier,
        ),
{
}

impl<W> TipContext<W> {
    pub closed spec fn wf(&self) -> bool {
        &&& self.opened.wf()
        &&& self.owned_wallet_metadata_store.wf()
        &&& self.transition_wallet_metadata_store.wf()
    }

    /// The open wallets, by owner identifier.
    pub closed spec fn opened_view(&self) -> Map<Seq<char>, TipOwnedWallet<W>> {
        self.opened@
    }

    /// The owned wallet index: owner identifier to receive address.
    pub closed spec fn owned_view(&self) -> Map<Seq<char>, Seq<char>> {
        self.owned_wallet_metadata_store@
    }

    /// The escrow records, in the order they were added.
    pub closed spec fn escrow_view(&self) -> Seq<TransitionWalletMetadata> {
        self.transition_wallet_metadata_store@
    }

    /// Exactly one owned record for `owner` when it is indexed, none otherwise.
    pub closed spec fn owned_record_count(&self, owner: Seq<char>) -> nat {
        self.owned_wallet_metadata_store.record_count(owner)
    }

    /// A context over the given indexes, with no wallet open.
    pub fn new(
        owned_wallet_metadata_store: OwnedWalletMetadataStore,
        transition_wallet_metadata_store: TransitionWalletMetadataStore,
    ) -> (r: Self)
        requires
            owned_wallet_metadata_store.wf(),
            transition_wallet_metadata_store.wf(),
        ensures
            r.wf(),
            r.opened_view() == Map::<Seq<char>, TipOwnedWallet<W>>::empty(),
            r.owned_view() == owned_wallet_metadata_store@,
            r.escrow_view() == transition_wallet_metadata_store@,
    {
        TipContext {
            opened: KeyedTable::new(),
            owned_wallet_metadata_store,
            transition_wallet_metadata_store,
        }
    }

    pub fn owned_wallet_metadata_store(&self) -> (r: &OwnedWalletMetadataStore)
        requires
            self.wf(),
        ensures
            r.wf(),
            r@ == self.owned_view(),
    {
        &self.owned_wallet_metadata_store
    }

    pub fn transition_wallet_metadata_store(&self) -> (r: &TransitionWalletMetadataStore)
        requires
            self.wf(),
        ensures
            r.wf(),
            r@ == self.escrow_view(),
    {
        &self.transition_wallet_metadata_store
    }

    /// Registers `wallet` as the open wallet of `owned_identifier`, in place of any other.
    pub fn add_opened_owned_wallet(&mut self, owned_identifier: &str, wallet: TipOwnedWallet<W>)
        requires
            old(self).wf(),
        ensures
            final(self).wf(),
            final(self).opened_view() == old(self).opened_view().insert(owned_identifier@, wallet),
            final(self).owned_view() == old(self).owned_view(),
            final(self).escrow_view() == old(self).escrow_view(),
    {
        self.opened.insert(owned_string(owned_identifier), wallet);
    }

    pub fn get_opened_owned_wallet(&self, owned_identifier: &str) -> (r: Option<&TipOwnedWallet<W>>)
        requires
            self.wf(),
        ensures
            match r {
                Some(w) => self.opened_view().contains_key(owned_identifier@) && *w
                    == self.opened_view()[owned_identifier@],
                None => !self.opened_view().contains_key(owned_identifier@),
            },
    {
        self.opened.get(&owned_string(owned_identifier))
    }

    /// Unregisters the open wallet of `owned_identifier` and hands it back, if there was one.
    pub fn remove_opened_owned_wallet(&mut self, owned_identifier: &str) -> (r: Option<
        TipOwnedWallet<W>,
    >)
        requires
            old(self).wf(),
        ensures
            final(self).wf(),
            final(self).opened_view() == old(self).opened_view().remove(owned_identifier@),
            final(self).owned_view() == old(self).owned_view(),
            final(self).escrow_view() == old(self).escrow_view(),
            match r {
                Some(w) => old(self).opened_view().contains_key(owned_identifier@) && w == old(
                    self,
                ).opened_view()[owned_identifier@],
                None => !old(self).opened_view().contains_key(owned_identifier@),
            },
    {
        self.opened.remove(&owned_string(owned_identifier))
    }

    pub fn does_opened_owned_wallet_exists(&self, owned_identifier: &str) -> (r: bool)
        requires
            self.wf(),
        ensures
            r == self.opened_view().contains_key(owned_identifier@),
    {
        self.opened.contains_key(&owned_string(owned_identifier))
    }

    /// Where the wallet of `owned_identifier` stands: `Active` when it is open, else
    /// `Created` when material is stored for it (`local_store_exists`, which only the
    /// wallet storage can tell), else `Uninitiated`.
    pub fn wallet_state(&self, owned_identifier: &str, local_store_exists: bool) -> (r: WalletState)
        requires
            self.wf(),
        ensures
            r == WalletState::Active <==> self.opened_view().contains_key(owned_identifier@),
            r == WalletState::Created <==> !self.opened_view().contains_key(owned_identifier@)
                && local_store_exists,
            r == WalletState::Uninitiated <==> !self.opened_view().contains_key(owned_identifier@)
                && !local_store_exists,
    {
        if self.does_opened_owned_wallet_exists(owned_identifier) {
            WalletState::Active
        } else if local_store_exists {
            WalletState::Created
        } else {
            WalletState::Uninitiated
        }
    }

    /// Whether `owned_identifier` may create a wallet: not when one is open for it,
    /// indexed for it, or stored on disk for it (`local_store_exists`, which only the
    /// wallet storage can tell); then `DuplicateKey`.
    pub fn check_create(&self, owned_identifier: &str, local_store_exists: bool) -> (r: Result<
        (),
        TipError,
    >)
        requires
            self.wf(),
        ensures
            r is Ok <==> !local_store_exists && !self.opened_view().contains_key(owned_identifier@)
                && !self.owned_view().contains_key(owned_identifier@),
            r is Err ==> r == Err::<(), TipError>(TipError::DuplicateKey),
    {
        if local_store_exists || self.does_opened_owned_wallet_exists(owned_identifier)
            || self.owned_wallet_metadata_store.contains(owned_identifier) {
            Err(TipError::DuplicateKey)
        } else {
            Ok(())
        }
    }

    /// The last step of creating a wallet: index it under its owner, then register it
    /// as open. Fails with `DuplicateKey`, changing nothing, if the owner is indexed already.
    pub fn register_created(&mut self, wallet: TipOwnedWallet<W>) -> (r: Result<(), TipError>)
        requires
            old(self).wf(),
        ensures
            final(self).wf(),
            final(self).escrow_view() == old(self).escrow_view(),
            old(self).owned_view().contains_key(wallet.identifier_view()) ==> {
                &&& r == Err::<(), TipError>(TipError::DuplicateKey)
                &&& final(self).owned_view() == old(self).owned_view()
                &&& final(self).opened_view() == old(self).opened_view()
            },
            !old(self).owned_view().contains_key(wallet.identifier_view()) ==> {
                &&& r == Ok::<(), TipError>(())
                &&& final(self).owned_view() == old(self).owned_view().insert(
                    wallet.identifier_view(),
                    wallet.address_view(),
                )
                &&& final(self).opened_view() == old(self).opened_view().insert(
                    wallet.identifier_view(),
                    wallet,
                )
            },
    {
        let record = OwnedWalletMetadata::new(
            owned_string(wallet.owned_identifier()),
            wallet.receive_address(),
        );
        match self.owned_wallet_metadata_store.add(&record) {
            Ok(()) => {
                self.opened.insert(record.owner_identifier, wallet);
                Ok(())
            },
            Err(e) => Err(e),
        }
    }

    /// The last step of opening a wallet: register it as open. The indexes are untouched.
    pub fn register_opened(&mut self, wallet: TipOwnedWallet<W>)
        requires
            old(self).wf(),
        ensures
            final(self).wf(),
            final(self).opened_view() == old(self).opened_view().insert(
                wallet.identifier_view(),
                wallet,
            ),
            final(self).owned_view() == old(self).owned_view(),
            final(self).escrow_view() == old(self).escrow_view(),
    {
        let key = owned_string(wallet.owned_identifier());
        self.opened.insert(key, wallet);
    }

    /// The last step of restoring a wallet from its recovery phrase: the owner's record
    /// is replaced by one with the restored address, so that exactly one record of the
    /// owner remains, and the wallet is registered as open. Hands back the replaced record.
    pub fn register_restored(&mut self, wallet: TipOwnedWallet<W>) -> (r: Option<
        OwnedWalletMetadata,
    >)
        requires
            old(self).wf(),
        ensures
            final(self).wf(),
            final(self).owned_view() == old(self).owned_view().insert(
                wallet.identifier_view(),
                wallet.address_view(),
            ),
            final(self).owned_record_count(wallet.identifier_view()) == 1,
            final(self).opened_view() == old(self).opened_view().insert(
                wallet.identifier_view(),
                wallet,
            ),
            final(self).escrow_view() == old(self).escrow_view(),
            match r {
                Some(m) => old(self).owned_view().contains_key(wallet.identifier_view())
                    && m.receive_address@ == old(self).owned_view()[wallet.identifier_view()],
                None => !old(self).owned_view().contains_key(wallet.identifier_view()),
            },
    {
        let record = OwnedWalletMetadata::new(
            owned_string(wallet.owned_identifier()),
            wallet.receive_address(),
        );
        let replaced = self.owned_wallet_metadata_store.replace(&record);
        self.opened.insert(record.owner_identifier, wallet);
        replaced
    }

    /// Decides where a tip from `sender` to `recipient` goes: the recipient's own
    /// wallet if it is indexed, else the escrow of this pair if there is one, else a
    /// new escrow.
    pub fn route_tip(&self, sender: &str, recipient: &str) -> (r: TipRoute)
        requires
            self.wf(),
        ensures
            self.owned_view().contains_key(recipient@) ==> (r matches TipRoute::Owned(a) && a@
                == self.owned_view()[recipient@]),
            !self.owned_view().contains_key(recipient@) ==> match find_pair(
                self.escrow_view(),
                sender@,
                recipient@,
            ) {
                Some(m) => r matches TipRoute::Escrow(a) && a@ == m.receive_address@,
                None => r == TipRoute::NewEscrow,
            },
    {
        match self.owned_wallet_metadata_store.find_by_owner_identifier(recipient) {
            Ok(m) => TipRoute::Owned(m.receive_address),
            Err(_) => match self.transition_wallet_metadata_store.find_by_identifier_couple(
                sender,
                recipient,
            ) {
                Some(m) => TipRoute::Escrow(m.receive_address),
                None => TipRoute::NewEscrow,
            },
        }
    }

    /// Indexes a new escrow; `DuplicateKey`, changing nothing, if its pair has one already.
    pub fn add_escrow(&mut self, record: TransitionWalletMetadata) -> (r: Result<(), TipError>)
        requires
            old(self).wf(),
        ensures
            final(self).wf(),
            final(self).opened_view() == old(self).opened_view(),
            final(self).owned_view() == old(self).owned_view(),
            pair_taken(
                old(self).escrow_view(),
                record.initiator_identifier@,
                record.target_identifier@,
            ) ==> r == Err::<(), TipError>(TipError::DuplicateKey) && final(self).escrow_view()
                == old(self).escrow_view(),
            !pair_taken(
                old(self).escrow_view(),
                record.initiator_identifier@,
                record.target_identifier@,
            ) ==> r == Ok::<(), TipError>(()) && final(self).escrow_view() == old(
                self,
            ).escrow_view().push(record),
    {
        self.transition_wallet_metadata_store.add(record)
    }

    /// Every escrow whose eventual owner is `target_identifier`: what a claim sweeps.
    pub fn escrows_for(&self, target_identifier: &str) -> (r: Vec<TransitionWalletMetadata>)
        requires
            self.wf(),
        ensures
            r@ == for_target(self.escrow_view(), target_identifier@),
    {
        self.transition_wallet_metadata_store.find_all_by_target(target_identifier)
    }
}

} // verus!
