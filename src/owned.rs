use vstd::prelude::*;

use crate::error::TipError;
use crate::table::KeyedTable;
use crate::text::{
    append_line, joined, lemma_lines_of_joined, lines_of, owned_string, single_line_fields,
    split_lines,
};

verus! {

/// The persisted record of a user's own wallet: who owns it and where it receives.
#[derive(Debug, Clone, PartialEq, Eq)]
pub struct OwnedWalletMetadata {
    pub owner_identifier: String,
    pub receive_address: String,
}

impl OwnedWalletMetadata {
    pub fn new(owner_identifier: String, receive_address: String) -> (r: Self)
        ensures
            r.owner_identifier == owner_identifier,
            r.receive_address == receive_address,
    {
        OwnedWalletMetadata { owner_identifier, receive_address }
    }
}

/// The lines that the entries are written as: owner, then address, for each entry.
pub open spec fn owned_fields(entries: Seq<(String, String)>) -> Seq<Seq<char>>
    decreases entries.len(),
{
    if entries.len() == 0 {
        Seq::empty()
    } else {
        owned_fields(entries.drop_last()) + seq![entries.last().0@, entries.last().1@]
    }
}

/// The index that a sequence of lines describes, read as owner and address in turn:
/// `None` if a line is left over or an owner comes twice.
pub open spec fn owned_records_of(fields: Seq<Seq<char>>) -> Option<Map<Seq<char>, Seq<char>>>
    decreases fields.len(),
{
    if fields.len() == 0 {
        Some(Map::empty())
    } else if fields.len() == 1 {
        None
    } else {
        match owned_records_of(fields.take(fields.len() - 2)) {
            None => None,
            Some(m) => if m.contains_key(fields[fields.len() - 2]) {
                None
            } else {
                Some(m.insert(fields[fields.len() - 2], fields[fields.len() - 1]))
            },
        }
    }
}

/// The index that a text describes: its lines, each ended by a newline, read as
/// owner and address in turn.
pub open spec fn decode_owned(text: Seq<char>) -> Option<Map<Seq<char>, Seq<char>>> {
    let lines = lines_of(text);
    if lines.last().len() == 0 {
        owned_records_of(lines.drop_last())
    } else {
        None
    }
}

/// No newline in an owner or an address.
pub open spec fn owned_single_line(m: Map<Seq<char>, Seq<char>>) -> bool {
    forall|k: Seq<char>|
        #[trigger] m.contains_key(k) ==> (forall|j: int| 0 <= j < k.len() ==> k[j] != '\n') && (
        forall|j: int| 0 <= j < m[k].len() ==> m[k][j] != '\n')
}

proof fn lemma_prefix_none(fields: Seq<Seq<char>>, k: int)
    requires
        0 <= k <= fields.len(),
        k % 2 == 0,
        owned_records_of(fields.take(k as int)) is None,
    ensures
        owned_records_of(fields) is None,
    decreases fields.len() - k,
{
    if fields.len() % 2 == 1 {
        lemma_odd_fields(fields);
    } else if k < fields.len() {
        let next = fields.take(k + 2);
        assert(next.take(next.len() - 2) =~= fields.take(k));
        lemma_prefix_none(fields, k + 2);
    } else {
        assert(fields.take(k) =~= fields);
    }
}

spec fn entries_map(entries: Seq<(String, String)>) -> Map<Seq<char>, Seq<char>>
    decreases entries.len(),
{
    if entries.len() == 0 {
        Map::empty()
    } else {
        entries_map(entries.drop_last()).insert(entries.last().0@, entries.last().1@)
    }
}

proof fn lemma_odd_fields(fields: Seq<Seq<char>>)
    requires
        fields.len() % 2 == 1,
    ensures
        owned_records_of(fields) is None,
    decreases fields.len(),
{
    if fields.len() > 1 {
        lemma_odd_fields(fields.take(fields.len() - 2));
    }
}

proof fn lemma_entries_decode(entries: Seq<(String, String)>)
    requires
        forall|i: int, j: int|
            0 <= i < j < entries.len() ==> (#[trigger] entries[i]).0@ != (#[trigger] entries[j]).0@,
    ensures
        owned_fields(entries).len() == 2 * entries.len(),
        owned_records_of(owned_fields(entries)) == Some(entries_map(entries)),
        forall|k: Seq<char>|
            entries_map(entries).contains_key(k) <==> exists|i: int|
                0 <= i < entries.len() && #[trigger] entries[i].0@ == k,
        forall|i: int|
            0 <= i < entries.len() ==> entries_map(entries)[#[trigger] entries[i].0@]
                == entries[i].1@,
    decreases entries.len(),
{
    if entries.len() > 0 {
        let prefix = entries.drop_last();
        assert forall|i: int, j: int|
            0 <= i < j < prefix.len() implies (#[trigger] prefix[i]).0@ != (#[trigger] prefix[j]).0@ by {
            assert(prefix[i] == entries[i] && prefix[j] == entries[j]);
        }
        lemma_entries_decode(prefix);
        let last = entries.last();
        let n = entries.len() - 1;
        assert(last == entries[n]);
        let fields = owned_fields(entries);
        assert(fields.take(fields.len() - 2) =~= owned_fields(prefix));
        assert(fields[fields.len() - 2] == last.0@);
        assert(fields[fields.len() - 1] == last.1@);
        assert forall|i: int| 0 <= i < prefix.len() implies #[trigger] prefix[i].0@ != last.0@ by {
            assert(prefix[i] == entries[i]);
        }
        assert forall|k: Seq<char>|
            entries_map(entries).contains_key(k) <==> exists|i: int|
                0 <= i < entries.len() && #[trigger] entries[i].0@ == k by {
            if entries_map(prefix).contains_key(k) {
                let i = choose|i: int| 0 <= i < prefix.len() && #[trigger] prefix[i].0@ == k;
                assert(entries[i] == prefix[i]);
            }
            if exists|i: int| 0 <= i < entries.len() && #[trigger] entries[i].0@ == k {
                let i = choose|i: int| 0 <= i < entries.len() && #[trigger] entries[i].0@ == k;
                if i < n {
                    assert(prefix[i] == entries[i]);
                }
            }
        }
        assert forall|i: int| 0 <= i < entries.len() implies entries_map(entries)[
            #[trigger] entries[i].0@] == entries[i].1@ by {
            if i < n {
                assert(prefix[i] == entries[i]);
            }
        }
    }
}

proof fn lemma_fields_single_line(entries: Seq<(String, String)>)
    requires
        forall|i: int|
            0 <= i < entries.len() ==> (forall|j: int|
                0 <= j < (#[trigger] entries[i]).0@.len() ==> entries[i].0@[j] != '\n') && (
            forall|j: int| 0 <= j < entries[i].1@.len() ==> entries[i].1@[j] != '\n'),
    ensures
        single_line_fields(owned_fields(entries)),
    decreases entries.len(),
{
    if entries.len() > 0 {
        let prefix = entries.drop_last();
        assert forall|i: int| 0 <= i < prefix.len() implies (forall|j: int|
            0 <= j < (#[trigger] prefix[i]).0@.len() ==> prefix[i].0@[j] != '\n') && (forall|j: int|
            0 <= j < prefix[i].1@.len() ==> prefix[i].1@[j] != '\n') by {
            assert(prefix[i] == entries[i]);
        }
        lemma_fields_single_line(prefix);
        assert(entries.last() == entries[entries.len() - 1]);
        let fields = owned_fields(entries);
        let pf = owned_fields(prefix);
        assert forall|i: int, j: int|
            0 <= i < fields.len() && 0 <= j < fields[i].len() implies #[trigger] fields[i][j]
            != '\n' by {
            if i < pf.len() {
                assert(fields[i] == pf[i]);
            }
        }
    }
}

/// The index of owned wallets: owner identifier to receive address, one record per owner.
pub struct OwnedWalletMetadataStore {
    table: KeyedTable<String>,
}

impl View for OwnedWalletMetadataStore {
    type V = Map<Seq<char>, Seq<char>>;

    closed spec fn view(&self) -> Map<Seq<char>, Seq<char>> {
        self.table@.map_values(|a: String| a@)
    }
}

impl OwnedWalletMetadataStore {
    pub closed spec fn wf(&self) -> bool {
        self.table.wf()
    }

    /// How many stored records carry `owner` as their key.
    pub closed spec fn record_count(&self, owner: Seq<char>) -> nat {
        self.table.key_count(owner)
    }

    /// Keys are unique: an owner has one record if it is indexed, and none otherwise.
    pub proof fn lemma_record_count(&self, owner: Seq<char>)
        requires
            self.wf(),
        ensures
            self.record_count(owner) == if self@.contains_key(owner) {
                1nat
            } else {
                0nat
            },
    {
        self.table.lemma_key_count(owner);
    }

    /// The lines that the index is written as.
    pub closed spec fn fields(&self) -> Seq<Seq<char>> {
        owned_fields(self.table.entries())
    }

    /// An index written out by `to_text` reads back as the same index, provided no
    /// owner or address holds a newline.
    pub proof fn lemma_text_round_trip(&self)
        requires
            self.wf(),
            owned_single_line(self@),
        ensures
            decode_owned(joined(self.fields())) == Some(self@),
    {
        let entries = self.table.entries();
        self.table.lemma_entries();
        lemma_entries_decode(entries);
        assert forall|i: int| 0 <= i < entries.len() implies (forall|j: int|
            0 <= j < (#[trigger] entries[i]).0@.len() ==> entries[i].0@[j] != '\n') && (forall|j: int|
            0 <= j < entries[i].1@.len() ==> entries[i].1@[j] != '\n') by {
            assert(self@.contains_key(entries[i].0@));
            assert(self@[entries[i].0@] == entries[i].1@);
        }
        lemma_fields_single_line(entries);
        lemma_lines_of_joined(self.fields());
        let lines = lines_of(joined(self.fields()));
        assert(lines.drop_last() =~= self.fields());
        assert forall|k: Seq<char>| entries_map(entries).contains_key(k) <==> self@.contains_key(k) by {
            if self@.contains_key(k) {
                let i = choose|i: int| 0 <= i < entries.len() && #[trigger] entries[i].0@ == k;
            }
        }
        assert(entries_map(entries) =~= self@);
    }

    /// The index written as text: for each record its owner and its address, each on
    /// a line of its own.
    pub fn to_text(&self) -> (r: String)
        requires
            self.wf(),
        ensures
            r@ == joined(self.fields()),
    {
        let mut out = String::new();
        let mut i: usize = 0;
        let n = self.table.len();
        while i < n
            invariant
                self.wf(),
                n == self.table.entries().len(),
                i <= n,
                out@ == joined(owned_fields(self.table.entries().take(i as int))),
            decreases n - i,
        {
            let entry = self.table.entry(i);
            let ghost before = owned_fields(self.table.entries().take(i as int));
            let ghost after = owned_fields(self.table.entries().take(i + 1));
            assert(self.table.entries().take(i + 1).drop_last() =~= self.table.entries().take(i as int));
            assert(after == before + seq![entry.0@, entry.1@]);
            assert(after.drop_last() =~= before.push(entry.0@));
            assert(before.push(entry.0@).drop_last() =~= before);
            assert(after.last() == entry.1@);
            assert(before.push(entry.0@).last() == entry.0@);
            assert(joined(before.push(entry.0@)) == joined(before) + entry.0@ + seq!['\n']);
            assert(joined(after) == joined(before.push(entry.0@)) + entry.1@ + seq!['\n']);
            append_line(&mut out, entry.0.as_str());
            append_line(&mut out, entry.1.as_str());
            assert(out@ =~= joined(after));
            i = i + 1;
        }
        assert(self.table.entries().take(i as int) =~= self.table.entries());
        out
    }

    /// Reads an index back from text written by `to_text`; `None` when the text is not
    /// such: a line left over, no newline at its end, or an owner that comes twice.
    pub fn from_text(text: &str) -> (r: Option<Self>)
        ensures
            match r {
                Some(s) => s.wf() && decode_owned(text@) == Some(s@),
                None => decode_owned(text@) is None,
            },
    {
        let pieces = split_lines(text);
        let ghost lines = lines_of(text@);
        let n = pieces.len();
        assert(pieces@[n - 1]@ == lines.last());
        if !pieces[n - 1].as_str().is_empty() {
            return None;
        }
        let ghost fields = lines.drop_last();
        let m = n - 1;
        let mut store = OwnedWalletMetadataStore::new();
        let mut i: usize = 0;
        while i + 1 < m
            invariant
                lines == lines_of(text@),
                n == lines.len(),
                m == n - 1,
                fields == lines.drop_last(),
                lines.last().len() == 0,
                pieces@.len() == n,
                forall|j: int| 0 <= j < n ==> (#[trigger] pieces@[j])@ == lines[j],
                i <= m,
                i % 2 == 0,
                store.wf(),
                owned_records_of(fields.take(i as int)) == Some(store@),
            decreases m - i,
        {
            let ghost next = fields.take(i + 2);
            assert(next.take(next.len() - 2) =~= fields.take(i as int));
            assert(next[i as int] == fields[i as int] && next[i + 1] == fields[i + 1]);
            let record = OwnedWalletMetadata::new(pieces[i].clone(), pieces[i + 1].clone());
            match store.add(&record) {
                Ok(()) => {},
                Err(_) => {
                    proof {
                        assert(store@.contains_key(record.owner_identifier@));
                        assert(owned_records_of(next) is None);
                        lemma_prefix_none(fields, i + 2);
                    }
                    return None;
                },
            }
            i = i + 2;
        }
        if i < m {
            proof {
                assert(fields.len() == m);
                lemma_odd_fields(fields);
            }
            return None;
        }
        assert(fields.take(i as int) =~= fields);
        Some(store)
    }

    pub fn new() -> (s: Self)
        ensures
            s.wf(),
            s@ == Map::<Seq<char>, Seq<char>>::empty(),
    {
        let s = OwnedWalletMetadataStore { table: KeyedTable::new() };
        assert(s@ =~= Map::<Seq<char>, Seq<char>>::empty());
        s
    }

    pub fn contains(&self, owner_identifier: &str) -> (r: bool)
        requires
            self.wf(),
        ensures
            r == self@.contains_key(owner_identifier@),
    {
        self.table.contains_key(&owned_string(owner_identifier))
    }

    /// Adds a record; fails with `DuplicateKey`, changing nothing, if its owner is indexed already.
    pub fn add(&mut self, record: &OwnedWalletMetadata) -> (r: Result<(), TipError>)
        requires
            old(self).wf(),
        ensures
            final(self).wf(),
            old(self)@.contains_key(record.owner_identifier@) ==> r == Err::<(), TipError>(
                TipError::DuplicateKey,
            ) && final(self)@ == old(self)@,
            !old(self)@.contains_key(record.owner_identifier@) ==> r == Ok::<(), TipError>(())
                && final(self)@ == old(self)@.insert(
                record.owner_identifier@,
                record.receive_address@,
            ),
    {
        if self.table.contains_key(&record.owner_identifier) {
            return Err(TipError::DuplicateKey);
        }
        self.table.insert(record.owner_identifier.clone(), record.receive_address.clone());
        assert(self@ =~= old(self)@.insert(record.owner_identifier@, record.receive_address@));
        Ok(())
    }

    /// The record of `owner_identifier`; `NotFound` when there is none.
    pub fn find_by_owner_identifier(&self, owner_identifier: &str) -> (r: Result<
        OwnedWalletMetadata,
        TipError,
    >)
        requires
            self.wf(),
        ensures
            match r {
                Ok(m) => self@.contains_key(owner_identifier@) && m.owner_identifier@
                    == owner_identifier@ && m.receive_address@ == self@[owner_identifier@],
                Err(e) => !self@.contains_key(owner_identifier@) && e == TipError::NotFound,
            },
    {
        let key = owned_string(owner_identifier);
        match self.table.get(&key) {
            Some(address) => Ok(OwnedWalletMetadata::new(key, address.clone())),
            None => Err(TipError::NotFound),
        }
    }

    /// Removes the record of `owner_identifier` and hands it back, if there was one.
    pub fn remove_by_owner_identifier(&mut self, owner_identifier: &str) -> (r: Option<
        OwnedWalletMetadata,
    >)
        requires
            old(self).wf(),
        ensures
            final(self).wf(),
            final(self)@ == old(self)@.remove(owner_identifier@),
            match r {
                Some(m) => old(self)@.contains_key(owner_identifier@) && m.owner_identifier@
                    == owner_identifier@ && m.receive_address@ == old(self)@[owner_identifier@],
                None => !old(self)@.contains_key(owner_identifier@),
            },
    {
        let key = owned_string(owner_identifier);
        let removed = self.table.remove(&key);
        assert(self@ =~= old(self)@.remove(owner_identifier@));
        match removed {
            Some(address) => Some(OwnedWalletMetadata::new(key, address)),
            None => None,
        }
    }

    /// Puts `record` in place of whatever record its owner had: the old record is
    /// removed, then the new one added, so exactly one record of that owner remains.
    pub fn replace(&mut self, record: &OwnedWalletMetadata) -> (r: Option<OwnedWalletMetadata>)
        requires
            old(self).wf(),
        ensures
            final(self).wf(),
            final(self)@ == old(self)@.insert(
                record.owner_identifier@,
                record.receive_address@,
            ),
            final(self).record_count(record.owner_identifier@) == 1,
            match r {
                Some(m) => old(self)@.contains_key(record.owner_identifier@)
                    && m.receive_address@ == old(self)@[record.owner_identifier@],
                None => !old(self)@.contains_key(record.owner_identifier@),
            },
    {
        let previous = self.remove_by_owner_identifier(record.owner_identifier.as_str());
        let _ = self.add(record);
        assert(self@ =~= old(self)@.insert(record.owner_identifier@, record.receive_address@));
        proof {
            self.lemma_record_count(record.owner_identifier@);
        }
        previous
    }
}

} // verus!
