use vstd::prelude::*;

use crate::error::TipError;
use crate::text::{
    append_line, joined, lemma_lines_of_joined, lines_of, owned_string, single_line_fields,
    split_lines,
};

verus! {

/// The persisted record of an escrow wallet, made when `initiator_identifier` first
/// tipped `target_identifier` before the target had a wallet of their own.
///
/// The secret is kept in the clear so that the escrow can be reopened when its
/// target claims it: whoever reads this index can spend what the escrows hold.
#[derive(Debug, Clone, PartialEq, Eq)]
pub struct TransitionWalletMetadata {
    pub initiator_identifier: String,
    pub target_identifier: String,
    pub secret: String,
    pub receive_address: String,
}

/// Whether `r` is the record of the pair (`initiator`, `target`).
pub open spec fn is_pair(r: TransitionWalletMetadata, initiator: Seq<char>, target: Seq<char>) -> bool {
    r.initiator_identifier@ == initiator && r.target_identifier@ == target
}

/// Whether some record of `records` belongs to the pair.
pub open spec fn pair_taken(
    records: Seq<TransitionWalletMetadata>,
    initiator: Seq<char>,
    target: Seq<char>,
) -> bool {
    exists|i: int| 0 <= i < records.len() && is_pair(#[trigger] records[i], initiator, target)
}

/// The first record of the pair in `records`.
pub open spec fn find_pair(
    records: Seq<TransitionWalletMetadata>,
    initiator: Seq<char>,
    target: Seq<char>,
) -> Option<TransitionWalletMetadata>
    decreases records.len(),
{
    if records.len() == 0 {
        None
    } else if is_pair(records[0], initiator, target) {
        Some(records[0])
    } else {
        find_pair(records.drop_first(), initiator, target)
    }
}

/// The records whose target is `target`, in the order in which they stand.
pub open spec fn for_target(records: Seq<TransitionWalletMetadata>, target: Seq<char>) -> Seq<
    TransitionWalletMetadata,
>
    decreases records.len(),
{
    if records.len() == 0 {
        Seq::empty()
    } else if records.last().target_identifier@ == target {
        for_target(records.drop_last(), target).push(records.last())
    } else {
        for_target(records.drop_last(), target)
    }
}

/// No two records share a pair.
pub open spec fn pairs_unique(records: Seq<TransitionWalletMetadata>) -> bool {
    forall|i: int, j: int|
        0 <= i < j < records.len() ==> !is_pair(
            #[trigger] records[j],
            (#[trigger] records[i]).initiator_identifier@,
            records[i].target_identifier@,
        )
}

proof fn lemma_for_target_append(
    a: Seq<TransitionWalletMetadata>,
    b: Seq<TransitionWalletMetadata>,
    target: Seq<char>,
)
    ensures
        for_target(a + b, target) == for_target(a, target) + for_target(b, target),
    decreases b.len(),
{
    if b.len() == 0 {
        assert(a + b =~= a);
        assert(for_target(a, target) + for_target(b, target) =~= for_target(a, target));
    } else {
        assert((a + b).drop_last() =~= a + b.drop_last());
        assert((a + b).last() == b.last());
        lemma_for_target_append(a, b.drop_last(), target);
        if b.last().target_identifier@ == target {
            assert(for_target(a, target) + for_target(b.drop_last(), target).push(b.last())
                =~= (for_target(a, target) + for_target(b.drop_last(), target)).push(b.last()));
        }
    }
}

proof fn lemma_for_target_none(records: Seq<TransitionWalletMetadata>, target: Seq<char>)
    requires
        forall|i: int| 0 <= i < records.len() ==> (#[trigger] records[i]).target_identifier@ != target,
    ensures
        for_target(records, target) == Seq::<TransitionWalletMetadata>::empty(),
    decreases records.len(),
{
    if records.len() > 0 {
        assert(records.last() == records[records.len() - 1]);
        lemma_for_target_none(records.drop_last(), target);
    }
}

proof fn lemma_for_target_all(records: Seq<TransitionWalletMetadata>, target: Seq<char>)
    requires
        forall|i: int| 0 <= i < records.len() ==> (#[trigger] records[i]).target_identifier@ == target,
    ensures
        for_target(records, target) == records,
    decreases records.len(),
{
    if records.len() > 0 {
        assert(records.last() == records[records.len() - 1]);
        lemma_for_target_all(records.drop_last(), target);
        assert(records.drop_last().push(records.last()) =~= records);
    }
}

proof fn lemma_find_pair_first(
    records: Seq<TransitionWalletMetadata>,
    k: int,
    initiator: Seq<char>,
    target: Seq<char>,
)
    requires
        0 <= k < records.len(),
        is_pair(records[k], initiator, target),
        forall|j: int| 0 <= j < k ==> !is_pair(#[trigger] records[j], initiator, target),
    ensures
        find_pair(records, initiator, target) == Some(records[k]),
    decreases k,
{
    if k > 0 {
        let rest = records.drop_first();
        assert(!is_pair(records[0], initiator, target));
        assert(rest[k - 1] == records[k]);
        assert forall|j: int| 0 <= j < k - 1 implies !is_pair(#[trigger] rest[j], initiator, target) by {
            assert(rest[j] == records[j + 1]);
        }
        lemma_find_pair_first(rest, k - 1, initiator, target);
    }
}

/// Tips from distinct initiators to a target that had no escrow yet: each add of
/// their records in turn finds its pair free (so it succeeds and appends), and
/// afterwards the records for that target are exactly the added ones, one per
/// initiator, each found again by its own pair.
pub proof fn lemma_distinct_initiators_escrows(
    before: Seq<TransitionWalletMetadata>,
    added: Seq<TransitionWalletMetadata>,
    target: Seq<char>,
)
    requires
        pairs_unique(before),
        forall|i: int| 0 <= i < before.len() ==> (#[trigger] before[i]).target_identifier@ != target,
        forall|i: int| 0 <= i < added.len() ==> (#[trigger] added[i]).target_identifier@ == target,
        forall|i: int, j: int|
            0 <= i < j < added.len() ==> (#[trigger] added[i]).initiator_identifier@
                != (#[trigger] added[j]).initiator_identifier@,
    ensures
        forall|i: int|
            0 <= i < added.len() ==> !pair_taken(
                before + added.take(i),
                (#[trigger] added[i]).initiator_identifier@,
                target,
            ),
        pairs_unique(before + added),
        for_target(before + added, target) == added,
        forall|i: int|
            0 <= i < added.len() ==> find_pair(
                before + added,
                (#[trigger] added[i]).initiator_identifier@,
                target,
            ) == Some(added[i]),
{
    let all = before + added;
    assert forall|i: int| 0 <= i < added.len() implies !pair_taken(
        before + added.take(i),
        (#[trigger] added[i]).initiator_identifier@,
        target,
    ) by {
        let prefix = before + added.take(i);
        assert forall|k: int| 0 <= k < prefix.len() implies !is_pair(
            #[trigger] prefix[k],
            added[i].initiator_identifier@,
            target,
        ) by {
            if k < before.len() {
                assert(prefix[k] == before[k]);
            } else {
                assert(prefix[k] == added[k - before.len()]);
            }
        }
    }
    assert forall|i: int, j: int| 0 <= i < j < all.len() implies !is_pair(
        #[trigger] all[j],
        (#[trigger] all[i]).initiator_identifier@,
        all[i].target_identifier@,
    ) by {
        if j < before.len() {
            assert(all[i] == before[i] && all[j] == before[j]);
        } else if i < before.len() {
            assert(all[i] == before[i] && all[j] == added[j - before.len()]);
        } else {
            assert(all[i] == added[i - before.len()] && all[j] == added[j - before.len()]);
        }
    }
    lemma_for_target_append(before, added, target);
    lemma_for_target_none(before, target);
    lemma_for_target_all(added, target);
    assert(Seq::<TransitionWalletMetadata>::empty() + added =~= added);
    assert forall|i: int| 0 <= i < added.len() implies find_pair(
        all,
        (#[trigger] added[i]).initiator_identifier@,
        target,
    ) == Some(added[i]) by {
        let k = before.len() + i;
        assert(all[k] == added[i]);
        assert forall|j: int| 0 <= j < k implies !is_pair(
            #[trigger] all[j],
            added[i].initiator_identifier@,
            target,
        ) by {
            if j < before.len() {
                assert(all[j] == before[j]);
            } else {
                assert(all[j] == added[j - before.len()]);
            }
        }
        lemma_find_pair_first(all, k, added[i].initiator_identifier@, target);
    }
}

/// The name of the escrow wallet of a pair: initiator, a dot, then target.
pub open spec fn escrow_wallet_name_of(initiator: Seq<char>, target: Seq<char>) -> Seq<char> {
    initiator + seq!['.'] + target
}

/// Two pairs whose initiators hold no dot get the same escrow wallet name only if
/// they are the same pair.
pub proof fn lemma_escrow_wallet_name_injective(
    a1: Seq<char>,
    b1: Seq<char>,
    a2: Seq<char>,
    b2: Seq<char>,
)
    requires
        forall|j: int| 0 <= j < a1.len() ==> a1[j] != '.',
        forall|j: int| 0 <= j < a2.len() ==> a2[j] != '.',
        escrow_wallet_name_of(a1, b1) == escrow_wallet_name_of(a2, b2),
    ensures
        a1 == a2,
        b1 == b2,
{
    let n1 = escrow_wallet_name_of(a1, b1);
    let n2 = escrow_wallet_name_of(a2, b2);
    if a1.len() < a2.len() {
        assert(n1[a1.len() as int] == '.');
        assert(n2[a1.len() as int] == a2[a1.len() as int]);
    } else if a2.len() < a1.len() {
        assert(n2[a2.len() as int] == '.');
        assert(n1[a2.len() as int] == a1[a2.len() as int]);
    } else {
        assert(a1 =~= n1.take(a1.len() as int));
        assert(a2 =~= n2.take(a2.len() as int));
        assert(b1 =~= n1.skip(a1.len() as int + 1));
        assert(b2 =~= n2.skip(a2.len() as int + 1));
    }
}

/// The name under which the escrow wallet of (`initiator_identifier`, `target_identifier`)
/// is stored.
pub fn escrow_wallet_name(initiator_identifier: &str, target_identifier: &str) -> (r: String)
    ensures
        r@ == escrow_wallet_name_of(initiator_identifier@, target_identifier@),
{
    let mut r = owned_string(initiator_identifier);
    proof { reveal_strlit("."); }
    r.append(".");
    r.append(target_identifier);
    r
}

/// A record as the characters of its four fields.
pub open spec fn record_view(r: TransitionWalletMetadata) -> (
    Seq<char>,
    Seq<char>,
    Seq<char>,
    Seq<char>,
) {
    (r.initiator_identifier@, r.target_identifier@, r.secret@, r.receive_address@)
}

/// The lines that records are written as: initiator, target, secret and address, for each.
pub open spec fn escrow_fields(records: Seq<TransitionWalletMetadata>) -> Seq<Seq<char>>
    decreases records.len(),
{
    if records.len() == 0 {
        Seq::empty()
    } else {
        let r = records.last();
        escrow_fields(records.drop_last()) + seq![
            r.initiator_identifier@,
            r.target_identifier@,
            r.secret@,
            r.receive_address@,
        ]
    }
}

/// The records that a sequence of lines describes, four lines each: `None` if lines
/// are left over or a pair comes twice.
pub open spec fn escrow_records_of(fields: Seq<Seq<char>>) -> Option<
    Seq<(Seq<char>, Seq<char>, Seq<char>, Seq<char>)>,
>
    decreases fields.len(),
{
    if fields.len() == 0 {
        Some(Seq::empty())
    } else if fields.len() < 4 {
        None
    } else {
        let n = fields.len();
        match escrow_records_of(fields.take(n - 4)) {
            None => None,
            Some(rs) => if exists|i: int|
                0 <= i < rs.len() && (#[trigger] rs[i]).0 == fields[n - 4] && rs[i].1 == fields[n
                    - 3] {
                None
            } else {
                Some(rs.push((fields[n - 4], fields[n - 3], fields[n - 2], fields[n - 1])))
            },
        }
    }
}

/// The escrow records that a text describes: its lines, each ended by a newline,
/// read four at a time.
pub open spec fn decode_escrows(text: Seq<char>) -> Option<
    Seq<(Seq<char>, Seq<char>, Seq<char>, Seq<char>)>,
> {
    let lines = lines_of(text);
    if lines.last().len() == 0 {
        escrow_records_of(lines.drop_last())
    } else {
        None
    }
}

/// No newline in any field of any record.
pub open spec fn escrow_single_line(records: Seq<TransitionWalletMetadata>) -> bool {
    forall|i: int|
        0 <= i < records.len() ==> {
            let r = #[trigger] records[i];
            &&& forall|j: int|
                0 <= j < r.initiator_identifier@.len() ==> r.initiator_identifier@[j] != '\n'
            &&& forall|j: int|
                0 <= j < r.target_identifier@.len() ==> r.target_identifier@[j] != '\n'
            &&& forall|j: int| 0 <= j < r.secret@.len() ==> r.secret@[j] != '\n'
            &&& forall|j: int| 0 <= j < r.receive_address@.len() ==> r.receive_address@[j] != '\n'
        }
}

proof fn lemma_ragged_fields(fields: Seq<Seq<char>>)
    requires
        fields.len() % 4 != 0,
    ensures
        escrow_records_of(fields) is None,
    decreases fields.len(),
{
    if fields.len() >= 4 {
        lemma_ragged_fields(fields.take(fields.len() - 4));
    }
}

proof fn lemma_escrow_prefix_none(fields: Seq<Seq<char>>, k: int)
    requires
        0 <= k <= fields.len(),
        k % 4 == 0,
        escrow_records_of(fields.take(k)) is None,
    ensures
        escrow_records_of(fields) is None,
    decreases fields.len() - k,
{
    if fields.len() % 4 != 0 {
        lemma_ragged_fields(fields);
    } else if k < fields.len() {
        let next = fields.take(k + 4);
        assert(next.take(next.len() - 4) =~= fields.take(k));
        lemma_escrow_prefix_none(fields, k + 4);
    } else {
        assert(fields.take(k) =~= fields);
    }
}

proof fn lemma_escrow_decode(records: Seq<TransitionWalletMetadata>)
    requires
        pairs_unique(records),
    ensures
        escrow_fields(records).len() == 4 * records.len(),
        escrow_records_of(escrow_fields(records)) == Some(records.map_values(|r| record_view(r))),
    decreases records.len(),
{
    if records.len() > 0 {
        let prefix = records.drop_last();
        let last = records.last();
        let n = records.len() - 1;
        assert(last == records[n]);
        assert forall|i: int, j: int| 0 <= i < j < prefix.len() implies !is_pair(
            #[trigger] prefix[j],
            (#[trigger] prefix[i]).initiator_identifier@,
            prefix[i].target_identifier@,
        ) by {
            assert(prefix[i] == records[i] && prefix[j] == records[j]);
        }
        lemma_escrow_decode(prefix);
        let fields = escrow_fields(records);
        let m = fields.len();
        assert(fields.take(m - 4) =~= escrow_fields(prefix));
        let rs = prefix.map_values(|r| record_view(r));
        if exists|i: int| 0 <= i < rs.len() && (#[trigger] rs[i]).0 == fields[m - 4] && rs[i].1 == fields[m - 3] {
            let i = choose|i: int| 0 <= i < rs.len() && (#[trigger] rs[i]).0 == fields[m - 4] && rs[i].1 == fields[m - 3];
            assert(prefix[i] == records[i]);
            assert(is_pair(records[n], records[i].initiator_identifier@, records[i].target_identifier@));
        }
        assert(rs.push(record_view(last)) =~= records.map_values(|r| record_view(r)));
    }
}

proof fn lemma_escrow_fields_single_line(records: Seq<TransitionWalletMetadata>)
    requires
        escrow_single_line(records),
    ensures
        single_line_fields(escrow_fields(records)),
    decreases records.len(),
{
    if records.len() > 0 {
        let prefix = records.drop_last();
        assert forall|i: int| 0 <= i < prefix.len() implies #[trigger] prefix[i] == records[i] by {}
        lemma_escrow_fields_single_line(prefix);
        assert(records.last() == records[records.len() - 1]);
        let fields = escrow_fields(records);
        let pf = escrow_fields(prefix);
        assert forall|i: int, j: int|
            0 <= i < fields.len() && 0 <= j < fields[i].len() implies #[trigger] fields[i][j]
            != '\n' by {
            if i < pf.len() {
                assert(fields[i] == pf[i]);
            }
        }
    }
}

impl TransitionWalletMetadata {
    pub fn new(
        initiator_identifier: String,
        target_identifier: String,
        secret: String,
        receive_address: String,
    ) -> (r: Self)
        ensures
            r.initiator_identifier == initiator_identifier,
            r.target_identifier == target_identifier,
            r.secret == secret,
            r.receive_address == receive_address,
    {
        TransitionWalletMetadata { initiator_identifier, target_identifier, secret, receive_address }
    }

    /// A field-by-field copy.
    pub fn copy(&self) -> (r: Self)
        ensures
            r == *self,
    {
        TransitionWalletMetadata {
            initiator_identifier: self.initiator_identifier.clone(),
            target_identifier: self.target_identifier.clone(),
            secret: self.secret.clone(),
            receive_address: self.receive_address.clone(),
        }
    }
}

/// The index of escrow wallets, keyed by the (initiator, target) pair and
/// searchable by target alone. Records are kept in the order they were added.
pub struct TransitionWalletMetadataStore {
    records: Vec<TransitionWalletMetadata>,
}

impl View for TransitionWalletMetadataStore {
    type V = Seq<TransitionWalletMetadata>;

    closed spec fn view(&self) -> Seq<TransitionWalletMetadata> {
        self.records@
    }
}

impl TransitionWalletMetadataStore {
    pub closed spec fn wf(&self) -> bool {
        pairs_unique(self.records@)
    }

    /// Records written out by `to_text` read back as the same records, in the same
    /// order, provided no field holds a newline.
    pub proof fn lemma_text_round_trip(&self)
        requires
            self.wf(),
            escrow_single_line(self@),
        ensures
            decode_escrows(joined(escrow_fields(self@))) == Some(
                self@.map_values(|r| record_view(r)),
            ),
    {
        lemma_escrow_decode(self@);
        lemma_escrow_fields_single_line(self@);
        lemma_lines_of_joined(escrow_fields(self@));
        assert(lines_of(joined(escrow_fields(self@))).drop_last() =~= escrow_fields(self@));
    }

    /// The records written as text: initiator, target, secret and address of each,
    /// each on a line of its own.
    pub fn to_text(&self) -> (r: String)
        ensures
            r@ == joined(escrow_fields(self@)),
    {
        let mut out = String::new();
        let mut i: usize = 0;
        while i < self.records.len()
            invariant
                i <= self@.len(),
                out@ == joined(escrow_fields(self@.take(i as int))),
            decreases self@.len() - i,
        {
            let r = &self.records[i];
            let ghost before = escrow_fields(self@.take(i as int));
            let ghost after = escrow_fields(self@.take(i + 1));
            assert(self@.take(i + 1).drop_last() =~= self@.take(i as int));
            let ghost f0 = before.push(r.initiator_identifier@);
            let ghost f1 = f0.push(r.target_identifier@);
            let ghost f2 = f1.push(r.secret@);
            assert(after =~= f2.push(r.receive_address@));
            assert(f2.push(r.receive_address@).drop_last() =~= f2);
            assert(f2.drop_last() =~= f1);
            assert(f1.drop_last() =~= f0);
            assert(f0.drop_last() =~= before);
            assert(joined(f0) == joined(before) + r.initiator_identifier@ + seq!['\n']);
            assert(joined(f1) == joined(f0) + r.target_identifier@ + seq!['\n']);
            assert(joined(f2) == joined(f1) + r.secret@ + seq!['\n']);
            assert(joined(after) == joined(f2) + r.receive_address@ + seq!['\n']);
            append_line(&mut out, r.initiator_identifier.as_str());
            append_line(&mut out, r.target_identifier.as_str());
            append_line(&mut out, r.secret.as_str());
            append_line(&mut out, r.receive_address.as_str());
            assert(out@ =~= joined(after));
            i = i + 1;
        }
        assert(self@.take(i as int) =~= self@);
        out
    }

    /// Reads records back from text written by `to_text`; `None` when the text is not
    /// such: lines left over, no newline at its end, or a pair that comes twice.
    pub fn from_text(text: &str) -> (r: Option<Self>)
        ensures
            match r {
                Some(s) => s.wf() && decode_escrows(text@) == Some(
                    s@.map_values(|r| record_view(r)),
                ),
                None => decode_escrows(text@) is None,
            },
    {
        let pieces = split_lines(text);
        let ghost lines = lines_of(text@);
        let n = pieces.len();
        assert(pieces@[n - 1]@ == lines.last());
        if !pieces[n - 1].as_str().is_empty() {
            return None;
        }
        let ghost fields = lines.drop_last();
        let m = n - 1;
        let mut store = TransitionWalletMetadataStore::new();
        let mut i: usize = 0;
        assert(store@.map_values(|r| record_view(r)) =~= Seq::empty());
        while i + 3 < m
            invariant
                lines == lines_of(text@),
                n == lines.len(),
                m == n - 1,
                fields == lines.drop_last(),
                lines.last().len() == 0,
                pieces@.len() == n,
                forall|j: int| 0 <= j < n ==> (#[trigger] pieces@[j])@ == lines[j],
                i <= m,
                i % 4 == 0,
                store.wf(),
                escrow_records_of(fields.take(i as int)) == Some(
                    store@.map_values(|r| record_view(r)),
                ),
            decreases m - i,
        {
            let ghost next = fields.take(i + 4);
            let ghost rs = store@.map_values(|r| record_view(r));
            assert(next.take(next.len() - 4) =~= fields.take(i as int));
            let record = TransitionWalletMetadata::new(
                pieces[i].clone(),
                pieces[i + 1].clone(),
                pieces[i + 2].clone(),
                pieces[i + 3].clone(),
            );
            assert(record_view(record) == (next[i as int], next[i + 1], next[i + 2], next[i + 3]));
            let ghost old_store = store@;
            match store.add(record) {
                Ok(()) => {
                    proof {
                        if exists|k: int|
                            0 <= k < rs.len() && (#[trigger] rs[k]).0 == next[i as int] && rs[k].1
                                == next[i + 1] {
                            let k = choose|k: int|
                                0 <= k < rs.len() && (#[trigger] rs[k]).0 == next[i as int]
                                    && rs[k].1 == next[i + 1];
                            assert(is_pair(old_store[k], record.initiator_identifier@, record.target_identifier@));
                        }
                        assert(store@.map_values(|r| record_view(r)) =~= rs.push(record_view(record)));
                        assert(fields.take(i + 4) =~= next);
                    }
                },
                Err(_) => {
                    proof {
                        let k = choose|k: int|
                            0 <= k < old_store.len() && is_pair(
                                #[trigger] old_store[k],
                                record.initiator_identifier@,
                                record.target_identifier@,
                            );
                        assert(rs[k] == record_view(old_store[k]));
                        assert(escrow_records_of(next) is None);
                        lemma_escrow_prefix_none(fields, i + 4);
                    }
                    return None;
                },
            }
            i = i + 4;
        }
        if i < m {
            proof {
                lemma_ragged_fields(fields);
            }
            return None;
        }
        assert(fields.take(i as int) =~= fields);
        Some(store)
    }

    pub fn new() -> (s: Self)
        ensures
            s.wf(),
            s@ == Seq::<TransitionWalletMetadata>::empty(),
    {
        TransitionWalletMetadataStore { records: Vec::new() }
    }

    /// Where the record of the pair stands, if anywhere.
    fn position(&self, initiator: &String, target: &String) -> (r: Option<usize>)
        requires
            self.wf(),
        ensures
            match r {
                Some(i) => i < self@.len() && is_pair(self@[i as int], initiator@, target@)
                    && find_pair(self@, initiator@, target@) == Some(self@[i as int]),
                None => !pair_taken(self@, initiator@, target@) && find_pair(
                    self@,
                    initiator@,
                    target@,
                ) == None::<TransitionWalletMetadata>,
            },
    {
        let mut i: usize = 0;
        assert(self@.subrange(0, self@.len() as int) =~= self@);
        while i < self.records.len()
            invariant
                i <= self@.len(),
                forall|j: int| 0 <= j < i ==> !is_pair(#[trigger] self@[j], initiator@, target@),
                find_pair(self@.subrange(i as int, self@.len() as int), initiator@, target@)
                    == find_pair(self@, initiator@, target@),
            decreases self@.len() - i,
        {
            let ghost rest = self@.subrange(i as int, self@.len() as int);
            assert(rest[0] == self@[i as int]);
            if self.records[i].initiator_identifier == *initiator
                && self.records[i].target_identifier == *target {
                return Some(i);
            }
            assert(rest.drop_first() =~= self@.subrange(i + 1, self@.len() as int));
            i = i + 1;
        }
        assert(self@.subrange(i as int, self@.len() as int) =~= Seq::<TransitionWalletMetadata>::empty());
        None
    }

    /// Adds a record; fails with `DuplicateKey`, changing nothing, if its pair has one already.
    pub fn add(&mut self, record: TransitionWalletMetadata) -> (r: Result<(), TipError>)
        requires
            old(self).wf(),
        ensures
            final(self).wf(),
            pair_taken(old(self)@, record.initiator_identifier@, record.target_identifier@) ==> r
                == Err::<(), TipError>(TipError::DuplicateKey) && final(self)@ == old(self)@,
            !pair_taken(old(self)@, record.initiator_identifier@, record.target_identifier@) ==> r
                == Ok::<(), TipError>(()) && final(self)@ == old(self)@.push(record),
    {
        match self.position(&record.initiator_identifier, &record.target_identifier) {
            Some(_) => Err(TipError::DuplicateKey),
            None => {
                self.records.push(record);
                assert forall|i: int, j: int| 0 <= i < j < self@.len() implies !is_pair(
                    #[trigger] self@[j],
                    (#[trigger] self@[i]).initiator_identifier@,
                    self@[i].target_identifier@,
                ) by {
                    if j == self@.len() - 1 {
                        assert(self@[i] == old(self)@[i]);
                    }
                }
                Ok(())
            },
        }
    }

    /// The escrow record of the pair (`initiator_identifier`, `target_identifier`), if any.
    pub fn find_by_identifier_couple(&self, initiator_identifier: &str, target_identifier: &str) -> (r:
        Option<TransitionWalletMetadata>)
        requires
            self.wf(),
        ensures
            r == find_pair(self@, initiator_identifier@, target_identifier@),
            r is None <==> !pair_taken(self@, initiator_identifier@, target_identifier@),
    {
        let initiator = owned_string(initiator_identifier);
        let target = owned_string(target_identifier);
        match self.position(&initiator, &target) {
            Some(i) => Some(self.records[i].copy()),
            None => None,
        }
    }

    /// Every escrow record whose target is `target_identifier`, from any initiator,
    /// in the order the records were added.
    pub fn find_all_by_target(&self, target_identifier: &str) -> (r: Vec<TransitionWalletMetadata>)
        requires
            self.wf(),
        ensures
            r@ == for_target(self@, target_identifier@),
    {
        let target = owned_string(target_identifier);
        let mut found: Vec<TransitionWalletMetadata> = Vec::new();
        let mut i: usize = 0;
        while i < self.records.len()
            invariant
                i <= self@.len(),
                target@ == target_identifier@,
                found@ == for_target(self@.take(i as int), target_identifier@),
            decreases self@.len() - i,
        {
            assert(self@.take(i + 1).drop_last() =~= self@.take(i as int));
            if self.records[i].target_identifier == target {
                found.push(self.records[i].copy());
            }
            i = i + 1;
        }
        assert(self@.take(i as int) =~= self@);
        found
    }
}

} // verus!
