use vstd::prelude::*;

verus! {

/// An owned copy of a string slice.
pub fn owned_string(s: &str) -> (r: String)
    ensures
        r@ == s@,
{
    s.to_string()
}

} // verus!

verus! {

/// Splitting `s` at its newlines: the pieces finished so far, and the piece under way.
pub open spec fn split_state(s: Seq<char>) -> (Seq<Seq<char>>, Seq<char>)
    decreases s.len(),
{
    if s.len() == 0 {
        (Seq::empty(), Seq::empty())
    } else {
        let (done, current) = split_state(s.drop_last());
        if s.last() == '\n' {
            (done.push(current), Seq::empty())
        } else {
            (done, current.push(s.last()))
        }
    }
}

/// The pieces of `s` between newlines, in order; one more than there are newlines.
pub open spec fn lines_of(s: Seq<char>) -> Seq<Seq<char>> {
    split_state(s).0.push(split_state(s).1)
}

/// Each field followed by a newline.
pub open spec fn joined(fields: Seq<Seq<char>>) -> Seq<char>
    decreases fields.len(),
{
    if fields.len() == 0 {
        Seq::empty()
    } else {
        joined(fields.drop_last()) + fields.last() + seq!['\n']
    }
}

/// No field holds a newline.
pub open spec fn single_line_fields(fields: Seq<Seq<char>>) -> bool {
    forall|i: int, j: int|
        0 <= i < fields.len() && 0 <= j < fields[i].len() ==> #[trigger] fields[i][j] != '\n'
}

proof fn lemma_split_extend(x: Seq<char>, f: Seq<char>)
    requires
        forall|j: int| 0 <= j < f.len() ==> f[j] != '\n',
    ensures
        split_state(x + f) == (split_state(x).0, split_state(x).1 + f),
    decreases f.len(),
{
    if f.len() == 0 {
        assert(x + f =~= x);
        assert(split_state(x).1 + f =~= split_state(x).1);
    } else {
        let g = f.drop_last();
        assert((x + f).drop_last() =~= x + g);
        assert((x + f).last() == f.last());
        lemma_split_extend(x, g);
        assert(split_state(x).1 + g.push(f.last()) =~= (split_state(x).1 + g).push(f.last()));
        assert(g.push(f.last()) =~= f);
    }
}

/// Fields without newlines, each written on its own line, split back into the
/// same fields, followed by the empty piece after the last newline.
pub proof fn lemma_lines_of_joined(fields: Seq<Seq<char>>)
    requires
        single_line_fields(fields),
    ensures
        split_state(joined(fields)) == (fields, Seq::<char>::empty()),
        lines_of(joined(fields)) == fields.push(Seq::<char>::empty()),
    decreases fields.len(),
{
    if fields.len() > 0 {
        let prefix = fields.drop_last();
        assert forall|i: int, j: int|
            0 <= i < prefix.len() && 0 <= j < prefix[i].len() implies #[trigger] prefix[i][j]
            != '\n' by {
            assert(prefix[i] == fields[i]);
        }
        lemma_lines_of_joined(prefix);
        let last = fields.last();
        assert(last == fields[fields.len() - 1]);
        let body = joined(prefix) + last;
        lemma_split_extend(joined(prefix), last);
        assert((body + seq!['\n']).drop_last() =~= body);
        assert(Seq::<char>::empty() + last =~= last);
        assert(prefix.push(last) =~= fields);
    }
}

/// Relies on `str::split` with a `char` pattern: the pieces between the newlines, in
/// order, with an empty piece wherever two newlines meet or one ends the text.
#[verifier::external_body]
pub(crate) fn split_lines(s: &str) -> (r: Vec<String>)
    ensures
        r@.len() == lines_of(s@).len(),
        forall|i: int| 0 <= i < r@.len() ==> (#[trigger] r@[i])@ == lines_of(s@)[i],
{
    s.split('\n').map(|piece| piece.to_string()).collect()
}

/// Writes `field` and a newline at the end of `out`.
pub(crate) fn append_line(out: &mut String, field: &str)
    ensures
        final(out)@ == old(out)@ + field@ + seq!['\n'],
{
    out.append(field);
    proof { reveal_strlit("\n"); }
    out.append("\n");
}

} // verus!
