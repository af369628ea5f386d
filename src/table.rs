use vstd::prelude::*;

verus! {

/// A table of values keyed by a string, with at most one entry per key.
///
/// Its model is a `Map` from the key's characters to the value.
pub struct KeyedTable<V> {
    entries: Vec<(String, V)>,
    contents: Ghost<Map<Seq<char>, V>>,
}

impl<V> View for KeyedTable<V> {
    type V = Map<Seq<char>, V>;

    closed spec fn view(&self) -> Map<Seq<char>, V> {
        self.contents@
    }
}

/// How many of `entries` carry the key `k`.
pub open spec fn count_key<V>(entries: Seq<(String, V)>, k: Seq<char>) -> nat
    decreases entries.len(),
{
    if entries.len() == 0 {
        0
    } else {
        count_key(entries.drop_last(), k) + if entries.last().0@ == k {
            1nat
        } else {
            0nat
        }
    }
}

proof fn lemma_count_key_unique<V>(entries: Seq<(String, V)>, k: Seq<char>)
    requires
        forall|i: int, j: int|
            0 <= i < j < entries.len() ==> (#[trigger] entries[i]).0@ != (#[trigger] entries[j]).0@,
    ensures
        count_key(entries, k) == if exists|i: int| 0 <= i < entries.len() && #[trigger] entries[i].0@ == k {
            1nat
        } else {
            0nat
        },
    decreases entries.len(),
{
    if entries.len() > 0 {
        let prefix = entries.drop_last();
        assert forall|i: int, j: int|
            0 <= i < j < prefix.len() implies (#[trigger] prefix[i]).0@ != (#[trigger] prefix[j]).0@ by {
            assert(prefix[i] == entries[i]);
            assert(prefix[j] == entries[j]);
        }
        lemma_count_key_unique(prefix, k);
        let last = entries.len() - 1;
        if entries.last().0@ == k {
            assert(entries[last].0@ == k);
            assert forall|i: int| 0 <= i < prefix.len() implies #[trigger] prefix[i].0@ != k by {
                assert(prefix[i] == entries[i]);
            }
        } else {
            if exists|i: int| 0 <= i < entries.len() && #[trigger] entries[i].0@ == k {
                let i = choose|i: int| 0 <= i < entries.len() && #[trigger] entries[i].0@ == k;
                assert(prefix[i] == entries[i]);
            }
            if exists|i: int| 0 <= i < prefix.len() && #[trigger] prefix[i].0@ == k {
                let i = choose|i: int| 0 <= i < prefix.len() && #[trigger] prefix[i].0@ == k;
                assert(prefix[i] == entries[i]);
            }
        }
    }
}

impl<V> KeyedTable<V> {
    /// How many entries carry the key `k`.
    pub closed spec fn key_count(&self, k: Seq<char>) -> nat {
        count_key(self.entries@, k)
    }

    /// In a well-formed table a key has one entry if it is in the model, none otherwise.
    pub proof fn lemma_key_count(&self, k: Seq<char>)
        requires
            self.wf(),
        ensures
            self.key_count(k) == if self@.contains_key(k) {
                1nat
            } else {
                0nat
            },
    {
        lemma_count_key_unique(self.entries@, k);
        if exists|i: int| 0 <= i < self.entries@.len() && #[trigger] self.entries@[i].0@ == k {
            let i = choose|i: int| 0 <= i < self.entries@.len() && #[trigger] self.entries@[i].0@ == k;
            assert(self.contents@.contains_key(self.entries@[i].0@));
        }
    }

    /// The entries in the order they are kept.
    pub closed spec fn entries(&self) -> Seq<(String, V)> {
        self.entries@
    }

    /// What well-formedness says of the entries: distinct keys, each with its value
    /// in the model, and every key of the model among them.
    pub proof fn lemma_entries(&self)
        requires
            self.wf(),
        ensures
            forall|i: int, j: int|
                0 <= i < j < self.entries().len() ==> (#[trigger] self.entries()[i]).0@
                    != (#[trigger] self.entries()[j]).0@,
            forall|i: int|
                0 <= i < self.entries().len() ==> {
                    &&& self@.contains_key(#[trigger] self.entries()[i].0@)
                    &&& self@[self.entries()[i].0@] == self.entries()[i].1
                },
            forall|k: Seq<char>|
                #[trigger] self@.contains_key(k) ==> exists|i: int|
                    0 <= i < self.entries().len() && #[trigger] self.entries()[i].0@ == k,
    {
        assert forall|k: Seq<char>| #[trigger] self@.contains_key(k) implies exists|i: int|
            0 <= i < self.entries().len() && #[trigger] self.entries()[i].0@ == k by {
            let i = choose|i: int| 0 <= i < self.entries@.len() && #[trigger] self.entries@[i].0@ == k;
            assert(self.entries()[i] == self.entries@[i]);
        }
    }

    pub fn len(&self) -> (r: usize)
        ensures
            r == self.entries().len(),
    {
        self.entries.len()
    }

    pub fn entry(&self, i: usize) -> (r: &(String, V))
        requires
            i < self.entries().len(),
        ensures
            *r == self.entries()[i as int],
    {
        &self.entries[i]
    }

    /// The entries hold distinct keys, and they are exactly the model.
    pub closed spec fn wf(&self) -> bool {
        &&& forall|i: int, j: int|
            0 <= i < j < self.entries@.len() ==> (#[trigger] self.entries@[i]).0@
                != (#[trigger] self.entries@[j]).0@
        &&& forall|i: int|
            0 <= i < self.entries@.len() ==> {
                &&& self.contents@.contains_key(#[trigger] self.entries@[i].0@)
                &&& self.contents@[self.entries@[i].0@] == self.entries@[i].1
            }
        &&& forall|k: Seq<char>|
            #[trigger] self.contents@.contains_key(k) ==> exists|i: int|
                0 <= i < self.entries@.len() && #[trigger] self.entries@[i].0@ == k
    }

    pub fn new() -> (t: Self)
        ensures
            t.wf(),
            t@ == Map::<Seq<char>, V>::empty(),
    {
        KeyedTable { entries: Vec::new(), contents: Ghost(Map::empty()) }
    }

    /// Where `key` stands among the entries, if anywhere.
    fn position(&self, key: &String) -> (r: Option<usize>)
        requires
            self.wf(),
        ensures
            match r {
                Some(i) => i < self.entries@.len() && self.entries@[i as int].0@ == key@,
                None => !self@.contains_key(key@),
            },
    {
        let mut i: usize = 0;
        while i < self.entries.len()
            invariant
                self.wf(),
                i <= self.entries@.len(),
                forall|j: int| 0 <= j < i ==> (#[trigger] self.entries@[j]).0@ != key@,
            decreases self.entries@.len() - i,
        {
            if self.entries[i].0 == *key {
                return Some(i);
            }
            i = i + 1;
        }
        None
    }

    pub fn contains_key(&self, key: &String) -> (r: bool)
        requires
            self.wf(),
        ensures
            r == self@.contains_key(key@),
    {
        match self.position(key) {
            Some(_) => true,
            None => false,
        }
    }

    pub fn get(&self, key: &String) -> (r: Option<&V>)
        requires
            self.wf(),
        ensures
            match r {
                Some(v) => self@.contains_key(key@) && *v == self@[key@],
                None => !self@.contains_key(key@),
            },
    {
        match self.position(key) {
            Some(i) => Some(&self.entries[i].1),
            None => None,
        }
    }

    /// Removes the entry of `key` and hands back its value, if there was one.
    pub fn remove(&mut self, key: &String) -> (r: Option<V>)
        requires
            old(self).wf(),
        ensures
            final(self).wf(),
            final(self)@ == old(self)@.remove(key@),
            match r {
                Some(v) => old(self)@.contains_key(key@) && v == old(self)@[key@],
                None => !old(self)@.contains_key(key@),
            },
    {
        match self.position(key) {
            Some(i) => {
                let ghost pre = self.entries@;
                let (_, v) = self.entries.remove(i);
                self.contents = Ghost(self.contents@.remove(key@));
                assert forall|k: Seq<char>| #[trigger] self.contents@.contains_key(k) implies exists|j: int|
                    0 <= j < self.entries@.len() && #[trigger] self.entries@[j].0@ == k by {
                    let j0 = choose|j: int| 0 <= j < pre.len() && #[trigger] pre[j].0@ == k;
                    if j0 < i {
                        assert(self.entries@[j0].0@ == k);
                    } else {
                        assert(self.entries@[j0 - 1].0@ == k);
                    }
                }
                assert forall|a: int, b: int|
                    0 <= a < b < self.entries@.len() implies (#[trigger] self.entries@[a]).0@
                        != (#[trigger] self.entries@[b]).0@ by {
                    let pa = if a < i { a } else { a + 1 };
                    let pb = if b < i { b } else { b + 1 };
                    assert(pre[pa] == self.entries@[a]);
                    assert(pre[pb] == self.entries@[b]);
                }
                assert forall|a: int| 0 <= a < self.entries@.len() implies {
                    &&& self.contents@.contains_key(#[trigger] self.entries@[a].0@)
                    &&& self.contents@[self.entries@[a].0@] == self.entries@[a].1
                } by {
                    let pa = if a < i { a } else { a + 1 };
                    assert(pre[pa] == self.entries@[a]);
                    assert(pre[i as int].0@ != pre[pa].0@);
                }
                Some(v)
            },
            None => {
                assert(self.contents@.remove(key@) =~= self.contents@);
                None
            },
        }
    }

    /// Sets the value of `key`, in place of any value it had.
    pub fn insert(&mut self, key: String, value: V)
        requires
            old(self).wf(),
        ensures
            final(self).wf(),
            final(self)@ == old(self)@.insert(key@, value),
    {
        let _ = self.remove(&key);
        let ghost pre = self.entries@;
        let ghost k = key@;
        self.entries.push((key, value));
        self.contents = Ghost(self.contents@.insert(k, value));
        assert(self.entries@[pre.len() as int].0@ == k);
        assert forall|c: Seq<char>| #[trigger] self.contents@.contains_key(c) implies exists|j: int|
            0 <= j < self.entries@.len() && #[trigger] self.entries@[j].0@ == c by {
            if c != k {
                let j0 = choose|j: int| 0 <= j < pre.len() && #[trigger] pre[j].0@ == c;
                assert(self.entries@[j0] == pre[j0]);
            }
        }
        assert forall|a: int, b: int|
            0 <= a < b < self.entries@.len() implies (#[trigger] self.entries@[a]).0@
                != (#[trigger] self.entries@[b]).0@ by {
            if b == pre.len() {
                assert(self.entries@[a] == pre[a]);
            } else {
                assert(self.entries@[a] == pre[a]);
                assert(self.entries@[b] == pre[b]);
            }
        }
        assert forall|a: int| 0 <= a < self.entries@.len() implies {
            &&& self.contents@.contains_key(#[trigger] self.entries@[a].0@)
            &&& self.contents@[self.entries@[a].0@] == self.entries@[a].1
        } by {
            if a < pre.len() {
                assert(self.entries@[a] == pre[a]);
            }
        }
    }
}

} // verus!
