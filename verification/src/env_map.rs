//! The terminal artifact of resolution: a mapping from environment
//! variable names to final string values.
//!
//! Entries are held in insertion order with unique keys; the mathematical
//! view is the finite map from key characters to value characters.

use vstd::prelude::*;

verus! {

/// The map described by a list of key/value entries, later entries
/// overriding earlier ones on the same key.
pub open spec fn map_of(entries: Seq<(String, String)>) -> Map<Seq<char>, Seq<char>>
    decreases entries.len(),
{
    if entries.len() == 0 {
        Map::empty()
    } else {
        map_of(entries.drop_last()).insert(entries.last().0@, entries.last().1@)
    }
}

/// A key is in the map exactly when some entry carries it.
pub proof fn lemma_map_of_contains(entries: Seq<(String, String)>, k: Seq<char>)
    ensures
        map_of(entries).contains_key(k) <==> exists|i: int|
            0 <= i < entries.len() && entries[i].0@ == k,
    decreases entries.len(),
{
    if entries.len() > 0 {
        lemma_map_of_contains(entries.drop_last(), k);
        if entries.last().0@ != k {
            if map_of(entries).contains_key(k) {
                let i = choose|i: int|
                    0 <= i < entries.drop_last().len() && entries.drop_last()[i].0@ == k;
                assert(entries[i].0@ == k);
            }
            if exists|i: int| 0 <= i < entries.len() && entries[i].0@ == k {
                let i = choose|i: int| 0 <= i < entries.len() && entries[i].0@ == k;
                assert(entries.drop_last()[i].0@ == k);
            }
        }
    }
}

/// With unique keys, the map sends each entry's key to that entry's value.
pub proof fn lemma_map_of_index(entries: Seq<(String, String)>, i: int)
    requires
        forall|p: int, q: int|
            0 <= p < q < entries.len() ==> entries[p].0@ != entries[q].0@,
        0 <= i < entries.len(),
    ensures
        map_of(entries).contains_key(entries[i].0@),
        map_of(entries)[entries[i].0@] == entries[i].1@,
    decreases entries.len(),
{
    if i < entries.len() - 1 {
        lemma_map_of_index(entries.drop_last(), i);
    }
}

/// An ordered mapping from environment variable names to string values.
pub struct EnvMap {
    entries: Vec<(String, String)>,
}

impl View for EnvMap {
    type V = Map<Seq<char>, Seq<char>>;

    closed spec fn view(&self) -> Map<Seq<char>, Seq<char>> {
        map_of(self.entries@)
    }
}

impl EnvMap {
    /// The entries carry pairwise distinct keys.
    pub closed spec fn wf(&self) -> bool {
        forall|i: int, j: int|
            0 <= i < j < self.entries@.len() ==> self.entries@[i].0@ != self.entries@[j].0@
    }

    /// The empty mapping.
    pub fn new() -> (r: EnvMap)
        ensures
            r.wf(),
            r@ == Map::<Seq<char>, Seq<char>>::empty(),
    {
        EnvMap { entries: Vec::new() }
    }

    /// Binds `key` to `value`, overwriting any earlier binding of `key`.
    pub fn insert(&mut self, key: String, value: String)
        requires
            old(self).wf(),
        ensures
            final(self).wf(),
            final(self)@ == old(self)@.insert(key@, value@),
    {
        let ghost s0 = self.entries@;
        let mut idx: usize = 0;
        while idx < self.entries.len()
            invariant
                self.entries@ == s0,
                old(self).entries@ == s0,
                idx <= s0.len(),
                forall|p: int, q: int| 0 <= p < q < s0.len() ==> s0[p].0@ != s0[q].0@,
                forall|i: int| 0 <= i < idx ==> s0[i].0@ != key@,
            decreases s0.len() - idx,
        {
            if self.entries[idx].0 == key {
                self.entries[idx] = (key, value);
                proof {
                    lemma_map_of_update(s0, idx as int, self.entries@[idx as int]);
                    assert(map_of(self.entries@) =~= map_of(s0).insert(key@, value@));
                    assert forall|i: int, j: int|
                        0 <= i < j < self.entries@.len() implies self.entries@[i].0@
                        != self.entries@[j].0@ by {
                        assert(self.entries@[i].0@ == s0[i].0@);
                        assert(self.entries@[j].0@ == s0[j].0@);
                    }
                }
                return ;
            }
            idx = idx + 1;
        }
        self.entries.push((key, value));
        proof {
            assert(self.entries@.drop_last() =~= s0);
        }
    }

    /// Looks `key` up.
    pub fn get(&self, key: &String) -> (r: Option<&String>)
        requires
            self.wf(),
        ensures
            match r {
                Some(v) => self@.contains_key(key@) && v@ == self@[key@],
                None => !self@.contains_key(key@),
            },
    {
        let mut idx: usize = 0;
        while idx < self.entries.len()
            invariant
                idx <= self.entries@.len(),
                self.wf(),
                forall|i: int| 0 <= i < idx ==> self.entries@[i].0@ != key@,
            decreases self.entries@.len() - idx,
        {
            if self.entries[idx].0 == *key {
                proof {
                    lemma_map_of_index(self.entries@, idx as int);
                }
                return Some(&self.entries[idx].1);
            }
            idx = idx + 1;
        }
        proof {
            lemma_map_of_contains(self.entries@, key@);
        }
        None
    }

    /// The number of bound keys.
    pub fn len(&self) -> (r: usize)
        requires
            self.wf(),
        ensures
            r == self@.dom().len(),
    {
        proof {
            lemma_map_of_len(self.entries@);
        }
        self.entries.len()
    }

    /// The entries in insertion order; each binds its key to its value in
    /// the mapping, and every bound key appears exactly once.
    pub fn entries(&self) -> (r: &Vec<(String, String)>)
        requires
            self.wf(),
        ensures
            forall|i: int, j: int| 0 <= i < j < r@.len() ==> r@[i].0@ != r@[j].0@,
            forall|i: int|
                0 <= i < r@.len() ==> self@.contains_key(#[trigger] r@[i].0@) && self@[r@[i].0@]
                    == r@[i].1@,
            forall|k: Seq<char>|
                self@.contains_key(k) ==> exists|i: int| 0 <= i < r@.len() && r@[i].0@ == k,
    {
        proof {
            assert forall|i: int| 0 <= i < self.entries@.len() implies self@.contains_key(
                #[trigger] self.entries@[i].0@,
            ) && self@[self.entries@[i].0@] == self.entries@[i].1@ by {
                lemma_map_of_index(self.entries@, i);
            }
            assert forall|k: Seq<char>| self@.contains_key(k) implies exists|i: int|
                0 <= i < self.entries@.len() && self.entries@[i].0@ == k by {
                lemma_map_of_contains(self.entries@, k);
            }
        }
        &self.entries
    }
}

/// With unique keys the map has as many keys as there are entries.
proof fn lemma_map_of_len(entries: Seq<(String, String)>)
    requires
        forall|p: int, q: int|
            0 <= p < q < entries.len() ==> entries[p].0@ != entries[q].0@,
    ensures
        map_of(entries).dom().len() == entries.len(),
        map_of(entries).dom().finite(),
    decreases entries.len(),
{
    if entries.len() > 0 {
        lemma_map_of_len(entries.drop_last());
        lemma_map_of_contains(entries.drop_last(), entries.last().0@);
        assert(!map_of(entries.drop_last()).contains_key(entries.last().0@));
        assert(map_of(entries).dom() =~= map_of(entries.drop_last()).dom().insert(
            entries.last().0@,
        ));
        vstd::set::axiom_set_insert_finite(map_of(entries.drop_last()).dom(), entries.last().0@);
        vstd::set::axiom_set_insert_len(map_of(entries.drop_last()).dom(), entries.last().0@);
    }
}

/// Overwriting the entry that holds `key` updates the map at `key`.
proof fn lemma_map_of_update(entries: Seq<(String, String)>, idx: int, pair: (String, String))
    requires
        forall|p: int, q: int|
            0 <= p < q < entries.len() ==> entries[p].0@ != entries[q].0@,
        0 <= idx < entries.len(),
        entries[idx].0@ == pair.0@,
    ensures
        map_of(entries.update(idx, pair)) =~= map_of(entries).insert(pair.0@, pair.1@),
    decreases entries.len(),
{
    let updated = entries.update(idx, pair);
    if idx == entries.len() - 1 {
        assert(updated.drop_last() =~= entries.drop_last());
    } else {
        lemma_map_of_update(entries.drop_last(), idx, pair);
        assert(updated.drop_last() =~= entries.drop_last().update(idx, pair));
        assert(updated.last() == entries.last());
        assert(entries.last().0@ != pair.0@);
        assert(map_of(updated) =~= map_of(entries.drop_last()).insert(pair.0@, pair.1@).insert(
            entries.last().0@,
            entries.last().1@,
        ));
        assert(map_of(entries.drop_last()).insert(pair.0@, pair.1@).insert(
            entries.last().0@,
            entries.last().1@,
        ) =~= map_of(entries).insert(pair.0@, pair.1@));
    }
}

} // verus!
