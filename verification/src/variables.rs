//! The `variables` collection of a parse result: a mapping from variable
//! name to value with unique keys, where inserting an existing name
//! overwrites its value (last write wins).
//!
//! It is backed by a vector of pairs whose keys are kept unique, and is
//! viewed as a `Map<Seq<char>, Seq<char>>`.

use vstd::prelude::*;
use vstd::pervasive::VecAdditionalExecFns;

verus! {

/// The map denoted by a sequence of `(name, value)` pairs, later pairs
/// overwriting earlier ones.
spec fn pairs_as_map(entries: Seq<(String, String)>) -> Map<Seq<char>, Seq<char>>
    decreases entries.len(),
{
    if entries.len() == 0 {
        Map::empty()
    } else {
        pairs_as_map(entries.drop_last()).insert(entries.last().0@, entries.last().1@)
    }
}

/// No two pairs share a name.
spec fn unique_keys(entries: Seq<(String, String)>) -> bool {
    forall|i: int, j: int|
        0 <= i < j < entries.len() ==> entries[i].0@ != entries[j].0@
}

/// With unique keys, each stored pair is exactly what the map holds at its
/// name.
proof fn lemma_pairs_entry(entries: Seq<(String, String)>, j: int)
    requires
        unique_keys(entries),
        0 <= j < entries.len(),
    ensures
        pairs_as_map(entries).contains_key(entries[j].0@),
        pairs_as_map(entries)[entries[j].0@] == entries[j].1@,
    decreases entries.len(),
{
    if j < entries.len() - 1 {
        assert(unique_keys(entries.drop_last()));
        lemma_pairs_entry(entries.drop_last(), j);
        assert(entries.last().0@ != entries[j].0@);
    }
}

/// A name stored in no pair is absent from the map.
proof fn lemma_pairs_absent(entries: Seq<(String, String)>, k: Seq<char>)
    requires
        forall|j: int| 0 <= j < entries.len() ==> entries[j].0@ != k,
    ensures
        !pairs_as_map(entries).contains_key(k),
    decreases entries.len(),
{
    if entries.len() > 0 {
        lemma_pairs_absent(entries.drop_last(), k);
    }
}

/// The domain of the denoted map is finite.
proof fn lemma_pairs_finite(entries: Seq<(String, String)>)
    ensures
        pairs_as_map(entries).dom().finite(),
    decreases entries.len(),
{
    if entries.len() > 0 {
        lemma_pairs_finite(entries.drop_last());
    }
}

/// With unique keys, the map holds exactly one entry per pair.
proof fn lemma_pairs_len(entries: Seq<(String, String)>)
    requires
        unique_keys(entries),
    ensures
        pairs_as_map(entries).dom().finite(),
        pairs_as_map(entries).dom().len() == entries.len(),
    decreases entries.len(),
{
    broadcast use vstd::set::axiom_set_insert_len;

    lemma_pairs_finite(entries);
    if entries.len() > 0 {
        assert(unique_keys(entries.drop_last()));
        lemma_pairs_len(entries.drop_last());
        lemma_pairs_absent(entries.drop_last(), entries.last().0@);
    }
}

/// Overwriting the pair that holds a name denotes the same map as inserting
/// that name.
proof fn lemma_pairs_update(entries: Seq<(String, String)>, i: int, p: (String, String))
    requires
        unique_keys(entries),
        0 <= i < entries.len(),
        entries[i].0@ == p.0@,
    ensures
        pairs_as_map(entries.update(i, p)) =~= pairs_as_map(entries).insert(p.0@, p.1@),
    decreases entries.len(),
{
    let n = entries.len() as int;
    if i == n - 1 {
        assert(entries.update(i, p).drop_last() =~= entries.drop_last());
        assert(entries.update(i, p).last() == p);
        assert(pairs_as_map(entries.drop_last()).insert(p.0@, p.1@) =~= pairs_as_map(
            entries.drop_last(),
        ).insert(entries.last().0@, entries.last().1@).insert(p.0@, p.1@));
    } else {
        assert(entries.update(i, p).drop_last() =~= entries.drop_last().update(i, p));
        assert(entries.update(i, p).last() == entries.last());
        assert(unique_keys(entries.drop_last()));
        lemma_pairs_update(entries.drop_last(), i, p);
        assert(entries.last().0@ != p.0@);
        assert(pairs_as_map(entries.drop_last()).insert(p.0@, p.1@).insert(
            entries.last().0@,
            entries.last().1@,
        ) =~= pairs_as_map(entries.drop_last()).insert(entries.last().0@, entries.last().1@).insert(
            p.0@,
            p.1@,
        ));
    }
}

/// A mapping from variable name to value, keys unique, where a second
/// insert of the same name overwrites the first (last write wins).
#[derive(Debug)]
pub struct VariableMap {
    entries: Vec<(String, String)>,
}

impl View for VariableMap {
    type V = Map<Seq<char>, Seq<char>>;

    closed spec fn view(&self) -> Map<Seq<char>, Seq<char>> {
        pairs_as_map(self.entries@)
    }
}

impl VariableMap {
    /// The stored pairs have pairwise distinct names.
    pub closed spec fn wf(&self) -> bool {
        unique_keys(self.entries@)
    }

    /// An empty mapping.
    pub fn new() -> (r: VariableMap)
        ensures
            r.wf(),
            r@ == Map::<Seq<char>, Seq<char>>::empty(),
    {
        VariableMap { entries: Vec::new() }
    }

    /// Binds `name` to `value`, replacing any earlier value of `name`.
    pub fn insert(&mut self, name: String, value: String)
        requires
            old(self).wf(),
        ensures
            final(self).wf(),
            final(self)@ == old(self)@.insert(name@, value@),
    {
        let ghost snap = self.entries@;
        let mut i: usize = 0;
        while i < self.entries.len()
            invariant
                self.entries@ == snap,
                snap == old(self).entries@,
                unique_keys(snap),
                i <= snap.len(),
                forall|k: int| 0 <= k < i ==> snap[k].0@ != name@,
            decreases snap.len() - i,
        {
            if self.entries[i].0 == name {
                let ghost p = (name, value);
                proof {
                    lemma_pairs_update(snap, i as int, p);
                }
                self.entries.set(i, (name, value));
                return;
            }
            i += 1;
        }
        proof {
            lemma_pairs_absent(snap, name@);
            assert(snap.push((name, value)).drop_last() =~= snap);
        }
        self.entries.push((name, value));
    }

    /// Looks a name up: the stored value if the name is bound, else `None`.
    pub fn get<'a>(&'a self, name: &String) -> (r: Option<&'a String>)
        requires
            self.wf(),
        ensures
            match r {
                Some(v) => self@.contains_key(name@) && v@ == self@[name@],
                None => !self@.contains_key(name@),
            },
    {
        let mut i: usize = 0;
        while i < self.entries.len()
            invariant
                self.wf(),
                i <= self.entries@.len(),
                forall|k: int| 0 <= k < i ==> self.entries@[k].0@ != name@,
            decreases self.entries@.len() - i,
        {
            if self.entries[i].0 == *name {
                proof {
                    lemma_pairs_entry(self.entries@, i as int);
                }
                return Some(&self.entries[i].1);
            }
            i += 1;
        }
        proof {
            lemma_pairs_absent(self.entries@, name@);
        }
        None
    }

    /// The number of bound names.
    pub fn len(&self) -> (n: usize)
        requires
            self.wf(),
        ensures
            n == self@.dom().len(),
    {
        proof {
            lemma_pairs_len(self.entries@);
        }
        self.entries.len()
    }

    /// Whether no name is bound.
    pub fn is_empty(&self) -> (r: bool)
        requires
            self.wf(),
        ensures
            r == (self@ == Map::<Seq<char>, Seq<char>>::empty()),
    {
        proof {
            lemma_pairs_len(self.entries@);
            if self.entries@.len() == 0 {
                assert(self@ =~= Map::<Seq<char>, Seq<char>>::empty());
            } else {
                lemma_pairs_entry(self.entries@, 0);
            }
        }
        self.entries.len() == 0
    }
}

} // verus!
