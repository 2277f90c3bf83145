//! A map from strings to strings that remembers the order in which its keys
//! were first inserted.

use vstd::prelude::*;
use vstd::string::*;
use crate::text::str_eq;

verus! {

/// Whether some pair of `pairs` has the key `key`.
pub open spec fn has_key(pairs: Seq<(Seq<char>, Seq<char>)>, key: Seq<char>) -> bool {
    exists|i: int| 0 <= i < pairs.len() && (#[trigger] pairs[i]).0 == key
}

/// The position of a pair with the key `key`; meaningful where there is one.
pub open spec fn index_of(pairs: Seq<(Seq<char>, Seq<char>)>, key: Seq<char>) -> int {
    choose|i: int| 0 <= i < pairs.len() && (#[trigger] pairs[i]).0 == key
}

/// Whether no key occurs in two pairs.
pub open spec fn distinct_keys(pairs: Seq<(Seq<char>, Seq<char>)>) -> bool {
    forall|i: int, j: int|
        0 <= i < j < pairs.len() ==> (#[trigger] pairs[i]).0 != (#[trigger] pairs[j]).0
}

/// The map that the pairs stand for.
pub open spec fn pairs_map(pairs: Seq<(Seq<char>, Seq<char>)>) -> Map<Seq<char>, Seq<char>> {
    Map::new(|k: Seq<char>| has_key(pairs, k), |k: Seq<char>| pairs[index_of(pairs, k)].1)
}

/// Where keys are distinct, a key is found at the one place where it stands.
pub proof fn lemma_index_of(pairs: Seq<(Seq<char>, Seq<char>)>, i: int)
    requires
        distinct_keys(pairs),
        0 <= i < pairs.len(),
    ensures
        has_key(pairs, pairs[i].0),
        index_of(pairs, pairs[i].0) == i,
        pairs_map(pairs)[pairs[i].0] == pairs[i].1,
{
    let j = index_of(pairs, pairs[i].0);
    assert(0 <= j < pairs.len() && pairs[j].0 == pairs[i].0);
    if j < i {
        assert(pairs[j].0 != pairs[i].0);
    }
    if i < j {
        assert(pairs[i].0 != pairs[j].0);
    }
}

/// Appending a pair with a new key inserts it into the map.
pub proof fn lemma_push_new(pairs: Seq<(Seq<char>, Seq<char>)>, key: Seq<char>, value: Seq<char>)
    requires
        distinct_keys(pairs),
        !has_key(pairs, key),
    ensures
        distinct_keys(pairs.push((key, value))),
        pairs_map(pairs.push((key, value))) == pairs_map(pairs).insert(key, value),
{
    let after = pairs.push((key, value));
    let n = pairs.len() as int;
    assert(distinct_keys(after)) by {
        assert forall|i: int, j: int| 0 <= i < j < after.len() implies (#[trigger] after[i]).0 != (
        #[trigger] after[j]).0 by {
            if j < n {
                assert(pairs[i].0 != pairs[j].0);
            } else {
                assert(pairs[i].0 != key);
            }
        }
    }
    assert forall|k: Seq<char>| has_key(after, k) <==> (k == key || has_key(pairs, k)) by {
        if has_key(after, k) {
            let i = index_of(after, k);
            if i < n {
                assert(pairs[i].0 == k);
            }
        }
        if k == key {
            assert(after[n].0 == k);
        }
        if has_key(pairs, k) {
            let i = index_of(pairs, k);
            assert(after[i].0 == k);
        }
    }
    assert forall|k: Seq<char>| has_key(after, k) implies #[trigger] pairs_map(after)[k]
        == pairs_map(pairs).insert(key, value)[k] by {
        let i = index_of(after, k);
        lemma_index_of(after, i);
        if i < n {
            assert(pairs[i].0 == k);
            lemma_index_of(pairs, i);
        }
    }
    assert(pairs_map(after) =~= pairs_map(pairs).insert(key, value));
}

/// Replacing the value of the pair at `at` updates the map at its key.
pub proof fn lemma_update_value(pairs: Seq<(Seq<char>, Seq<char>)>, at: int, value: Seq<char>)
    requires
        distinct_keys(pairs),
        0 <= at < pairs.len(),
    ensures
        distinct_keys(pairs.update(at, (pairs[at].0, value))),
        pairs_map(pairs.update(at, (pairs[at].0, value))) == pairs_map(pairs).insert(
            pairs[at].0,
            value,
        ),
{
    let key = pairs[at].0;
    let after = pairs.update(at, (key, value));
    assert(distinct_keys(after)) by {
        assert forall|i: int, j: int| 0 <= i < j < after.len() implies (#[trigger] after[i]).0 != (
        #[trigger] after[j]).0 by {
            assert(pairs[i].0 != pairs[j].0);
        }
    }
    assert forall|k: Seq<char>| has_key(after, k) <==> has_key(pairs, k) by {
        if has_key(after, k) {
            let i = index_of(after, k);
            assert(pairs[i].0 == k);
        }
        if has_key(pairs, k) {
            let i = index_of(pairs, k);
            assert(after[i].0 == k);
        }
    }
    assert(has_key(pairs, key)) by {
        assert(pairs[at].0 == key);
    }
    assert forall|k: Seq<char>| has_key(after, k) implies #[trigger] pairs_map(after)[k]
        == pairs_map(pairs).insert(key, value)[k] by {
        let i = index_of(after, k);
        lemma_index_of(after, i);
        assert(pairs[i].0 == k);
        lemma_index_of(pairs, i);
    }
    assert(pairs_map(after) =~= pairs_map(pairs).insert(key, value));
}

/// Taking out the pair at `at` removes its key from the map.
pub proof fn lemma_remove_at(pairs: Seq<(Seq<char>, Seq<char>)>, at: int)
    requires
        distinct_keys(pairs),
        0 <= at < pairs.len(),
    ensures
        distinct_keys(pairs.remove(at)),
        !has_key(pairs.remove(at), pairs[at].0),
        pairs_map(pairs.remove(at)) == pairs_map(pairs).remove(pairs[at].0),
{
    let key = pairs[at].0;
    let after = pairs.remove(at);
    assert forall|i: int| 0 <= i < after.len() implies #[trigger] after[i] == pairs[if i < at {
        i
    } else {
        i + 1
    }] by {}
    assert(distinct_keys(after)) by {
        assert forall|i: int, j: int| 0 <= i < j < after.len() implies (#[trigger] after[i]).0 != (
        #[trigger] after[j]).0 by {
            let a = if i < at { i } else { i + 1 };
            let b = if j < at { j } else { j + 1 };
            assert(pairs[a].0 != pairs[b].0);
        }
    }
    assert(!has_key(after, key)) by {
        if has_key(after, key) {
            let i = index_of(after, key);
            let a = if i < at { i } else { i + 1 };
            assert(after[i] == pairs[a]);
            if a < at {
                assert(pairs[a].0 != pairs[at].0);
            } else {
                assert(pairs[at].0 != pairs[a].0);
            }
        }
    }
    assert forall|k: Seq<char>| has_key(after, k) <==> (k != key && has_key(pairs, k)) by {
        if has_key(after, k) {
            let i = index_of(after, k);
            let a = if i < at { i } else { i + 1 };
            assert(after[i] == pairs[a]);
            assert(pairs[a].0 == k);
        }
        if k != key && has_key(pairs, k) {
            let a = index_of(pairs, k);
            let i = if a < at { a } else { a - 1 };
            assert(after[i] == pairs[a]);
            assert(after[i].0 == k);
        }
    }
    assert forall|k: Seq<char>| has_key(after, k) implies #[trigger] pairs_map(after)[k]
        == pairs_map(pairs).remove(key)[k] by {
        let i = index_of(after, k);
        lemma_index_of(after, i);
        let a = if i < at { i } else { i + 1 };
        assert(after[i] == pairs[a]);
        lemma_index_of(pairs, a);
    }
    assert(pairs_map(after) =~= pairs_map(pairs).remove(key));
}

/// A map from strings to strings. No key occurs twice, and the pairs stay
/// in the order in which their keys were first inserted.
#[derive(Debug)]
pub struct StrMap {
    entries: Vec<(String, String)>,
}

impl View for StrMap {
    type V = Map<Seq<char>, Seq<char>>;

    /// The map that this value stands for.
    open spec fn view(&self) -> Map<Seq<char>, Seq<char>> {
        pairs_map(self.pairs())
    }
}

impl StrMap {
    /// The pairs of the map, in the order in which their keys were inserted.
    pub closed spec fn pairs(&self) -> Seq<(Seq<char>, Seq<char>)> {
        self.entries@.map_values(|e: (String, String)| (e.0@, e.1@))
    }

    /// The invariant of the type: no key occurs in two pairs.
    pub open spec fn wf(&self) -> bool {
        distinct_keys(self.pairs())
    }

    /// A map without pairs.
    pub fn new() -> (m: StrMap)
        ensures
            m.wf(),
            m.pairs() == Seq::<(Seq<char>, Seq<char>)>::empty(),
            m@ == Map::<Seq<char>, Seq<char>>::empty(),
    {
        let m = StrMap { entries: Vec::new() };
        proof {
            assert(m.pairs() =~= Seq::<(Seq<char>, Seq<char>)>::empty());
            assert(m@ =~= Map::<Seq<char>, Seq<char>>::empty());
        }
        m
    }

    /// The number of pairs.
    pub fn len(&self) -> (n: usize)
        ensures
            n == self.pairs().len(),
    {
        self.entries.len()
    }

    /// The position of the pair with the key `key`, if there is one.
    pub fn position(&self, key: &str) -> (at: Option<usize>)
        ensures
            at.is_some() == has_key(self.pairs(), key@),
            at matches Some(i) ==> i < self.pairs().len() && self.pairs()[i as int].0 == key@,
    {
        let mut i: usize = 0;
        while i < self.entries.len()
            invariant
                i <= self.entries.len(),
                forall|k: int| 0 <= k < i ==> (#[trigger] self.pairs()[k]).0 != key@,
            decreases self.entries.len() - i,
        {
            if str_eq(self.entries[i].0.as_str(), key) {
                assert(self.pairs()[i as int].0 == key@);
                return Some(i);
            }
            i += 1;
        }
        None
    }

    /// Whether the map has the key `key`.
    pub fn contains_key(&self, key: &str) -> (b: bool)
        ensures
            b == has_key(self.pairs(), key@),
            b == self@.contains_key(key@),
    {
        self.position(key).is_some()
    }

    /// The key of the pair at position `at`.
    pub fn key_at(&self, at: usize) -> (key: &String)
        requires
            at < self.pairs().len(),
        ensures
            key@ == self.pairs()[at as int].0,
    {
        &self.entries[at].0
    }

    /// The value of the pair at position `at`.
    pub fn value_at(&self, at: usize) -> (value: &String)
        requires
            at < self.pairs().len(),
        ensures
            value@ == self.pairs()[at as int].1,
    {
        &self.entries[at].1
    }

    /// The value stored under `key`, if the map has that key.
    pub fn get(&self, key: &str) -> (value: Option<&String>)
        requires
            self.wf(),
        ensures
            value.is_some() == self@.contains_key(key@),
            value matches Some(v) ==> v@ == self@[key@],
    {
        match self.position(key) {
            Some(i) => {
                proof {
                    lemma_index_of(self.pairs(), i as int);
                }
                Some(&self.entries[i].1)
            },
            None => None,
        }
    }

    /// Stores `value` under `key` and returns the value that stood there
    /// before. A known key keeps its place; a new key goes to the end.
    pub fn insert(&mut self, key: String, value: String) -> (before: Option<String>)
        requires
            old(self).wf(),
        ensures
            final(self).wf(),
            final(self)@ == old(self)@.insert(key@, value@),
            before.is_some() == old(self)@.contains_key(key@),
            before matches Some(v) ==> v@ == old(self)@[key@],
            final(self).pairs() == if has_key(old(self).pairs(), key@) {
                old(self).pairs().update(index_of(old(self).pairs(), key@), (key@, value@))
            } else {
                old(self).pairs().push((key@, value@))
            },
    {
        let ghost start = self.pairs();
        match self.position(key.as_str()) {
            Some(i) => {
                proof {
                    lemma_index_of(start, i as int);
                    lemma_update_value(start, i as int, value@);
                }
                let before = self.entries[i].1.clone();
                self.entries.set(i, (key, value));
                proof {
                    assert(self.pairs() =~= start.update(i as int, (key@, value@)));
                }
                Some(before)
            },
            None => {
                proof {
                    lemma_push_new(start, key@, value@);
                }
                self.entries.push((key, value));
                proof {
                    assert(self.pairs() =~= start.push((key@, value@)));
                }
                None
            },
        }
    }

    /// Takes the pair with the key `key` out of the map and returns its
    /// value. The other pairs keep their order.
    pub fn remove(&mut self, key: &str) -> (gone: Option<String>)
        requires
            old(self).wf(),
        ensures
            final(self).wf(),
            final(self)@ == old(self)@.remove(key@),
            !final(self)@.contains_key(key@),
            gone.is_some() == old(self)@.contains_key(key@),
            gone matches Some(v) ==> v@ == old(self)@[key@],
            final(self).pairs() == if has_key(old(self).pairs(), key@) {
                old(self).pairs().remove(index_of(old(self).pairs(), key@))
            } else {
                old(self).pairs()
            },
    {
        let ghost start = self.pairs();
        match self.position(key) {
            Some(i) => {
                proof {
                    lemma_index_of(start, i as int);
                    lemma_remove_at(start, i as int);
                }
                let entry = self.entries.remove(i);
                proof {
                    assert(self.pairs() =~= start.remove(i as int));
                }
                Some(entry.1)
            },
            None => {
                proof {
                    assert(self@ =~= self@.remove(key@));
                }
                None
            },
        }
    }

    /// Replaces the value of the pair at position `at` and leaves its key
    /// and every other pair as they are.
    pub fn set_value_at(&mut self, at: usize, value: String)
        requires
            old(self).wf(),
            at < old(self).pairs().len(),
        ensures
            final(self).wf(),
            final(self).pairs() == old(self).pairs().update(
                at as int,
                (old(self).pairs()[at as int].0, value@),
            ),
            final(self)@ == old(self)@.insert(old(self).pairs()[at as int].0, value@),
    {
        let ghost start = self.pairs();
        let key = self.entries[at].0.clone();
        proof {
            lemma_update_value(start, at as int, value@);
        }
        self.entries.set(at, (key, value));
        proof {
            assert(self.pairs() =~= start.update(at as int, (start[at as int].0, value@)));
        }
    }
}

} // verus!
