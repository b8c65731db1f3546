//! A small map from integer IDs to values, kept as a list of distinct IDs.

use vstd::prelude::*;
use crate::broker::names::DeepCopy;

verus! {

/// A map from IDs to values; each ID occurs once.
#[derive(Debug)]
pub struct IdMap<V> {
    entries: Vec<(i32, V)>,
}

impl<V> IdMap<V> {
    /// The map.
    pub closed spec fn map(&self) -> Map<i32, V> {
        Map::new(
            |k: i32| exists|i: int| 0 <= i < self.entries@.len() && self.entries@[i].0 == k,
            |k: i32| self.entries@[choose|i: int| 0 <= i < self.entries@.len() && self.entries@[i].0 == k].1,
        )
    }

    /// No ID occurs twice.
    pub closed spec fn wf(&self) -> bool {
        forall|i: int, j: int| 0 <= i < j < self.entries@.len() ==> self.entries@[i].0 != self.entries@[j].0
    }

    /// The IDs, in the order they were first inserted.
    pub closed spec fn keys_seq(&self) -> Seq<i32> {
        self.entries@.map_values(|e: (i32, V)| e.0)
    }

    /// The values, in the order of their IDs.
    pub closed spec fn values_seq(&self) -> Seq<V> {
        self.entries@.map_values(|e: (i32, V)| e.1)
    }

    /// The empty map.
    pub fn new() -> (m: Self)
        ensures
            m.wf(),
            m.map() == Map::<i32, V>::empty(),
            m.values_seq().len() == 0,
    {
        let m = IdMap { entries: Vec::new() };
        assert(m.map() =~= Map::<i32, V>::empty());
        m
    }

    fn find(&self, key: i32) -> (r: Option<usize>)
        ensures
            match r {
                Some(i) => i < self.entries@.len() && self.entries@[i as int].0 == key,
                None => forall|i: int| 0 <= i < self.entries@.len() ==> self.entries@[i].0 != key,
            },
    {
        let mut i: usize = 0;
        while i < self.entries.len()
            invariant
                i <= self.entries@.len(),
                forall|j: int| 0 <= j < i ==> self.entries@[j].0 != key,
            decreases self.entries.len() - i,
        {
            if self.entries[i].0 == key {
                return Some(i);
            }
            i = i + 1;
        }
        None
    }

    /// The value of `key`.
    pub fn get(&self, key: i32) -> (r: Option<&V>)
        requires
            self.wf(),
        ensures
            match r {
                Some(v) => self.map().contains_key(key) && self.map()[key] == *v,
                None => !self.map().contains_key(key),
            },
    {
        match self.find(key) {
            Some(i) => {
                assert(self.map().contains_key(key));
                let ghost c = choose|j: int| 0 <= j < self.entries@.len() && self.entries@[j].0 == key;
                assert(c == i as int);
                Some(&self.entries[i].1)
            },
            None => None,
        }
    }

    /// Set `key` to `value`, replacing any value it had; a new ID goes last.
    pub fn insert(&mut self, key: i32, value: V)
        requires
            old(self).wf(),
        ensures
            final(self).wf(),
            final(self).map() == old(self).map().insert(key, value),
            final(self).values_seq().len() == old(self).values_seq().len() + if old(self).map().contains_key(key) {
                0int
            } else {
                1int
            },
    {
        let ghost old_entries = self.entries@;
        let ghost v = value;
        match self.find(key) {
            Some(i) => {
                assert(old(self).map().contains_key(key));
                self.entries.set(i, (key, value));
                assert forall|a: int, b: int| 0 <= a < b < self.entries@.len() implies self.entries@[a].0 != self.entries@[b].0 by {
                    assert(old_entries[a].0 != old_entries[b].0);
                }
                assert forall|kk: i32| #[trigger] self.map().contains_key(kk) == old(self).map().insert(key, v).contains_key(kk) by {
                    if kk != key {
                        if old(self).map().contains_key(kk) {
                            let w = choose|j: int| 0 <= j < old_entries.len() && old_entries[j].0 == kk;
                            assert(self.entries@[w].0 == kk);
                        }
                    } else {
                        assert(self.entries@[i as int].0 == kk);
                    }
                }
                assert forall|kk: i32| #[trigger] self.map().contains_key(kk) implies self.map()[kk] == old(self).map().insert(key, v)[kk] by {
                    let w = choose|j: int| 0 <= j < self.entries@.len() && self.entries@[j].0 == kk;
                    if kk == key {
                        assert(w == i as int);
                    } else {
                        let w0 = choose|j: int| 0 <= j < old_entries.len() && old_entries[j].0 == kk;
                        assert(w0 == w);
                    }
                }
                assert(self.map() =~= old(self).map().insert(key, v));
            },
            None => {
                assert(!old(self).map().contains_key(key));
                self.entries.push((key, value));
                let ghost n = old_entries.len() as int;
                assert forall|kk: i32| #[trigger] self.map().contains_key(kk) == old(self).map().insert(key, v).contains_key(kk) by {
                    if kk != key {
                        if old(self).map().contains_key(kk) {
                            let w = choose|j: int| 0 <= j < old_entries.len() && old_entries[j].0 == kk;
                            assert(self.entries@[w].0 == kk);
                        }
                    } else {
                        assert(self.entries@[n].0 == kk);
                    }
                }
                assert forall|kk: i32| #[trigger] self.map().contains_key(kk) implies self.map()[kk] == old(self).map().insert(key, v)[kk] by {
                    let w = choose|j: int| 0 <= j < self.entries@.len() && self.entries@[j].0 == kk;
                    if kk == key {
                        assert(w == n);
                    } else {
                        let w0 = choose|j: int| 0 <= j < old_entries.len() && old_entries[j].0 == kk;
                        assert(w0 == w);
                    }
                }
                assert(self.map() =~= old(self).map().insert(key, v));
            },
        }
    }

    /// The names and values in order are the map's: each ID once, with its
    /// value.
    pub proof fn lemma_seqs(&self)
        requires
            self.wf(),
        ensures
            self.keys_seq().len() == self.values_seq().len(),
            forall|i: int| 0 <= i < self.keys_seq().len() ==> self.map().contains_key(#[trigger] self.keys_seq()[i])
                && self.map()[self.keys_seq()[i]] == self.values_seq()[i],
            forall|k: i32| #[trigger] self.map().contains_key(k) ==> exists|i: int| 0 <= i < self.keys_seq().len() && self.keys_seq()[i] == k,
            forall|i: int, j: int| 0 <= i < j < self.keys_seq().len() ==> self.keys_seq()[i] != self.keys_seq()[j],
    {
        assert forall|i: int| 0 <= i < self.keys_seq().len() implies self.map().contains_key(#[trigger] self.keys_seq()[i])
            && self.map()[self.keys_seq()[i]] == self.values_seq()[i] by {
            let k = self.keys_seq()[i];
            assert(self.entries@[i].0 == k);
            let c = choose|j: int| 0 <= j < self.entries@.len() && self.entries@[j].0 == k;
            assert(c == i);
        }
        assert forall|k: i32| #[trigger] self.map().contains_key(k) implies exists|i: int| 0 <= i < self.keys_seq().len() && self.keys_seq()[i] == k by {
            let c = choose|j: int| 0 <= j < self.entries@.len() && self.entries@[j].0 == k;
            assert(self.keys_seq()[c] == k);
        }
    }

    /// The number of IDs.
    pub fn len(&self) -> (n: usize)
        ensures
            n == self.values_seq().len(),
    {
        self.entries.len()
    }

    /// The value at position `i`.
    pub fn value_at(&self, i: usize) -> (v: &V)
        requires
            i < self.values_seq().len(),
        ensures
            *v == self.values_seq()[i as int],
    {
        &self.entries[i].1
    }

    /// The ID at position `i`.
    pub fn key_at(&self, i: usize) -> (k: i32)
        requires
            i < self.keys_seq().len(),
        ensures
            k == self.keys_seq()[i as int],
    {
        self.entries[i].0
    }
}

impl<V: DeepCopy> IdMap<V> {
    /// A copy of the map, each value copied.
    pub fn deep_copy_map(&self) -> (r: Self)
        ensures
            r.wf() == self.wf(),
            r.keys_seq() == self.keys_seq(),
            r.values_seq().len() == self.values_seq().len(),
            forall|i: int| 0 <= i < self.values_seq().len() ==> (#[trigger] r.values_seq()[i])@ == self.values_seq()[i]@,
    {
        let mut entries: Vec<(i32, V)> = Vec::new();
        let mut i: usize = 0;
        while i < self.entries.len()
            invariant
                i <= self.entries@.len(),
                entries@.len() == i,
                forall|j: int| 0 <= j < i ==> (#[trigger] entries@[j]).0 == self.entries@[j].0 && entries@[j].1@ == self.entries@[j].1@,
            decreases self.entries.len() - i,
        {
            let k = self.entries[i].0;
            let v = self.entries[i].1.deep_copy();
            entries.push((k, v));
            i = i + 1;
        }
        let r = IdMap { entries };
        assert(r.keys_seq() =~= self.keys_seq());
        assert(r.wf() == self.wf()) by {
            if self.wf() {
                assert forall|a: int, b: int| 0 <= a < b < r.entries@.len() implies r.entries@[a].0 != r.entries@[b].0 by {
                    assert(r.entries@[a].0 == self.entries@[a].0);
                    assert(r.entries@[b].0 == self.entries@[b].0);
                }
            }
            if r.wf() {
                assert forall|a: int, b: int| 0 <= a < b < self.entries@.len() implies self.entries@[a].0 != self.entries@[b].0 by {
                    assert(r.entries@[a].0 == self.entries@[a].0);
                    assert(r.entries@[b].0 == self.entries@[b].0);
                }
            }
        }
        r
    }
}

} // verus!
