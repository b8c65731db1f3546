//! A small map from names to values, kept as a list of distinct names.

use vstd::prelude::*;

verus! {

/// The strings' views.
pub open spec fn names_of(v: Seq<String>) -> Seq<Seq<char>> {
    v.map_values(|s: String| s@)
}

/// The view of an optional string.
pub open spec fn opt_name(o: Option<String>) -> Option<Seq<char>> {
    match o {
        Some(s) => Some(s@),
        None => None,
    }
}

/// A copy of an optional string.
pub fn copy_opt_string(o: &Option<String>) -> (r: Option<String>)
    ensures
        opt_name(r) == opt_name(*o),
{
    match o {
        Some(s) => Some(s.clone()),
        None => None,
    }
}

/// Values that can be copied into a value with the same view.
pub trait DeepCopy: View + Sized {
    /// A copy with the same view.
    fn deep_copy(&self) -> (r: Self)
        ensures
            r@ == self@,
    ;
}

/// A map from names (strings) to values; each name occurs once.
#[derive(Debug)]
pub struct NameMap<V> {
    entries: Vec<(String, V)>,
}

impl<V> NameMap<V> {
    /// The map over the text of the names.
    pub closed spec fn map(&self) -> Map<Seq<char>, V> {
        Map::new(
            |k: Seq<char>| exists|i: int| 0 <= i < self.entries@.len() && self.entries@[i].0@ == k,
            |k: Seq<char>|
                self.entries@[choose|i: int|
                    0 <= i < self.entries@.len() && self.entries@[i].0@ == k].1,
        )
    }

    /// No name occurs twice.
    pub closed spec fn wf(&self) -> bool {
        forall|i: int, j: int|
            0 <= i < j < self.entries@.len() ==> self.entries@[i].0@ != self.entries@[j].0@
    }

    /// The number of names.
    pub closed spec fn spec_len(&self) -> nat {
        self.entries@.len()
    }

    /// The empty map.
    pub fn new() -> (m: Self)
        ensures
            m.wf(),
            m.map() == Map::<Seq<char>, V>::empty(),
            m.spec_len() == 0,
    {
        let m = NameMap { entries: Vec::new() };
        assert(m.map() =~= Map::<Seq<char>, V>::empty());
        m
    }

    fn find(&self, key: &str) -> (r: Option<usize>)
        requires
            self.wf(),
        ensures
            match r {
                Some(i) => i < self.entries@.len() && self.entries@[i as int].0@ == key@,
                None => forall|i: int|
                    0 <= i < self.entries@.len() ==> self.entries@[i].0@ != key@,
            },
    {
        let k = key.to_owned();
        let mut i: usize = 0;
        while i < self.entries.len()
            invariant
                i <= self.entries@.len(),
                k@ == key@,
                forall|j: int| 0 <= j < i ==> self.entries@[j].0@ != key@,
            decreases self.entries.len() - i,
        {
            if self.entries[i].0 == k {
                return Some(i);
            }
            i = i + 1;
        }
        None
    }

    /// The value of `key`.
    pub fn get(&self, key: &str) -> (r: Option<&V>)
        requires
            self.wf(),
        ensures
            match r {
                Some(v) => self.map().contains_key(key@) && self.map()[key@] == *v,
                None => !self.map().contains_key(key@),
            },
    {
        match self.find(key) {
            Some(i) => {
                let ghost k = key@;
                assert(self.map().contains_key(k));
                let ghost c = choose|j: int|
                    0 <= j < self.entries@.len() && self.entries@[j].0@ == k;
                assert(c == i as int);
                Some(&self.entries[i].1)
            },
            None => None,
        }
    }

    /// Set `key` to `value`, replacing any value it had.
    pub fn insert(&mut self, key: String, value: V)
        requires
            old(self).wf(),
        ensures
            final(self).wf(),
            final(self).map() == old(self).map().insert(key@, value),
            final(self).spec_len() == old(self).spec_len() + if old(self).map().contains_key(
                key@,
            ) {
                0int
            } else {
                1int
            },
    {
        let ghost old_entries = self.entries@;
        let ghost k = key@;
        let ghost v = value;
        match self.find(key.as_str()) {
            Some(i) => {
                assert(old(self).map().contains_key(k));
                self.entries.set(i, (key, value));
                assert forall|a: int, b: int|
                    0 <= a < b < self.entries@.len() implies self.entries@[a].0@
                    != self.entries@[b].0@ by {
                    assert(old_entries[a].0@ != old_entries[b].0@);
                }
                assert forall|kk: Seq<char>| #[trigger] self.map().contains_key(kk)
                    == old(self).map().insert(k, v).contains_key(kk) by {
                    if kk != k {
                        if old(self).map().contains_key(kk) {
                            let w = choose|j: int|
                                0 <= j < old_entries.len() && old_entries[j].0@ == kk;
                            assert(self.entries@[w].0@ == kk);
                        }
                    } else {
                        assert(self.entries@[i as int].0@ == kk);
                    }
                }
                assert forall|kk: Seq<char>| #[trigger] self.map().contains_key(kk) implies
                    self.map()[kk] == old(self).map().insert(k, v)[kk] by {
                    let w = choose|j: int|
                        0 <= j < self.entries@.len() && self.entries@[j].0@ == kk;
                    if kk == k {
                        assert(w == i as int);
                    } else {
                        let w0 = choose|j: int|
                            0 <= j < old_entries.len() && old_entries[j].0@ == kk;
                        assert(w0 == w);
                    }
                }
                assert(self.map() =~= old(self).map().insert(k, v));
            },
            None => {
                assert(!old(self).map().contains_key(k));
                self.entries.push((key, value));
                let ghost n = old_entries.len() as int;
                assert forall|kk: Seq<char>| #[trigger] self.map().contains_key(kk)
                    == old(self).map().insert(k, v).contains_key(kk) by {
                    if kk != k {
                        if old(self).map().contains_key(kk) {
                            let w = choose|j: int|
                                0 <= j < old_entries.len() && old_entries[j].0@ == kk;
                            assert(self.entries@[w].0@ == kk);
                        }
                    } else {
                        assert(self.entries@[n].0@ == kk);
                    }
                }
                assert forall|kk: Seq<char>| #[trigger] self.map().contains_key(kk) implies
                    self.map()[kk] == old(self).map().insert(k, v)[kk] by {
                    let w = choose|j: int|
                        0 <= j < self.entries@.len() && self.entries@[j].0@ == kk;
                    if kk == k {
                        assert(w == n);
                    } else {
                        let w0 = choose|j: int|
                            0 <= j < old_entries.len() && old_entries[j].0@ == kk;
                        assert(w0 == w);
                    }
                }
                assert(self.map() =~= old(self).map().insert(k, v));
            },
        }
    }

    /// Remove `key`, giving back its value if it had one.
    pub fn remove(&mut self, key: &str) -> (r: Option<V>)
        requires
            old(self).wf(),
        ensures
            final(self).wf(),
            final(self).map() == old(self).map().remove(key@),
            match r {
                Some(v) => old(self).map().contains_key(key@) && old(self).map()[key@] == v,
                None => !old(self).map().contains_key(key@),
            },
    {
        let ghost old_entries = self.entries@;
        let ghost k = key@;
        match self.find(key) {
            Some(i) => {
                assert(old(self).map().contains_key(k));
                let ghost c = choose|j: int| 0 <= j < old_entries.len() && old_entries[j].0@ == k;
                assert(c == i as int);
                let (_, v) = self.entries.remove(i);
                assert forall|a: int| 0 <= a < self.entries@.len() implies #[trigger] self.entries@[a]
                    == if a < i {
                    old_entries[a]
                } else {
                    old_entries[a + 1]
                } by {}
                assert forall|a: int, b: int|
                    0 <= a < b < self.entries@.len() implies self.entries@[a].0@
                    != self.entries@[b].0@ by {
                    let a0 = if a < i { a } else { a + 1 };
                    let b0 = if b < i { b } else { b + 1 };
                    assert(self.entries@[a] == old_entries[a0]);
                    assert(self.entries@[b] == old_entries[b0]);
                }
                assert forall|kk: Seq<char>| #[trigger] self.map().contains_key(kk)
                    == old(self).map().remove(k).contains_key(kk) by {
                    if self.map().contains_key(kk) {
                        let w = choose|j: int| 0 <= j < self.entries@.len() && self.entries@[j].0@ == kk;
                        let w0 = if w < i { w } else { w + 1 };
                        assert(self.entries@[w] == old_entries[w0]);
                        assert(old_entries[w0].0@ != k);
                    }
                    if old(self).map().remove(k).contains_key(kk) {
                        let w = choose|j: int| 0 <= j < old_entries.len() && old_entries[j].0@ == kk;
                        assert(w != i as int);
                        let w1 = if w < i { w } else { w - 1 };
                        assert(self.entries@[w1] == old_entries[w]);
                    }
                }
                assert forall|kk: Seq<char>| #[trigger] self.map().contains_key(kk) implies
                    self.map()[kk] == old(self).map().remove(k)[kk] by {
                    let w = choose|j: int| 0 <= j < self.entries@.len() && self.entries@[j].0@ == kk;
                    let w0 = if w < i { w } else { w + 1 };
                    assert(self.entries@[w] == old_entries[w0]);
                    let u = choose|j: int| 0 <= j < old_entries.len() && old_entries[j].0@ == kk;
                    assert(u == w0);
                }
                assert(self.map() =~= old(self).map().remove(k));
                Some(v)
            },
            None => {
                assert(!old(self).map().contains_key(k));
                assert(self.map() =~= old(self).map().remove(k));
                None
            },
        }
    }

    /// The names, in the order they were first inserted.
    pub closed spec fn keys_seq(&self) -> Seq<Seq<char>> {
        self.entries@.map_values(|e: (String, V)| e.0@)
    }

    /// The values, in the order of their names.
    pub closed spec fn values_seq(&self) -> Seq<V> {
        self.entries@.map_values(|e: (String, V)| e.1)
    }

    /// The names and values in order are the map's: each name once, with
    /// its value.
    pub proof fn lemma_seqs(&self)
        requires
            self.wf(),
        ensures
            self.keys_seq().len() == self.values_seq().len(),
            self.spec_len() == self.values_seq().len(),
            forall|i: int|
                0 <= i < self.keys_seq().len() ==> self.map().contains_key(
                    #[trigger] self.keys_seq()[i],
                ) && self.map()[self.keys_seq()[i]] == self.values_seq()[i],
            forall|k: Seq<char>| #[trigger]
                self.map().contains_key(k) ==> exists|i: int|
                    0 <= i < self.keys_seq().len() && self.keys_seq()[i] == k,
            forall|i: int, j: int|
                0 <= i < j < self.keys_seq().len() ==> self.keys_seq()[i] != self.keys_seq()[j],
    {
        assert forall|i: int| 0 <= i < self.keys_seq().len() implies self.map().contains_key(
            #[trigger] self.keys_seq()[i],
        ) && self.map()[self.keys_seq()[i]] == self.values_seq()[i] by {
            let k = self.keys_seq()[i];
            assert(self.entries@[i].0@ == k);
            let c = choose|j: int| 0 <= j < self.entries@.len() && self.entries@[j].0@ == k;
            assert(c == i);
        }
        assert forall|k: Seq<char>| #[trigger] self.map().contains_key(k) implies exists|i: int|
            0 <= i < self.keys_seq().len() && self.keys_seq()[i] == k by {
            let c = choose|j: int| 0 <= j < self.entries@.len() && self.entries@[j].0@ == k;
            assert(self.keys_seq()[c] == k);
        }
    }

    /// The number of names is the size of the map's domain.
    pub proof fn lemma_len(&self)
        requires
            self.wf(),
        ensures
            self.spec_len() == self.map().dom().len(),
            self.map().dom().finite(),
    {
        self.lemma_seqs();
        let keys = self.keys_seq();
        assert(keys.to_set() =~= self.map().dom()) by {
            assert forall|k: Seq<char>| keys.to_set().contains(k) implies self.map().dom().contains(k) by {
                let i = choose|i: int| 0 <= i < keys.len() && keys[i] == k;
                assert(self.map().contains_key(keys[i]));
            }
        }
        assert(keys.no_duplicates());
        keys.unique_seq_to_set();
    }

    /// The name at position `i`.
    pub fn key_at(&self, i: usize) -> (k: &String)
        requires
            i < self.keys_seq().len(),
        ensures
            k@ == self.keys_seq()[i as int],
    {
        &self.entries[i].0
    }

    /// The value at position `i`.
    pub fn value_at(&self, i: usize) -> (v: &V)
        requires
            i < self.values_seq().len(),
        ensures
            *v == self.values_seq()[i as int],
    {
        &self.entries[i].1
    }

    /// Replace the value at position `i`.
    pub fn set_value_at(&mut self, i: usize, value: V)
        requires
            old(self).wf(),
            i < old(self).values_seq().len(),
        ensures
            final(self).wf(),
            final(self).keys_seq() == old(self).keys_seq(),
            final(self).values_seq() == old(self).values_seq().update(i as int, value),
            final(self).map() == old(self).map().insert(old(self).keys_seq()[i as int], value),
            final(self).spec_len() == old(self).spec_len(),
    {
        let ghost old_entries = self.entries@;
        let ghost k = self.entries@[i as int].0@;
        let (key, _) = self.entries.remove(i);
        self.entries.insert(i, (key, value));
        assert(self.entries@ =~= old_entries.update(i as int, (old_entries[i as int].0, value)));
        assert forall|a: int, b: int|
            0 <= a < b < self.entries@.len() implies self.entries@[a].0@ != self.entries@[b].0@ by {
            assert(old_entries[a].0@ != old_entries[b].0@);
        }
        assert(self.keys_seq() =~= old(self).keys_seq());
        assert(self.values_seq() =~= old(self).values_seq().update(i as int, value));
        assert forall|kk: Seq<char>| #[trigger] self.map().contains_key(kk)
            == old(self).map().insert(k, value).contains_key(kk) by {
            if self.map().contains_key(kk) {
                let w = choose|j: int| 0 <= j < self.entries@.len() && self.entries@[j].0@ == kk;
                assert(old_entries[w].0@ == kk);
            }
            if old(self).map().contains_key(kk) {
                let w = choose|j: int| 0 <= j < old_entries.len() && old_entries[j].0@ == kk;
                assert(self.entries@[w].0@ == kk);
            }
            if kk == k {
                assert(self.entries@[i as int].0@ == kk);
            }
        }
        assert forall|kk: Seq<char>| #[trigger] self.map().contains_key(kk) implies self.map()[kk]
            == old(self).map().insert(k, value)[kk] by {
            let w = choose|j: int| 0 <= j < self.entries@.len() && self.entries@[j].0@ == kk;
            if kk == k {
                assert(w == i as int);
            } else {
                let w0 = choose|j: int| 0 <= j < old_entries.len() && old_entries[j].0@ == kk;
                assert(w0 == w);
            }
        }
        assert(self.map() =~= old(self).map().insert(k, value));
    }

    /// Remove every entry.
    pub fn clear(&mut self)
        ensures
            final(self).wf(),
            final(self).map() == Map::<Seq<char>, V>::empty(),
            final(self).spec_len() == 0,
    {
        self.entries.clear();
        assert(self.map() =~= Map::<Seq<char>, V>::empty());
    }

    /// The names, in order.
    pub fn keys(&self) -> (r: Vec<String>)
        ensures
            names_of(r@) == self.keys_seq(),
    {
        let mut r: Vec<String> = Vec::new();
        let mut i: usize = 0;
        while i < self.entries.len()
            invariant
                i <= self.entries@.len(),
                names_of(r@) == self.keys_seq().take(i as int),
            decreases self.entries.len() - i,
        {
            let k = self.entries[i].0.clone();
            let ghost prev = r@;
            r.push(k);
            proof {
                assert(names_of(r@) =~= names_of(prev).push(k@));
                assert(self.keys_seq().take(i + 1) =~= self.keys_seq().take(i as int).push(self.keys_seq()[i as int]));
            }
            i = i + 1;
        }
        assert(self.keys_seq().take(i as int) =~= self.keys_seq());
        r
    }

    /// The number of names.
    pub fn len(&self) -> (n: usize)
        ensures
            n == self.spec_len(),
            n == self.keys_seq().len(),
            n == self.values_seq().len(),
    {
        self.entries.len()
    }
}

impl<V: Copy> NameMap<V> {
    /// A copy of the map.
    pub fn duplicate(&self) -> (r: Self)
        ensures
            r.wf() == self.wf(),
            r.map() == self.map(),
            r.spec_len() == self.spec_len(),
    {
        let mut entries: Vec<(String, V)> = Vec::new();
        let mut i: usize = 0;
        while i < self.entries.len()
            invariant
                i <= self.entries@.len(),
                entries@ == self.entries@.take(i as int),
            decreases self.entries.len() - i,
        {
            let k = self.entries[i].0.clone();
            let v = self.entries[i].1;
            entries.push((k, v));
            i = i + 1;
            assert(entries@ =~= self.entries@.take(i as int));
        }
        assert(self.entries@.take(i as int) =~= self.entries@);
        let r = NameMap { entries };
        assert(r.entries@ == self.entries@);
        assert(r.wf() == self.wf()) by {
            if self.wf() {
                assert forall|a: int, b: int|
                    0 <= a < b < r.entries@.len() implies r.entries@[a].0@ != r.entries@[b].0@ by {
                    assert(self.entries@[a] == r.entries@[a]);
                    assert(self.entries@[b] == r.entries@[b]);
                }
            }
            if r.wf() {
                assert forall|a: int, b: int|
                    0 <= a < b < self.entries@.len() implies self.entries@[a].0@
                    != self.entries@[b].0@ by {
                    assert(self.entries@[a] == r.entries@[a]);
                    assert(self.entries@[b] == r.entries@[b]);
                }
            }
        }
        r
    }
}

impl<V: DeepCopy> NameMap<V> {
    /// A copy of the map, each value copied.
    pub fn deep_copy_map(&self) -> (r: Self)
        ensures
            r.wf() == self.wf(),
            r.keys_seq() == self.keys_seq(),
            r.values_seq().len() == self.values_seq().len(),
            forall|i: int| 0 <= i < self.values_seq().len() ==> (#[trigger] r.values_seq()[i])@ == self.values_seq()[i]@,
    {
        let mut entries: Vec<(String, V)> = Vec::new();
        let mut i: usize = 0;
        while i < self.entries.len()
            invariant
                i <= self.entries@.len(),
                entries@.len() == i,
                forall|j: int| 0 <= j < i ==> (#[trigger] entries@[j]).0@ == self.entries@[j].0@ && entries@[j].1@ == self.entries@[j].1@,
            decreases self.entries.len() - i,
        {
            let k = self.entries[i].0.clone();
            let v = self.entries[i].1.deep_copy();
            entries.push((k, v));
            i = i + 1;
        }
        let r = NameMap { entries };
        assert(r.keys_seq() =~= self.keys_seq());
        assert(r.wf() == self.wf()) by {
            if self.wf() {
                assert forall|a: int, b: int| 0 <= a < b < r.entries@.len() implies r.entries@[a].0@ != r.entries@[b].0@ by {
                    assert(r.entries@[a].0@ == self.entries@[a].0@);
                    assert(r.entries@[b].0@ == self.entries@[b].0@);
                }
            }
            if r.wf() {
                assert forall|a: int, b: int| 0 <= a < b < self.entries@.len() implies self.entries@[a].0@ != self.entries@[b].0@ by {
                    assert(r.entries@[a].0@ == self.entries@[a].0@);
                    assert(r.entries@[b].0@ == self.entries@[b].0@);
                }
            }
        }
        r
    }
}

impl NameMap<String> {
    /// A copy of the map.
    pub fn duplicate_strings(&self) -> (r: Self)
        ensures
            r.wf() == self.wf(),
            r.map() == self.map(),
            r.spec_len() == self.spec_len(),
    {
        let mut entries: Vec<(String, String)> = Vec::new();
        let mut i: usize = 0;
        while i < self.entries.len()
            invariant
                i <= self.entries@.len(),
                entries@ == self.entries@.take(i as int),
            decreases self.entries.len() - i,
        {
            let k = self.entries[i].0.clone();
            let v = self.entries[i].1.clone();
            entries.push((k, v));
            i = i + 1;
            assert(entries@ =~= self.entries@.take(i as int));
        }
        assert(self.entries@.take(i as int) =~= self.entries@);
        let r = NameMap { entries };
        assert(r.entries@ == self.entries@);
        assert(r.wf() == self.wf()) by {
            if self.wf() {
                assert forall|a: int, b: int|
                    0 <= a < b < r.entries@.len() implies r.entries@[a].0@ != r.entries@[b].0@ by {
                    assert(self.entries@[a] == r.entries@[a]);
                    assert(self.entries@[b] == r.entries@[b]);
                }
            }
            if r.wf() {
                assert forall|a: int, b: int|
                    0 <= a < b < self.entries@.len() implies self.entries@[a].0@
                    != self.entries@[b].0@ by {
                    assert(self.entries@[a] == r.entries@[a]);
                    assert(self.entries@[b] == r.entries@[b]);
                }
            }
        }
        r
    }
}

} // verus!
