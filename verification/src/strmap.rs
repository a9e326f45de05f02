//! String-keyed map in insertion order.
use vstd::prelude::*;

use crate::text::str_eq;

verus! {

/// Map from string keys to values, in insertion order.
/// Inserting a key that is present replaces its value.
#[derive(Debug, PartialEq)]
pub struct StrMap<V: View> {
    entries: Vec<(String, V)>,
}

impl<V: View> StrMap<V> {
    pub closed spec fn key_at(&self, i: int) -> Seq<char> {
        self.entries@[i].0@
    }

    pub closed spec fn value_at(&self, i: int) -> V::V {
        self.entries@[i].1@
    }

    /// The keys in insertion order.
    pub open spec fn key_order(&self) -> Seq<Seq<char>> {
        Seq::new(self.spec_len(), |i: int| self.key_at(i))
    }

    /// Number of stored entries.
    pub closed spec fn spec_len(&self) -> nat {
        self.entries@.len()
    }

    #[verifier::type_invariant]
    closed spec fn keys_unique(&self) -> bool {
        forall|i: int, j: int|
            0 <= i < self.entries@.len() && 0 <= j < self.entries@.len() && i != j
                ==> self.entries@[i].0@ != self.entries@[j].0@
    }

    pub closed spec fn has_key(&self, k: Seq<char>) -> bool {
        exists|i: int| 0 <= i < self.entries@.len() && self.entries@[i].0@ == k
    }

    pub closed spec fn index_of_key(&self, k: Seq<char>) -> int {
        choose|i: int| 0 <= i < self.entries@.len() && self.entries@[i].0@ == k
    }
}

impl<V: View> View for StrMap<V> {
    type V = Map<Seq<char>, V::V>;

    closed spec fn view(&self) -> Map<Seq<char>, V::V> {
        Map::new(|k: Seq<char>| self.has_key(k), |k: Seq<char>| self.entries@[self.index_of_key(k)].1@)
    }
}

impl<V: View> StrMap<V> {
    /// An empty map.
    pub fn new() -> (m: Self)
        ensures
            m@ == Map::<Seq<char>, V::V>::empty(),
            m.spec_len() == 0,
    {
        let m = StrMap { entries: Vec::new() };
        assert(m@ =~= Map::<Seq<char>, V::V>::empty());
        m
    }

    /// Number of keys.
    pub fn len(&self) -> (n: usize)
        ensures
            n == self@.dom().len(),
            n == self.spec_len(),
    {
        proof {
            use_type_invariant(self);
            self.lemma_dom_len();
        }
        self.entries.len()
    }

    proof fn lemma_dom_len(&self)
        requires
            self.keys_unique(),
        ensures
            self@.dom().len() == self.entries@.len(),
            self@.dom().finite(),
    {
        let keys = self.entries@.map_values(|e: (String, V)| e.0@);
        assert(keys.no_duplicates()) by {
            assert forall|i: int, j: int| 0 <= i < keys.len() && 0 <= j < keys.len() && i != j implies keys[i] != keys[j] by {
                assert(keys[i] == self.entries@[i].0@);
                assert(keys[j] == self.entries@[j].0@);
            }
        }
        assert(self@.dom() =~= keys.to_set()) by {
            assert forall|k: Seq<char>| self@.dom().contains(k) implies keys.to_set().contains(k) by {
                let i = self.index_of_key(k);
                assert(keys[i] == k);
            }
            assert forall|k: Seq<char>| keys.to_set().contains(k) implies self@.dom().contains(k) by {
                let i = choose|i: int| 0 <= i < keys.len() && keys[i] == k;
                assert(self.entries@[i].0@ == k);
            }
        }
        keys.unique_seq_to_set();
    }

    /// The position of a key among the entries.
    fn position(&self, key: &str) -> (r: Option<usize>)
        ensures
            r matches Some(i) ==> i < self.entries@.len() && self.entries@[i as int].0@ == key@,
            r is None ==> !self.has_key(key@),
    {
        let mut i: usize = 0;
        while i < self.entries.len()
            invariant
                i <= self.entries@.len(),
                forall|j: int| 0 <= j < i ==> self.entries@[j].0@ != key@,
            decreases self.entries.len() - i,
        {
            if str_eq(self.entries[i].0.as_str(), key) {
                return Some(i);
            }
            i += 1;
        }
        None
    }

    /// The value of a key.
    pub fn get(&self, key: &str) -> (r: Option<&V>)
        ensures
            match r {
                Some(v) => self@.contains_key(key@) && self@[key@] == v@,
                None => !self@.contains_key(key@),
            },
    {
        proof { use_type_invariant(self); }
        match self.position(key) {
            Some(i) => {
                assert(self.index_of_key(key@) == i as int);
                Some(&self.entries[i].1)
            },
            None => None,
        }
    }

    /// Whether a key is present.
    pub fn contains_key(&self, key: &str) -> (b: bool)
        ensures
            b == self@.contains_key(key@),
    {
        self.get(key).is_some()
    }

    /// Inserts or replaces the value of a key.
    pub fn insert(&mut self, key: String, value: V)
        ensures
            final(self)@ == old(self)@.insert(key@, value@),
    {
        proof { use_type_invariant(&*self); }
        let ghost k = key@;
        let ghost v = value@;
        match self.position(key.as_str()) {
            Some(i) => {
                let ghost before = *self;
                let mut entries: Vec<(String, V)> = Vec::new();
                std::mem::swap(&mut entries, &mut self.entries);
                entries.set(i, (key, value));
                assert forall|a: int, b: int|
                    0 <= a < entries@.len() && 0 <= b < entries@.len() && a != b
                        implies entries@[a].0@ != entries@[b].0@ by {
                    if a != i && b != i {
                        assert(entries@[a] == before.entries@[a]);
                        assert(entries@[b] == before.entries@[b]);
                    } else if a == i {
                        assert(entries@[b] == before.entries@[b]);
                    } else {
                        assert(entries@[a] == before.entries@[a]);
                    }
                }
                self.entries = entries;
                proof {
                    assert forall|a: Seq<char>| self@.dom().contains(a) == before@.insert(k, v).dom().contains(a) by {
                        if before.has_key(a) {
                            let j = before.index_of_key(a);
                            assert(self.entries@[j].0@ == a);
                        }
                        if self.has_key(a) {
                            let j = self.index_of_key(a);
                            if j != i {
                                assert(before.entries@[j].0@ == a);
                            }
                        }
                        if a == k {
                            assert(self.entries@[i as int].0@ == a);
                        }
                    }
                    assert forall|a: Seq<char>| self@.dom().contains(a) implies self@[a] == before@.insert(k, v)[a] by {
                        let j = self.index_of_key(a);
                        assert(self.entries@[j].0@ == a);
                        if a != k {
                            assert(before.has_key(a));
                            let j0 = before.index_of_key(a);
                            assert(before.entries@[i as int].0@ == k);
                            assert(j0 != i);
                            assert(self.entries@[j0].0@ == a);
                            assert(j == j0);
                        } else {
                            assert(self.entries@[i as int].0@ == a);
                            assert(j == i);
                        }
                    }
                    assert(self@ =~= before@.insert(k, v));
                }
            },
            None => {
                let ghost before = *self;
                let mut entries: Vec<(String, V)> = Vec::new();
                std::mem::swap(&mut entries, &mut self.entries);
                entries.push((key, value));
                assert forall|a: int, b: int|
                    0 <= a < entries@.len() && 0 <= b < entries@.len() && a != b
                        implies entries@[a].0@ != entries@[b].0@ by {
                    let n = before.entries@.len() as int;
                    if a != n && b != n {
                        assert(entries@[a] == before.entries@[a]);
                        assert(entries@[b] == before.entries@[b]);
                    } else if a == n {
                        assert(entries@[b] == before.entries@[b]);
                        assert(before.entries@[b].0@ == before.key_at(b));
                    } else {
                        assert(entries@[a] == before.entries@[a]);
                        assert(before.entries@[a].0@ == before.key_at(a));
                    }
                }
                self.entries = entries;
                proof {
                    let n = before.entries@.len() as int;
                    assert forall|a: Seq<char>| self@.dom().contains(a) == before@.insert(k, v).dom().contains(a) by {
                        if before.has_key(a) {
                            let j = before.index_of_key(a);
                            assert(self.entries@[j].0@ == a);
                        }
                        if self.has_key(a) {
                            let j = self.index_of_key(a);
                            if j != n {
                                assert(before.entries@[j].0@ == a);
                            }
                        }
                        if a == k {
                            assert(self.entries@[n].0@ == a);
                        }
                    }
                    assert forall|a: Seq<char>| self@.dom().contains(a) implies self@[a] == before@.insert(k, v)[a] by {
                        let j = self.index_of_key(a);
                        assert(self.entries@[j].0@ == a);
                        if a != k {
                            assert(before.has_key(a));
                            let j0 = before.index_of_key(a);
                            assert(self.entries@[j0].0@ == a);
                            assert(j == j0);
                        } else {
                            assert(self.entries@[n].0@ == a);
                            assert(j == n);
                        }
                    }
                    assert(self@ =~= before@.insert(k, v));
                }
            },
        }
    }

    /// The keys, in insertion order.
    pub fn keys(&self) -> (ks: Vec<&str>)
        ensures
            ks@.len() == self.spec_len(),
            forall|i: int| 0 <= i < ks@.len() ==> #[trigger] ks@[i]@ == self.key_at(i),
            forall|k: Seq<char>| self@.contains_key(k) <==> exists|i: int| 0 <= i < ks@.len() && ks@[i]@ == k,
    {
        let mut ks: Vec<&str> = Vec::new();
        let mut i: usize = 0;
        while i < self.entries.len()
            invariant
                i <= self.entries@.len(),
                ks@.len() == i,
                forall|j: int| 0 <= j < i ==> #[trigger] ks@[j]@ == self.entries@[j].0@,
            decreases self.entries.len() - i,
        {
            ks.push(self.entries[i].0.as_str());
            i += 1;
        }
        proof {
            assert forall|k: Seq<char>| self@.contains_key(k) implies exists|i: int| 0 <= i < ks@.len() && ks@[i]@ == k by {
                let i = self.index_of_key(k);
                assert(ks@[i]@ == k);
            }
            assert forall|k: Seq<char>| (exists|i: int| 0 <= i < ks@.len() && ks@[i]@ == k) implies self@.contains_key(k) by {
                let i = choose|i: int| 0 <= i < ks@.len() && ks@[i]@ == k;
                assert(self.entries@[i].0@ == k);
            }
        }
        ks
    }
}


impl<V: View> StrMap<V> {
    /// The entries in insertion order.
    pub fn entries(&self) -> (es: Vec<(&str, &V)>)
        ensures
            es@.len() == self.spec_len(),
            forall|i: int| 0 <= i < es@.len() ==> (#[trigger] es@[i]).0@ == self.key_at(i) && es@[i].1@ == self.value_at(i),
            forall|i: int| #![trigger self.key_at(i)] 0 <= i < es@.len() ==> self@.contains_key(self.key_at(i)) && self@[self.key_at(i)] == self.value_at(i),
            forall|k: Seq<char>| self@.contains_key(k) ==> exists|i: int| 0 <= i < es@.len() && self.key_at(i) == k,
    {
        proof { use_type_invariant(self); }
        let mut es: Vec<(&str, &V)> = Vec::new();
        let mut i: usize = 0;
        while i < self.entries.len()
            invariant
                i <= self.entries@.len(),
                es@.len() == i,
                forall|j: int| 0 <= j < i ==> (#[trigger] es@[j]).0@ == self.entries@[j].0@ && es@[j].1@ == self.entries@[j].1@,
            decreases self.entries.len() - i,
        {
            es.push((self.entries[i].0.as_str(), &self.entries[i].1));
            i += 1;
        }
        proof {
            assert forall|j: int| 0 <= j < es@.len() implies self@.contains_key(self.key_at(j)) && self@[self.key_at(j)] == self.value_at(j) by {
                let k = self.key_at(j);
                assert(self.has_key(k));
                let t = self.index_of_key(k);
                assert(t == j);
            }
            assert forall|k: Seq<char>| self@.contains_key(k) implies exists|i: int| 0 <= i < es@.len() && self.key_at(i) == k by {
                let t = self.index_of_key(k);
                assert(self.key_at(t) == k);
            }
        }
        es
    }
}

} // verus!
