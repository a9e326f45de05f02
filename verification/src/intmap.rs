//! A small map keyed by `i64`, kept in insertion order.
use vstd::prelude::*;

verus! {

/// Map from `i64` keys to values; keys are unique and kept in insertion order.
pub struct IntMap<V> {
    entries: Vec<(i64, V)>,
}

pub open spec fn keys_of<V>(s: Seq<(i64, V)>) -> Seq<i64> {
    s.map_values(|e: (i64, V)| e.0)
}

impl<V> IntMap<V> {
    #[verifier::type_invariant]
    closed spec fn inv(&self) -> bool {
        keys_of(self.entries@).no_duplicates()
    }

    /// The keys in insertion order.
    pub closed spec fn key_seq(&self) -> Seq<i64> {
        keys_of(self.entries@)
    }

    pub closed spec fn view(&self) -> Map<i64, V> {
        Map::new(
            |k: i64| keys_of(self.entries@).contains(k),
            |k: i64| self.entries@[keys_of(self.entries@).index_of(k)].1,
        )
    }

    pub fn new() -> (m: Self)
        ensures
            m.view() == Map::<i64, V>::empty(),
            m.key_seq() == Seq::<i64>::empty(),
    {
        let m = IntMap { entries: Vec::new() };
        assert(m.view() =~= Map::<i64, V>::empty());
        assert(m.key_seq() =~= Seq::<i64>::empty());
        m
    }

    fn find(&self, k: i64) -> (r: Option<usize>)
        ensures
            r matches Some(i) ==> i < self.entries@.len() && self.entries@[i as int].0 == k
                && keys_of(self.entries@).index_of(k) == i && keys_of(self.entries@).contains(k),
            r is None ==> !keys_of(self.entries@).contains(k),
    {
        proof { use_type_invariant(self); }
        let ghost ks = keys_of(self.entries@);
        let mut i: usize = 0;
        while i < self.entries.len()
            invariant
                i <= self.entries@.len(),
                ks == keys_of(self.entries@),
                ks.no_duplicates(),
                forall|j: int| 0 <= j < i ==> self.entries@[j].0 != k,
            decreases self.entries.len() - i,
        {
            if self.entries[i].0 == k {
                proof {
                    assert(ks[i as int] == k);
                    assert(ks.contains(k));
                    let j = ks.index_of(k);
                    assert(ks[j] == k);
                }
                return Some(i);
            }
            i += 1;
        }
        proof {
            assert forall|j: int| 0 <= j < ks.len() implies ks[j] != k by {
                assert(ks[j] == self.entries@[j].0);
            }
        }
        None
    }

    pub fn get(&self, k: i64) -> (r: Option<&V>)
        ensures
            match r {
                Some(v) => self.view().contains_key(k) && self.view()[k] == *v,
                None => !self.view().contains_key(k),
            },
    {
        match self.find(k) {
            Some(i) => Some(&self.entries[i].1),
            None => None,
        }
    }

    pub fn contains_key(&self, k: i64) -> (b: bool)
        ensures
            b == self.view().contains_key(k),
    {
        self.find(k).is_some()
    }

    pub fn len(&self) -> (n: usize)
        ensures
            n == self.key_seq().len(),
    {
        self.entries.len()
    }

    /// Inserts or replaces; a new key goes to the end of the order.
    pub fn insert(&mut self, k: i64, v: V)
        ensures
            final(self).view() == old(self).view().insert(k, v),
            old(self).key_seq().contains(k) ==> final(self).key_seq() == old(self).key_seq(),
            !old(self).key_seq().contains(k) ==> final(self).key_seq() == old(self).key_seq().push(k),
    {
        proof { use_type_invariant(&*self); }
        let ghost old_e = self.entries@;
        let ghost old_keys = keys_of(self.entries@);
        let ghost old_view = self.view();
        match self.find(k) {
            Some(i) => {
                let mut es: Vec<(i64, V)> = Vec::new();
                std::mem::swap(&mut es, &mut self.entries);
                es.set(i, (k, v));
                assert(keys_of(es@) =~= old_keys);
                self.entries = es;
                proof {
                    assert(keys_of(self.entries@) == old_keys);
                    assert forall|a: i64| self.view().contains_key(a) == old_view.insert(k, v).contains_key(a) by {
                        if a == k {
                            assert(old_keys.contains(k));
                        }
                    }
                    assert forall|a: i64| self.view().contains_key(a) implies self.view()[a] == old_view.insert(k, v)[a] by {
                        let j = old_keys.index_of(a);
                        if a != k {
                            assert(old_keys[j] == a);
                            assert(old_keys[i as int] == k);
                            assert(j != i);
                            assert(self.entries@[j] == old_e[j]);
                            assert(old_view[a] == old_e[j].1);
                        } else {
                            assert(j == i);
                            assert(self.entries@[j] == (k, v));
                        }
                    }
                    assert(self.view() =~= old_view.insert(k, v));
                }
            },
            None => {
                let mut es: Vec<(i64, V)> = Vec::new();
                std::mem::swap(&mut es, &mut self.entries);
                es.push((k, v));
                let ghost nk = keys_of(es@);
                assert(nk =~= old_keys.push(k));
                proof {
                    assert forall|a: int, b: int| 0 <= a < nk.len() && 0 <= b < nk.len() && a != b
                        implies nk[a] != nk[b] by {
                        if a < old_keys.len() && b < old_keys.len() {
                        } else if a < old_keys.len() {
                            assert(old_keys.contains(old_keys[a]));
                        } else {
                            assert(old_keys.contains(old_keys[b]));
                        }
                    }
                }
                self.entries = es;
                assert(self.key_seq() == old_keys.push(k));
                proof {
                    let n = old_keys.len() as int;
                    assert forall|a: i64| self.view().contains_key(a) == old_view.insert(k, v).contains_key(a) by {
                        if old_keys.contains(a) {
                            let j = old_keys.index_of(a);
                            assert(nk[j] == a);
                        }
                        if nk.contains(a) && a != k {
                            let j = nk.index_of(a);
                            assert(j != n);
                            assert(old_keys[j] == a);
                        }
                        if a == k {
                            assert(nk[n] == k);
                        }
                    }
                    assert forall|a: i64| self.view().contains_key(a) implies self.view()[a] == old_view.insert(k, v)[a] by {
                        let j = nk.index_of(a);
                        assert(nk[j] == a);
                        if a != k {
                            let j0 = old_keys.index_of(a);
                            assert(old_keys[j0] == a);
                            assert(nk[j0] == a);
                            assert(j == j0);
                            assert(self.entries@[j0] == old_e[j0]);
                        } else {
                            assert(nk[n] == k);
                            assert(j == n);
                        }
                    }
                    assert(self.view() =~= old_view.insert(k, v));
                }
            },
        }
    }

    /// The keys in insertion order.
    pub fn keys(&self) -> (ks: Vec<i64>)
        ensures
            ks@ == self.key_seq(),
            ks@.no_duplicates(),
            forall|k: i64| self.view().contains_key(k) <==> ks@.contains(k),
            self.view().dom().finite(),
            self.view().dom().len() == ks@.len(),
    {
        proof {
            use_type_invariant(self);
            assert(self.view().dom() =~= keys_of(self.entries@).to_set());
            keys_of(self.entries@).unique_seq_to_set();
        }
        let mut ks: Vec<i64> = Vec::new();
        let mut i: usize = 0;
        while i < self.entries.len()
            invariant
                i <= self.entries@.len(),
                ks@ =~= keys_of(self.entries@).take(i as int),
            decreases self.entries.len() - i,
        {
            ks.push(self.entries[i].0);
            i += 1;
        }
        assert(keys_of(self.entries@).take(self.entries@.len() as int) =~= keys_of(self.entries@));
        ks
    }
}

} // verus!
