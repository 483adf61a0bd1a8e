//! A map keyed by 256-bit hashes, kept as two parallel vectors.

use vstd::prelude::*;
use crate::types::Hash256;

verus! {

/// Map from hashes to values. No key is held twice.
#[derive(Debug)]
pub struct HashTable<V> {
    keys: Vec<Hash256>,
    vals: Vec<V>,
}

impl<V> View for HashTable<V> {
    type V = Map<Hash256, V>;

    closed spec fn view(&self) -> Map<Hash256, V> {
        Map::new(
            |k: Hash256| self.keys@.contains(k),
            |k: Hash256| self.vals@[self.keys@.index_of(k)],
        )
    }
}

impl<V> HashTable<V> {
    /// The representation invariant: one value per key, no key twice.
    pub closed spec fn wf(&self) -> bool {
        &&& self.keys@.len() == self.vals@.len()
        &&& self.keys@.no_duplicates()
    }

    proof fn lemma_index(&self, i: int)
        requires
            self.wf(),
            0 <= i < self.keys@.len(),
        ensures
            self.keys@.contains(self.keys@[i]),
            self.keys@.index_of(self.keys@[i]) == i,
            self@.contains_key(self.keys@[i]),
            self@[self.keys@[i]] == self.vals@[i],
    {
        let k = self.keys@[i];
        assert(self.keys@.contains(k));
        let j = self.keys@.index_of(k);
        assert(0 <= j < self.keys@.len() && self.keys@[j] == k);
    }

    pub fn new() -> (t: Self)
        ensures
            t.wf(),
            t@ == Map::<Hash256, V>::empty(),
    {
        let t = HashTable { keys: Vec::new(), vals: Vec::new() };
        assert(t@ =~= Map::<Hash256, V>::empty());
        t
    }

    fn find(&self, key: Hash256) -> (r: Option<usize>)
        requires
            self.wf(),
        ensures
            match r {
                Some(i) => i < self.keys@.len() && self.keys@[i as int] == key,
                None => !self.keys@.contains(key),
            },
    {
        let mut i: usize = 0;
        while i < self.keys.len()
            invariant
                i <= self.keys@.len(),
                forall|j: int| 0 <= j < i ==> self.keys@[j] != key,
            decreases self.keys@.len() - i,
        {
            if self.keys[i] == key {
                return Some(i);
            }
            i = i + 1;
        }
        None
    }

    pub fn contains_key(&self, key: Hash256) -> (b: bool)
        requires
            self.wf(),
        ensures
            b == self@.contains_key(key),
    {
        self.find(key).is_some()
    }

    pub fn get(&self, key: Hash256) -> (r: Option<&V>)
        requires
            self.wf(),
        ensures
            match r {
                Some(v) => self@.contains_key(key) && *v == self@[key],
                None => !self@.contains_key(key),
            },
    {
        match self.find(key) {
            Some(i) => {
                proof {
                    self.lemma_index(i as int);
                }
                Some(&self.vals[i])
            },
            None => None,
        }
    }

    /// Binds `key` to `value`, replacing an earlier binding of `key`.
    pub fn insert(&mut self, key: Hash256, value: V)
        requires
            old(self).wf(),
        ensures
            final(self).wf(),
            final(self)@ == old(self)@.insert(key, value),
    {
        match self.find(key) {
            Some(i) => {
                self.vals.set(i, value);
                proof {
                    assert forall|k: Hash256| final(self)@.contains_key(k) implies #[trigger] final(self)@[k] == old(self)@.insert(key, value)[k] by {
                        let j = self.keys@.index_of(k);
                        assert(0 <= j < self.keys@.len() && self.keys@[j] == k);
                    }
                    assert(self.keys@.contains(key));
                    assert(final(self)@ =~= old(self)@.insert(key, value));
                }
            },
            None => {
                self.keys.push(key);
                self.vals.push(value);
                proof {
                    let n = old(self).keys@.len() as int;
                    assert(self.keys@[n] == key);
                    assert forall|k: Hash256| old(self).keys@.contains(k) implies self.keys@.contains(k) by {
                        let j = old(self).keys@.index_of(k);
                        assert(self.keys@[j] == k);
                    }
                    assert forall|k: Hash256| final(self)@.contains_key(k) implies #[trigger] final(self)@[k] == old(self)@.insert(key, value)[k] by {
                        let j = self.keys@.index_of(k);
                        assert(0 <= j < self.keys@.len() && self.keys@[j] == k);
                        if j < n {
                            old(self).lemma_index(j);
                        }
                    }
                    assert(final(self)@ =~= old(self)@.insert(key, value));
                }
            },
        }
    }

    /// Drops the binding of `key`, if there is one, and hands its value out.
    pub fn remove(&mut self, key: Hash256) -> (r: Option<V>)
        requires
            old(self).wf(),
        ensures
            final(self).wf(),
            final(self)@ == old(self)@.remove(key),
            old(self)@.contains_key(key) ==> r == Some(old(self)@[key]),
            !old(self)@.contains_key(key) ==> r is None,
    {
        match self.find(key) {
            Some(i) => {
                proof {
                    old(self).lemma_index(i as int);
                }
                let _k = self.keys.remove(i);
                let v = self.vals.remove(i);
                proof {
                    assert forall|k: Hash256| old(self).keys@.contains(k) && k != key implies self.keys@.contains(
                        k,
                    ) by {
                        let j = old(self).keys@.index_of(k);
                        if j < i {
                            assert(self.keys@[j] == k);
                        } else {
                            assert(self.keys@[j - 1] == k);
                        }
                    }
                    assert forall|k: Hash256| final(self)@.contains_key(k) implies #[trigger] final(self)@[k] == old(self)@.remove(key)[k] && k != key by {
                        let j = self.keys@.index_of(k);
                        assert(0 <= j < self.keys@.len() && self.keys@[j] == k);
                        if j < i {
                            old(self).lemma_index(j);
                        } else {
                            old(self).lemma_index(j + 1);
                        }
                    }
                    assert(final(self)@ =~= old(self)@.remove(key));
                }
                Some(v)
            },
            None => {
                assert(final(self)@ =~= old(self)@.remove(key));
                None
            },
        }
    }
}

} // verus!
