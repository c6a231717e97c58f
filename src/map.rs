use crate::model::{
    after_insert, after_remove, has_key, index_of, key_eq, lemma_index_at, lemma_index_of,
    lemma_keys_after_push, lemma_keys_after_remove, lemma_keys_after_update, lookup,
};
use crate::MicroMap;
use vstd::prelude::*;
use vstd::std_specs::cmp::PartialEqSpec;

verus! {

impl<K: PartialEq, V, const N: usize> MicroMap<K, V, N> {
    /// Scans the occupied slots for `k` and returns the first slot that holds it.
    fn find(&self, k: &K) -> (r: Option<usize>)
        requires
            self.wf(),
            K::obeys_eq_spec(),
        ensures
            has_key(self@, *k) <==> r.is_some(),
            r.is_some() ==> r.unwrap() == index_of(self@, *k) && r.unwrap() < self@.len(),
            r.is_some() ==> key_eq(self@[r.unwrap() as int].0, *k),
    {
        proof {
            lemma_index_of(self@, *k);
        }
        let mut i: usize = 0;
        while i < self.pairs.len()
            invariant
                i <= self@.len(),
                forall|j: int| 0 <= j < i ==> !key_eq(self@[j].0, *k),
                K::obeys_eq_spec(),
            decreases self@.len() - i,
        {
            proof {
                lemma_index_of(self@, *k);
            }
            if self.pairs[i].0 == *k {
                return Some(i);
            }
            i = i + 1;
        }
        None
    }

    /// The number of occupied slots.
    pub fn len(&self) -> (r: usize)
        ensures
            r == self@.len(),
    {
        self.pairs.len()
    }

    /// Whether no slot is occupied.
    pub fn is_empty(&self) -> (r: bool)
        ensures
            r == (self@.len() == 0),
    {
        self.pairs.len() == 0
    }

    /// Whether some slot holds `k`.
    pub fn contains_key(&self, k: &K) -> (r: bool)
        requires
            self.wf(),
            K::obeys_eq_spec(),
        ensures
            r == has_key(self@, *k),
    {
        self.find(k).is_some()
    }

    /// The value stored under `k`, if any.
    pub fn get(&self, k: &K) -> (r: Option<&V>)
        requires
            self.wf(),
            K::obeys_eq_spec(),
        ensures
            match r {
                Some(v) => lookup(self@, *k) == Some(*v),
                None => lookup(self@, *k) is None,
            },
    {
        match self.find(k) {
            Some(i) => Some(&self.pairs[i].1),
            None => None,
        }
    }

    /// The value stored under `k`, borrowed mutably, if any. Whatever is written
    /// through the borrow lands in that slot; the key and the other slots stay.
    pub fn get_mut(&mut self, k: &K) -> (r: Option<&mut V>)
        requires
            old(self).wf(),
            K::obeys_eq_spec(),
        ensures
            match r {
                Some(v) => {
                    &&& lookup(old(self)@, *k) == Some(*v)
                    &&& final(self)@ == old(self)@.update(
                        index_of(old(self)@, *k),
                        (old(self)@[index_of(old(self)@, *k)].0, *final(v)),
                    )
                },
                None => {
                    &&& lookup(old(self)@, *k) is None
                    &&& final(self)@ == old(self)@
                },
            },
            final(self).wf(),
    {
        match self.find(k) {
            Some(i) => {
                proof {
                    lemma_keys_after_update(self@, i as int);
                }
                Some(&mut self.pairs[i].1)
            },
            None => None,
        }
    }

    /// Inserts `(k, v)` where the capacity allows it. A present key keeps its
    /// slot and its stored key, gets `v`, and the previous value comes back as
    /// `Ok(Some(_))`; a new key takes the next free slot and gives `Ok(None)`.
    /// A new key on a full map changes nothing and hands the pair back in `Err`.
    pub fn checked_insert(&mut self, k: K, v: V) -> (r: Result<Option<V>, (K, V)>)
        requires
            old(self).wf(),
            K::obeys_eq_spec(),
        ensures
            final(self).wf(),
            !has_key(old(self)@, k) && old(self)@.len() == N ==> {
                &&& r == Err::<Option<V>, (K, V)>((k, v))
                &&& final(self)@ == old(self)@
            },
            has_key(old(self)@, k) || old(self)@.len() < N ==> {
                &&& r == Ok::<Option<V>, (K, V)>(lookup(old(self)@, k))
                &&& final(self)@ == after_insert(old(self)@, k, v)
            },
    {
        match self.find(&k) {
            Some(i) => {
                proof {
                    lemma_keys_after_update(self@, i as int);
                }
                let mut v = v;
                std::mem::swap(&mut self.pairs[i].1, &mut v);
                Ok(Some(v))
            },
            None => {
                if self.pairs.len() < N {
                    proof {
                        lemma_keys_after_push(self@, k, v);
                    }
                    self.pairs.push((k, v));
                    Ok(None)
                } else {
                    Err((k, v))
                }
            },
        }
    }

    /// Inserts `(k, v)`: a present key keeps its slot and its stored key and gets
    /// `v`, and the previous value is returned; a new key takes the next free slot.
    ///
    /// A new key needs a free slot. Unverified callers that break this get a panic.
    pub fn insert(&mut self, k: K, v: V) -> (r: Option<V>)
        requires
            old(self).wf(),
            K::obeys_eq_spec(),
            has_key(old(self)@, k) || old(self)@.len() < N,
        ensures
            final(self).wf(),
            final(self)@ == after_insert(old(self)@, k, v),
            r == lookup(old(self)@, k),
    {
        match self.checked_insert(k, v) {
            Ok(r) => r,
            Err(_) => vstd::pervasive::unreached(),
        }
    }

    /// Removes `k` and returns its value; the later slots shift left by one.
    /// An absent key changes nothing and gives `None`.
    pub fn remove(&mut self, k: &K) -> (r: Option<V>)
        requires
            old(self).wf(),
            K::obeys_eq_spec(),
        ensures
            final(self).wf(),
            final(self)@ == after_remove(old(self)@, *k),
            r == lookup(old(self)@, *k),
    {
        match self.find(k) {
            Some(i) => {
                proof {
                    lemma_keys_after_remove(self@, i as int);
                }
                let (_, v) = self.pairs.remove(i);
                Some(v)
            },
            None => None,
        }
    }

    /// Drops every pair and leaves the map empty.
    pub fn clear(&mut self)
        requires
            old(self).wf(),
        ensures
            final(self).wf(),
            final(self)@ == Seq::<(K, V)>::empty(),
    {
        self.pairs.clear();
        assert(self@ =~= Seq::<(K, V)>::empty());
    }

    /// The value stored under `k`, borrowed mutably; where no stored key answers
    /// `k`, the pair of `k` and a value made by `make` first takes the next free
    /// slot. `make` is called only then.
    ///
    /// A new key needs a free slot. Unverified callers that break this get a panic.
    pub fn get_or_insert_with<F: FnOnce() -> V>(&mut self, k: K, make: F) -> (r: &mut V)
        requires
            old(self).wf(),
            K::obeys_eq_spec(),
            has_key(old(self)@, k) || old(self)@.len() < N,
            !has_key(old(self)@, k) ==> make.requires(()),
        ensures
            final(self).wf(),
            has_key(old(self)@, k) ==> {
                let i = index_of(old(self)@, k);
                &&& lookup(old(self)@, k) == Some(*r)
                &&& final(self)@ == old(self)@.update(i, (old(self)@[i].0, *final(r)))
            },
            !has_key(old(self)@, k) ==> {
                &&& make.ensures((), *r)
                &&& final(self)@ == old(self)@.push((k, *final(r)))
            },
    {
        let i = match self.find(&k) {
            Some(i) => i,
            None => {
                if self.pairs.len() >= N {
                    return vstd::pervasive::unreached();
                }
                let d = make();
                proof {
                    lemma_keys_after_push(self@, k, d);
                }
                self.pairs.push((k, d));
                self.pairs.len() - 1
            },
        };
        proof {
            lemma_keys_after_update(self@, i as int);
            lemma_index_of(old(self)@, k);
        }
        &mut self.pairs[i].1
    }
}

} // verus!
