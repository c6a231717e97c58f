use crate::MicroMap;
use vstd::prelude::*;

verus! {

impl<K: PartialEq, V, const N: usize> Default for MicroMap<K, V, N> {
    /// An empty map.
    fn default() -> (r: Self)
        ensures
            r@ == Seq::<(K, V)>::empty(),
            r.wf(),
    {
        Self::new()
    }
}

impl<K: PartialEq, V, const N: usize> MicroMap<K, V, N> {
    /// An empty map with room for `N` pairs; no key or value is constructed.
    pub fn new() -> (r: Self)
        ensures
            r@ == Seq::<(K, V)>::empty(),
            r.wf(),
    {
        MicroMap { pairs: Vec::with_capacity(N) }
    }

    /// The number of slots, `N`.
    pub fn capacity(&self) -> (r: usize)
        ensures
            r == N,
    {
        N
    }
}

} // verus!
