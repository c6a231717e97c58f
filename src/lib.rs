//! A small associative container that keeps its key-value pairs in a single
//! block of at most `N` slots and finds keys by a linear scan, with no hashing.
//! Suited to small maps (a few dozen entries) where a scan is cheaper than a hash.
//!
//! The occupied slots are always `[0, len)`, in insertion order up to the
//! compaction that `remove` performs. No two stored keys are `==`. Inserting a new
//! key into a full map is a caller error: verified callers must prove it cannot
//! happen, and unverified callers get a panic.
mod ctors;
mod iterators;
mod keys;
mod laws;
mod values;
mod map;
mod model;

pub use laws::{
    lemma_insert_present, lemma_inserts_keep_last, lemma_iteration, lemma_lookup_after_insert,
    lemma_lookup_after_remove, lemma_remove_absent, lemma_remove_then_insert, lemma_round_trip,
};
pub use model::{
    after_insert, after_remove, has_key, index_of, insert_all, key_eq, keys_distinct, keys_of,
    lemma_index_at, lemma_index_of, lookup, values_of,
};

use vstd::prelude::*;

verus! {

/// A map of at most `N` key-value pairs, kept in slot order and searched linearly.
///
/// The `N` slots are reserved on the heap, in one allocation, when the map is
/// made; the storage never grows or moves after that, and only occupied slots
/// hold a constructed pair.
///
/// Keys are compared with their own `==`, which need not mean that two keys are
/// identical: a stored key answers a search for every key it is `==` to, and an
/// insert under such a key keeps the stored key and replaces only the value.
pub struct MicroMap<K: PartialEq, V, const N: usize> {
    /// The occupied slots, in order; never longer than `N`.
    pairs: Vec<(K, V)>,
}

/// Borrowing iterator over the pairs of a [`MicroMap`], in slot order.
pub struct Iter<'a, K: PartialEq, V, const N: usize> {
    /// The map being walked.
    map: &'a MicroMap<K, V, N>,
    /// The next slot to read.
    pos: usize,
}

/// Mutable iterator over the pairs of a [`MicroMap`], in slot order: each step
/// lends the key and a mutable borrow of the value of the next slot.
pub struct IterMut<'a, K: PartialEq, V, const N: usize> {
    /// The map being walked.
    map: &'a mut MicroMap<K, V, N>,
    /// The next slot to read.
    pos: usize,
}

/// Consuming iterator over the pairs of a [`MicroMap`], in slot order. Pairs
/// not taken out are dropped with the iterator.
pub struct IntoIter<K: PartialEq, V, const N: usize> {
    /// The map whose pairs are still to come, first slot first.
    map: MicroMap<K, V, N>,
}

/// Iterator over the values of a [`MicroMap`].
pub struct Values<'a, K: PartialEq, V, const N: usize> {
    iter: Iter<'a, K, V, N>,
}

/// Mutable iterator over the values of a [`MicroMap`].
pub struct ValuesMut<'a, K: PartialEq, V, const N: usize> {
    iter: IterMut<'a, K, V, N>,
}

/// Consuming iterator over the values of a [`MicroMap`].
pub struct IntoValues<K: PartialEq, V, const N: usize> {
    iter: IntoIter<K, V, N>,
}

/// Iterator over the keys of a [`MicroMap`].
pub struct Keys<'a, K: PartialEq, V, const N: usize> {
    iter: Iter<'a, K, V, N>,
}

/// Consuming iterator over the keys of a [`MicroMap`].
pub struct IntoKeys<K: PartialEq, V, const N: usize> {
    iter: IntoIter<K, V, N>,
}

impl<K: PartialEq, V, const N: usize> View for MicroMap<K, V, N> {
    type V = Seq<(K, V)>;

    /// The occupied slots, in slot order.
    closed spec fn view(&self) -> Seq<(K, V)> {
        self.pairs@
    }
}

impl<K: PartialEq, V, const N: usize> MicroMap<K, V, N> {
    /// At most `N` slots are occupied, and no stored key answers a search for
    /// a key stored after it.
    pub open spec fn wf(self) -> bool {
        &&& self@.len() <= N
        &&& keys_distinct(self@)
    }
}

} // verus!
