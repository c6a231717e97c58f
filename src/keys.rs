use crate::model::keys_of;
use crate::{IntoKeys, Keys, MicroMap};
use vstd::prelude::*;

verus! {

impl<'a, K: PartialEq, V, const N: usize> Keys<'a, K, V, N> {
    /// The keys still to come, in slot order.
    pub closed spec fn remaining(self) -> Seq<K> {
        keys_of(self.iter.remaining())
    }

    /// The key of the next slot, if any is left.
    pub fn next(&mut self) -> (r: Option<&'a K>)
        ensures
            match r {
                Some(k) => {
                    &&& old(self).remaining().len() > 0
                    &&& *k == old(self).remaining()[0]
                    &&& final(self).remaining() == old(self).remaining().drop_first()
                },
                None => {
                    &&& old(self).remaining().len() == 0
                    &&& final(self).remaining() == old(self).remaining()
                },
            },
    {
        match self.iter.next() {
            Some((k, _)) => {
                assert(self.remaining() =~= old(self).remaining().drop_first());
                Some(k)
            },
            None => None,
        }
    }
}

impl<K: PartialEq, V, const N: usize> IntoKeys<K, V, N> {
    /// The keys still to come, in slot order.
    pub closed spec fn remaining(self) -> Seq<K> {
        keys_of(self.iter.remaining())
    }

    /// Moves the key of the next slot out, if any is left; its value is dropped.
    pub fn next(&mut self) -> (r: Option<K>)
        ensures
            match r {
                Some(k) => {
                    &&& old(self).remaining().len() > 0
                    &&& k == old(self).remaining()[0]
                    &&& final(self).remaining() == old(self).remaining().drop_first()
                },
                None => {
                    &&& old(self).remaining().len() == 0
                    &&& final(self).remaining() == old(self).remaining()
                },
            },
    {
        match self.iter.next() {
            Some((k, _)) => {
                assert(self.remaining() =~= old(self).remaining().drop_first());
                Some(k)
            },
            None => None,
        }
    }
}

impl<K: PartialEq, V, const N: usize> MicroMap<K, V, N> {
    /// An iterator over the keys, in slot order.
    pub fn keys(&self) -> (r: Keys<'_, K, V, N>)
        ensures
            r.remaining() == keys_of(self@),
    {
        Keys { iter: self.iter() }
    }

    /// A consuming iterator over the keys, in slot order.
    pub fn into_keys(self) -> (r: IntoKeys<K, V, N>)
        ensures
            r.remaining() == keys_of(self@),
    {
        IntoKeys { iter: self.into_iter() }
    }
}

} // verus!
