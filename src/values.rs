use crate::model::values_of;
use crate::{IntoValues, MicroMap, Values, ValuesMut};
use vstd::prelude::*;

verus! {

impl<'a, K: PartialEq, V, const N: usize> Values<'a, K, V, N> {
    /// The values still to come, in slot order.
    pub closed spec fn remaining(self) -> Seq<V> {
        values_of(self.iter.remaining())
    }

    /// The value of the next slot, if any is left.
    pub fn next(&mut self) -> (r: Option<&'a V>)
        ensures
            match r {
                Some(v) => {
                    &&& old(self).remaining().len() > 0
                    &&& *v == old(self).remaining()[0]
                    &&& final(self).remaining() == old(self).remaining().drop_first()
                },
                None => {
                    &&& old(self).remaining().len() == 0
                    &&& final(self).remaining() == old(self).remaining()
                },
            },
    {
        match self.iter.next() {
            Some((_, v)) => {
                assert(self.remaining() =~= old(self).remaining().drop_first());
                Some(v)
            },
            None => None,
        }
    }
}

impl<'a, K: PartialEq, V, const N: usize> ValuesMut<'a, K, V, N> {
    /// The values already lent out, as they stand now, in slot order.
    pub closed spec fn visited(self) -> Seq<V> {
        values_of(self.iter.visited())
    }

    /// The values still to come, in slot order.
    pub closed spec fn remaining(self) -> Seq<V> {
        values_of(self.iter.remaining())
    }

    /// Lends the value of the next slot, if any is left. What is written
    /// through it lands in that slot.
    pub fn next(&mut self) -> (r: Option<&mut V>)
        ensures
            match r {
                Some(v) => {
                    &&& old(self).remaining().len() > 0
                    &&& *v == old(self).remaining()[0]
                    &&& final(self).visited() == old(self).visited().push(*final(v))
                    &&& final(self).remaining() == old(self).remaining().drop_first()
                },
                None => {
                    &&& old(self).remaining().len() == 0
                    &&& final(self).visited() == old(self).visited()
                    &&& final(self).remaining() == old(self).remaining()
                },
            },
    {
        match self.iter.next() {
            Some((_, v)) => Some(v),
            None => None,
        }
    }
}

impl<K: PartialEq, V, const N: usize> IntoValues<K, V, N> {
    /// The values still to come, in slot order.
    pub closed spec fn remaining(self) -> Seq<V> {
        values_of(self.iter.remaining())
    }

    /// Moves the value of the next slot out, if any is left; its key is dropped.
    pub fn next(&mut self) -> (r: Option<V>)
        ensures
            match r {
                Some(v) => {
                    &&& old(self).remaining().len() > 0
                    &&& v == old(self).remaining()[0]
                    &&& final(self).remaining() == old(self).remaining().drop_first()
                },
                None => {
                    &&& old(self).remaining().len() == 0
                    &&& final(self).remaining() == old(self).remaining()
                },
            },
    {
        match self.iter.next() {
            Some((_, v)) => {
                assert(self.remaining() =~= old(self).remaining().drop_first());
                Some(v)
            },
            None => None,
        }
    }
}

impl<K: PartialEq, V, const N: usize> MicroMap<K, V, N> {
    /// An iterator over the values, in slot order.
    pub fn values(&self) -> (r: Values<'_, K, V, N>)
        ensures
            r.remaining() == values_of(self@),
    {
        Values { iter: self.iter() }
    }

    /// A mutable iterator over the values, in slot order.
    pub fn values_mut(&mut self) -> (r: ValuesMut<'_, K, V, N>)
        ensures
            r.visited() == Seq::<V>::empty(),
            r.remaining() == values_of(old(self)@),
    {
        ValuesMut { iter: self.iter_mut() }
    }

    /// A consuming iterator over the values, in slot order.
    pub fn into_values(self) -> (r: IntoValues<K, V, N>)
        ensures
            r.remaining() == values_of(self@),
    {
        IntoValues { iter: self.into_iter() }
    }
}

} // verus!
