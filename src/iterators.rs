use crate::{IntoIter, Iter, IterMut, MicroMap};
use vstd::prelude::*;

verus! {

impl<'a, K: PartialEq, V, const N: usize> Iter<'a, K, V, N> {
    /// The next slot never lies past the occupied ones.
    #[verifier::type_invariant]
    closed spec fn inv(self) -> bool {
        self.pos <= self.map@.len()
    }

    /// The pairs still to come, in slot order.
    pub closed spec fn remaining(self) -> Seq<(K, V)> {
        self.map@.subrange(self.pos as int, self.map@.len() as int)
    }

    /// The pair of the next slot, if any is left.
    pub fn next(&mut self) -> (r: Option<(&'a K, &'a V)>)
        ensures
            match r {
                Some((k, v)) => {
                    &&& old(self).remaining().len() > 0
                    &&& (*k, *v) == old(self).remaining()[0]
                    &&& final(self).remaining() == old(self).remaining().drop_first()
                },
                None => {
                    &&& old(self).remaining().len() == 0
                    &&& final(self).remaining() == old(self).remaining()
                },
            },
    {
        proof {
            use_type_invariant(&*self);
        }
        let m: &'a MicroMap<K, V, N> = self.map;
        if self.pos < m.pairs.len() {
            let p = &m.pairs[self.pos];
            self.pos = self.pos + 1;
            assert(self.remaining() =~= old(self).remaining().drop_first());
            Some((&p.0, &p.1))
        } else {
            None
        }
    }
}

impl<'a, K: PartialEq, V, const N: usize> IterMut<'a, K, V, N> {
    /// The next slot never lies past the occupied ones.
    #[verifier::type_invariant]
    closed spec fn inv(self) -> bool {
        self.pos <= self.map@.len()
    }

    /// The pairs already lent out, as they stand now, in slot order.
    pub closed spec fn visited(self) -> Seq<(K, V)> {
        self.map@.subrange(0, self.pos as int)
    }

    /// The pairs still to come, in slot order.
    pub closed spec fn remaining(self) -> Seq<(K, V)> {
        self.map@.subrange(self.pos as int, self.map@.len() as int)
    }

    /// Lends the key and the value of the next slot, if any is left. What is
    /// written through the value lands in that slot.
    pub fn next(&mut self) -> (r: Option<(&K, &mut V)>)
        ensures
            match r {
                Some((k, v)) => {
                    &&& old(self).remaining().len() > 0
                    &&& (*k, *v) == old(self).remaining()[0]
                    &&& final(self).visited() == old(self).visited().push((*k, *final(v)))
                    &&& final(self).remaining() == old(self).remaining().drop_first()
                },
                None => {
                    &&& old(self).remaining().len() == 0
                    &&& final(self).visited() == old(self).visited()
                    &&& final(self).remaining() == old(self).remaining()
                },
            },
    {
        proof {
            use_type_invariant(&*self);
        }
        if self.pos < self.map.pairs.len() {
            let i = self.pos;
            self.pos = i + 1;
            let p = &mut self.map.pairs[i];
            Some((&p.0, &mut p.1))
        } else {
            None
        }
    }
}

impl<K: PartialEq, V, const N: usize> IntoIter<K, V, N> {
    /// The pairs still to come, in slot order.
    pub closed spec fn remaining(self) -> Seq<(K, V)> {
        self.map@
    }

    /// Moves the pair of the next slot out, if any is left.
    pub fn next(&mut self) -> (r: Option<(K, V)>)
        ensures
            match r {
                Some(p) => {
                    &&& old(self).remaining().len() > 0
                    &&& p == old(self).remaining()[0]
                    &&& final(self).remaining() == old(self).remaining().drop_first()
                },
                None => {
                    &&& old(self).remaining().len() == 0
                    &&& final(self).remaining() == old(self).remaining()
                },
            },
    {
        if self.map.pairs.len() > 0 {
            let p = self.map.pairs.remove(0);
            assert(self.remaining() =~= old(self).remaining().drop_first());
            Some(p)
        } else {
            None
        }
    }
}

impl<K: PartialEq, V, const N: usize> MicroMap<K, V, N> {
    /// A borrowing iterator over all pairs, in slot order.
    pub fn iter(&self) -> (r: Iter<'_, K, V, N>)
        ensures
            r.remaining() == self@,
    {
        let r = Iter { map: self, pos: 0 };
        assert(r.remaining() =~= self@);
        r
    }

    /// A mutable iterator over all pairs, in slot order.
    pub fn iter_mut(&mut self) -> (r: IterMut<'_, K, V, N>)
        ensures
            r.visited() == Seq::<(K, V)>::empty(),
            r.remaining() == old(self)@,
    {
        let r = IterMut { map: self, pos: 0 };
        assert(r.remaining() =~= old(self)@);
        assert(r.visited() =~= Seq::<(K, V)>::empty());
        r
    }

    /// A consuming iterator over all pairs, in slot order.
    pub fn into_iter(self) -> (r: IntoIter<K, V, N>)
        ensures
            r.remaining() == self@,
    {
        IntoIter { map: self }
    }
}

} // verus!
