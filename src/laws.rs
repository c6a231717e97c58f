use crate::model::{
    after_insert, after_remove, has_key, index_of, insert_all, key_eq, keys_distinct,
    lemma_index_at, lemma_index_of, lemma_keys_after_push, lemma_keys_after_remove,
    lemma_keys_after_update, lookup,
};
use vstd::laws_eq::{obeys_eq, obeys_eq_spec_properties};
use vstd::prelude::*;
use vstd::std_specs::cmp::PartialEqSpec;

verus! {

/// Where the key type's `==` is symmetric and transitive, a slot that answers
/// a search for `x` answers it for every key equal to `x`.
proof fn lemma_eq_laws<K: PartialEq>()
    requires
        obeys_eq::<K>(),
    ensures
        forall|x: K, y: K| #[trigger] key_eq(x, y) ==> key_eq(y, x),
        forall|x: K, y: K, z: K| #[trigger] key_eq(x, y) && #[trigger] key_eq(y, z) ==> key_eq(x, z),
{
    reveal(obeys_eq_spec_properties);
}

/// After an insert, a search for any key equal to `k` finds the new value, every
/// other search finds what it found before, and the keys stay distinct.
pub proof fn lemma_lookup_after_insert<K: PartialEq, V>(s: Seq<(K, V)>, k: K, v: V)
    requires
        obeys_eq::<K>(),
        keys_distinct(s),
    ensures
        keys_distinct(after_insert(s, k, v)),
        after_insert(s, k, v).len() == s.len() + if has_key(s, k) { 0int } else { 1int },
        forall|x: K|
            #[trigger] lookup(after_insert(s, k, v), x) == if key_eq(k, x) {
                Some(v)
            } else {
                lookup(s, x)
            },
        forall|x: K| #[trigger] has_key(after_insert(s, k, v), x) <==> has_key(s, x) || key_eq(k, x),
{
    lemma_eq_laws::<K>();
    let t = after_insert(s, k, v);
    lemma_index_of(s, k);
    let i = index_of(s, k);
    if has_key(s, k) {
        lemma_keys_after_update(s, i);
        assert(keys_distinct(t));
        assert forall|x: K| key_eq(k, x) implies has_key(s, x) && index_of(s, x) == i by {
            assert(key_eq(s[i].0, x));
            assert forall|j: int| 0 <= j < i implies !key_eq(s[j].0, x) by {
                if key_eq(s[j].0, x) {
                    assert(key_eq(x, k));
                    assert(key_eq(s[j].0, k));
                }
            }
            lemma_index_at(s, x, i);
        }
        assert forall|x: K| !key_eq(k, x) && has_key(s, x) implies index_of(s, x) != i by {
            lemma_index_of(s, x);
            if index_of(s, x) == i {
                assert(key_eq(k, s[i].0));
                assert(key_eq(k, x));
            }
        }
        assert forall|x: K| #[trigger] has_key(t, x) <==> has_key(s, x) || key_eq(k, x) by {
            assert(has_key(t, x) == has_key(s, x));
        }
        assert forall|x: K|
            #[trigger] lookup(t, x) == if key_eq(k, x) {
                Some(v)
            } else {
                lookup(s, x)
            } by {
            assert(has_key(t, x) == has_key(s, x));
            assert(index_of(t, x) == index_of(s, x));
            lemma_index_of(s, x);
        }
    } else {
        lemma_keys_after_push(s, k, v);
        assert forall|x: K| key_eq(k, x) implies !has_key(s, x) by {
            if has_key(s, x) {
                lemma_index_of(s, x);
                let p = index_of(s, x);
                assert(key_eq(x, k));
                assert(key_eq(s[p].0, k));
            }
        }
        assert forall|x: K|
            #[trigger] lookup(t, x) == if key_eq(k, x) {
                Some(v)
            } else {
                lookup(s, x)
            } by {
            lemma_index_of(s, x);
            if has_key(s, x) {
                assert(t[index_of(s, x)] == s[index_of(s, x)]);
            }
        }
    }
}

/// After a remove, no search for a key equal to `k` finds anything, every other
/// search finds what it found before, and the keys stay distinct.
pub proof fn lemma_lookup_after_remove<K: PartialEq, V>(s: Seq<(K, V)>, k: K)
    requires
        obeys_eq::<K>(),
        keys_distinct(s),
    ensures
        keys_distinct(after_remove(s, k)),
        after_remove(s, k).len() == s.len() - if has_key(s, k) { 1int } else { 0int },
        forall|x: K|
            #[trigger] lookup(after_remove(s, k), x) == if key_eq(k, x) {
                None
            } else {
                lookup(s, x)
            },
        forall|x: K| #[trigger] has_key(after_remove(s, k), x) <==> has_key(s, x) && !key_eq(k, x),
{
    lemma_eq_laws::<K>();
    let t = after_remove(s, k);
    lemma_index_of(s, k);
    let i = index_of(s, k);
    assert forall|x: K| key_eq(k, x) implies !has_key(t, x) by {
        if has_key(t, x) {
            let q = choose|q: int| 0 <= q < t.len() && #[trigger] key_eq(t[q].0, x);
            assert(key_eq(x, k));
            if has_key(s, k) {
                let q2 = if q < i { q } else { q + 1 };
                assert(t[q] == s[q2]);
                assert(key_eq(s[q2].0, k));
                assert(key_eq(k, s[i].0));
                assert(key_eq(s[q2].0, s[i].0));
                assert(key_eq(s[i].0, s[q2].0));
            } else {
                assert(key_eq(t[q].0, k));
            }
        }
    }
    assert forall|x: K| !key_eq(k, x) && has_key(s, x) implies has_key(t, x) && lookup(t, x)
        == lookup(s, x) by {
        lemma_index_of(s, x);
        let p = index_of(s, x);
        if has_key(s, k) {
            lemma_keys_after_remove(s, i);
            if p == i {
                assert(key_eq(k, s[i].0));
            }
            let p2 = if p < i { p } else { p - 1 };
            assert(t[p2] == s[p]);
            assert forall|j: int| 0 <= j < p2 implies !key_eq(t[j].0, x) by {
                let j2 = if j < i { j } else { j + 1 };
                assert(t[j] == s[j2]);
            }
            lemma_index_at(t, x, p2);
        }
    }
    assert forall|x: K| !key_eq(k, x) && !has_key(s, x) implies !has_key(t, x) by {
        if has_key(t, x) {
            let q = choose|q: int| 0 <= q < t.len() && #[trigger] key_eq(t[q].0, x);
            if has_key(s, k) {
                let q2 = if q < i { q } else { q + 1 };
                assert(t[q] == s[q2]);
            } else {
                assert(t[q] == s[q]);
            }
        }
    }
    if has_key(s, k) {
        lemma_keys_after_remove(s, i);
    }
    assert forall|x: K| #[trigger] has_key(t, x) <==> has_key(s, x) && !key_eq(k, x) by {}
    assert forall|x: K|
        #[trigger] lookup(t, x) == if key_eq(k, x) {
            None
        } else {
            lookup(s, x)
        } by {}
}

/// Inserting a key that a stored key answers keeps the number of slots and the
/// stored key itself, finds a prior value (the one that `insert` hands back),
/// and a search for the key then finds the new value.
pub proof fn lemma_insert_present<K: PartialEq, V>(s: Seq<(K, V)>, k: K, v: V)
    requires
        obeys_eq::<K>(),
        keys_distinct(s),
        has_key(s, k),
        key_eq(k, k),
    ensures
        after_insert(s, k, v).len() == s.len(),
        lookup(s, k) is Some,
        lookup(after_insert(s, k, v), k) == Some(v),
        after_insert(s, k, v)[index_of(s, k)].0 == s[index_of(s, k)].0,
{
    lemma_index_of(s, k);
    lemma_lookup_after_insert(s, k, v);
}

/// Removing an absent key changes no slot, so the length and every lookup stay.
pub proof fn lemma_remove_absent<K: PartialEq, V>(s: Seq<(K, V)>, k: K)
    requires
        !has_key(s, k),
    ensures
        after_remove(s, k) == s,
        after_remove(s, k).len() == s.len(),
        forall|x: K| #[trigger] lookup(after_remove(s, k), x) == lookup(s, x),
        lookup(s, k) is None,
{
}

/// Removing a present key frees one slot, which a new key then takes as the last
/// slot: the length comes back to what it was, so a full map can take the new key.
pub proof fn lemma_remove_then_insert<K: PartialEq, V>(s: Seq<(K, V)>, k: K, k2: K, v: V)
    requires
        obeys_eq::<K>(),
        keys_distinct(s),
        has_key(s, k),
        !has_key(s, k2),
        key_eq(k, k),
        key_eq(k2, k2),
    ensures
        after_remove(s, k).len() < s.len(),
        !has_key(after_remove(s, k), k2),
        after_insert(after_remove(s, k), k2, v) == after_remove(s, k).push((k2, v)),
        after_insert(after_remove(s, k), k2, v).len() == s.len(),
        lookup(after_insert(after_remove(s, k), k2, v), k2) == Some(v),
        lookup(after_insert(after_remove(s, k), k2, v), k) is None,
{
    lemma_eq_laws::<K>();
    lemma_lookup_after_remove(s, k);
    let t = after_remove(s, k);
    lemma_lookup_after_insert(t, k2, v);
    if key_eq(k2, k) {
        lemma_index_of(s, k);
        assert(key_eq(s[index_of(s, k)].0, k2));
    }
}

/// Walking the slots in order, as the iterators do, meets no two keys that are
/// equal, and a search for a stored key (one equal to itself) finds its own slot.
pub proof fn lemma_iteration<K: PartialEq, V>(s: Seq<(K, V)>)
    requires
        obeys_eq::<K>(),
        keys_distinct(s),
    ensures
        forall|i: int, j: int|
            0 <= i < s.len() && 0 <= j < s.len() && i != j ==> !key_eq(s[i].0, s[j].0),
        forall|i: int|
            0 <= i < s.len() && key_eq(s[i].0, s[i].0) ==> #[trigger] lookup(s, s[i].0) == Some(
                s[i].1,
            ),
        forall|k: K|
            #[trigger] has_key(s, k) ==> key_eq(s[index_of(s, k)].0, k) && lookup(s, k) == Some(
                s[index_of(s, k)].1,
            ),
{
    lemma_eq_laws::<K>();
    assert forall|i: int, j: int|
        0 <= i < s.len() && 0 <= j < s.len() && i != j implies !key_eq(s[i].0, s[j].0) by {
        if j < i && key_eq(s[i].0, s[j].0) {
            assert(key_eq(s[j].0, s[i].0));
        }
    }
    assert forall|i: int| 0 <= i < s.len() && key_eq(s[i].0, s[i].0) implies #[trigger] lookup(
        s,
        s[i].0,
    ) == Some(s[i].1) by {
        lemma_index_at(s, s[i].0, i);
    }
    assert forall|k: K| #[trigger] has_key(s, k) implies key_eq(s[index_of(s, k)].0, k) && lookup(
        s,
        k,
    ) == Some(s[index_of(s, k)].1) by {
        lemma_index_of(s, k);
    }
}

/// Inserting the pairs of `ops` one after another into an empty map, with keys
/// that are each equal to themselves, leaves one slot per class of equal keys:
/// the keys stay distinct, each stored key is the first inserted key of its
/// class, every inserted key is found, and each key holds the value of the last
/// insert of its class.
pub proof fn lemma_inserts_keep_last<K: PartialEq, V>(ops: Seq<(K, V)>)
    requires
        obeys_eq::<K>(),
        forall|j: int| 0 <= j < ops.len() ==> key_eq(#[trigger] ops[j].0, ops[j].0),
    ensures
        keys_distinct(insert_all(Seq::empty(), ops)),
        forall|i: int|
            #![trigger insert_all(Seq::empty(), ops)[i]]
            0 <= i < insert_all(Seq::empty(), ops).len() ==> exists|j: int|
                0 <= j < ops.len() && #[trigger] ops[j].0 == insert_all(Seq::empty(), ops)[i].0
                    && forall|j2: int| 0 <= j2 < j ==> !key_eq(ops[j2].0, ops[j].0),
        forall|j: int| 0 <= j < ops.len() ==> #[trigger] has_key(insert_all(Seq::empty(), ops), ops[j].0),
        forall|i: int|
            0 <= i < ops.len() && (forall|j: int| i < j < ops.len() ==> !key_eq(ops[j].0, ops[i].0))
                ==> #[trigger] lookup(insert_all(Seq::empty(), ops), ops[i].0) == Some(ops[i].1),
    decreases ops.len(),
{
    lemma_eq_laws::<K>();
    let r = insert_all(Seq::empty(), ops);
    if ops.len() > 0 {
        let init = ops.drop_last();
        let n = ops.len() - 1;
        let (k, v) = ops.last();
        assert(ops.last() == ops[n]);
        assert forall|j: int| 0 <= j < init.len() implies key_eq(#[trigger] init[j].0, init[j].0) by {
            assert(init[j] == ops[j]);
        }
        lemma_inserts_keep_last(init);
        let r0 = insert_all(Seq::empty(), init);
        lemma_lookup_after_insert(r0, k, v);
        assert forall|j: int| 0 <= j < ops.len() implies #[trigger] has_key(r, ops[j].0) by {
            if j < n {
                assert(init[j] == ops[j]);
            }
        }
        assert forall|i: int|
            0 <= i < ops.len() && (forall|j: int| i < j < ops.len() ==> !key_eq(ops[j].0, ops[i].0))
                implies #[trigger] lookup(r, ops[i].0) == Some(ops[i].1) by {
            if i < n {
                assert(init[i] == ops[i]);
                assert(!key_eq(ops[n].0, ops[i].0));
                assert forall|j: int| i < j < init.len() implies !key_eq(init[j].0, init[i].0) by {
                    assert(init[j] == ops[j]);
                }
            }
        }
        lemma_index_of(r0, k);
        if has_key(r0, k) {
            let i0 = index_of(r0, k);
            assert forall|i: int| #![trigger r[i]] 0 <= i < r.len() implies exists|j: int|
                0 <= j < ops.len() && #[trigger] ops[j].0 == r[i].0
                    && forall|j2: int| 0 <= j2 < j ==> !key_eq(ops[j2].0, ops[j].0) by {
                assert(r[i].0 == r0[i].0);
                let j = choose|j: int|
                    0 <= j < init.len() && #[trigger] init[j].0 == r0[i].0
                        && forall|j2: int| 0 <= j2 < j ==> !key_eq(init[j2].0, init[j].0);
                assert(ops[j] == init[j]);
                assert forall|j2: int| 0 <= j2 < j implies !key_eq(ops[j2].0, ops[j].0) by {
                    assert(ops[j2] == init[j2]);
                }
            }
        } else {
            assert forall|i: int| #![trigger r[i]] 0 <= i < r.len() implies exists|j: int|
                0 <= j < ops.len() && #[trigger] ops[j].0 == r[i].0
                    && forall|j2: int| 0 <= j2 < j ==> !key_eq(ops[j2].0, ops[j].0) by {
                if i < r0.len() {
                    assert(r[i] == r0[i]);
                    let j = choose|j: int|
                        0 <= j < init.len() && #[trigger] init[j].0 == r0[i].0
                            && forall|j2: int| 0 <= j2 < j ==> !key_eq(init[j2].0, init[j].0);
                    assert(ops[j] == init[j]);
                    assert forall|j2: int| 0 <= j2 < j implies !key_eq(ops[j2].0, ops[j].0) by {
                        assert(ops[j2] == init[j2]);
                    }
                } else {
                    assert(r[i].0 == ops[n].0);
                    assert forall|j2: int| 0 <= j2 < n implies !key_eq(ops[j2].0, ops[n].0) by {
                        assert(init[j2] == ops[j2]);
                        assert(has_key(r0, init[j2].0));
                        lemma_index_of(r0, init[j2].0);
                        let q = index_of(r0, init[j2].0);
                        if key_eq(ops[j2].0, ops[n].0) {
                            assert(key_eq(r0[q].0, k));
                        }
                    }
                }
            }
        }
    }
}

/// Rebuilding a map by inserting its own pairs, in slot order, into an empty
/// map gives back the same slots, so the same entries.
pub proof fn lemma_round_trip<K: PartialEq, V>(s: Seq<(K, V)>)
    requires
        keys_distinct(s),
    ensures
        insert_all(Seq::empty(), s) == s,
    decreases s.len(),
{
    if s.len() > 0 {
        let init = s.drop_last();
        let n = s.len() - 1;
        assert(s.last() == s[n]);
        assert forall|i: int, j: int| 0 <= i < j < init.len() implies !key_eq(
            #[trigger] init[i].0,
            #[trigger] init[j].0,
        ) by {
            assert(init[i] == s[i] && init[j] == s[j]);
        }
        lemma_round_trip(init);
        if has_key(init, s[n].0) {
            let j = choose|j: int| 0 <= j < init.len() && #[trigger] key_eq(init[j].0, s[n].0);
            assert(init[j] == s[j]);
        }
        assert(init.push(s.last()) =~= s);
    }
}

} // verus!
