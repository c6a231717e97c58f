use vstd::prelude::*;
use vstd::std_specs::cmp::PartialEqSpec;

verus! {

/// The keys of a run of slots, in the same order.
pub open spec fn keys_of<K, V>(s: Seq<(K, V)>) -> Seq<K> {
    s.map_values(|p: (K, V)| p.0)
}

/// The values of a run of slots, in the same order.
pub open spec fn values_of<K, V>(s: Seq<(K, V)>) -> Seq<V> {
    s.map_values(|p: (K, V)| p.1)
}

/// The stored key `stored` answers a search for `k`: what `stored == k` gives.
pub open spec fn key_eq<K: PartialEq>(stored: K, k: K) -> bool {
    stored.eq_spec(&k)
}

/// No stored key answers a search for a key stored after it.
pub open spec fn keys_distinct<K: PartialEq, V>(s: Seq<(K, V)>) -> bool {
    forall|i: int, j: int| 0 <= i < j < s.len() ==> !key_eq(#[trigger] s[i].0, #[trigger] s[j].0)
}

/// Some slot's key answers a search for `k`.
pub open spec fn has_key<K: PartialEq, V>(s: Seq<(K, V)>, k: K) -> bool {
    exists|i: int| 0 <= i < s.len() && #[trigger] key_eq(s[i].0, k)
}

/// The first slot whose key answers a search for `k`, or `s.len()` when none does.
pub open spec fn index_of<K: PartialEq, V>(s: Seq<(K, V)>, k: K) -> int
    decreases s.len(),
{
    if s.len() == 0 {
        0
    } else if key_eq(s[0].0, k) {
        0
    } else {
        1 + index_of(s.drop_first(), k)
    }
}

/// The value that a search for `k` finds, if any.
pub open spec fn lookup<K: PartialEq, V>(s: Seq<(K, V)>, k: K) -> Option<V> {
    if has_key(s, k) {
        Some(s[index_of(s, k)].1)
    } else {
        None
    }
}

/// The slots after inserting `(k, v)`: where a stored key answers `k`, its value
/// is replaced in place and the stored key is kept (not replaced by `k`);
/// otherwise the pair is appended.
pub open spec fn after_insert<K: PartialEq, V>(s: Seq<(K, V)>, k: K, v: V) -> Seq<(K, V)> {
    if has_key(s, k) {
        let i = index_of(s, k);
        s.update(i, (s[i].0, v))
    } else {
        s.push((k, v))
    }
}

/// The slots after removing key `k`: later slots shift left by one; nothing
/// changes where the key is absent.
pub open spec fn after_remove<K: PartialEq, V>(s: Seq<(K, V)>, k: K) -> Seq<(K, V)> {
    if has_key(s, k) {
        s.remove(index_of(s, k))
    } else {
        s
    }
}

/// The slots after inserting the pairs of `ops` into `s`, first pair first.
pub open spec fn insert_all<K: PartialEq, V>(s: Seq<(K, V)>, ops: Seq<(K, V)>) -> Seq<(K, V)>
    decreases ops.len(),
{
    if ops.len() == 0 {
        s
    } else {
        after_insert(insert_all(s, ops.drop_last()), ops.last().0, ops.last().1)
    }
}

/// `index_of` finds the first slot whose key answers `k`, and only fails past the end.
pub proof fn lemma_index_of<K: PartialEq, V>(s: Seq<(K, V)>, k: K)
    ensures
        0 <= index_of(s, k) <= s.len(),
        index_of(s, k) < s.len() <==> has_key(s, k),
        index_of(s, k) < s.len() ==> key_eq(s[index_of(s, k)].0, k),
        forall|j: int| 0 <= j < index_of(s, k) ==> !key_eq(s[j].0, k),
    decreases s.len(),
{
    if s.len() > 0 && !key_eq(s[0].0, k) {
        let t = s.drop_first();
        lemma_index_of(t, k);
        assert forall|j: int| 0 <= j < index_of(s, k) implies !key_eq(s[j].0, k) by {
            if j > 0 {
                assert(s[j] == t[j - 1]);
            }
        }
        if has_key(s, k) {
            let i = choose|i: int| 0 <= i < s.len() && #[trigger] key_eq(s[i].0, k);
            assert(t[i - 1] == s[i]);
        }
        if has_key(t, k) {
            let i = choose|i: int| 0 <= i < t.len() && #[trigger] key_eq(t[i].0, k);
            assert(s[i + 1] == t[i]);
        }
    }
}

/// A slot whose key answers `k`, with no earlier one that does, is the slot
/// that `index_of` finds.
pub proof fn lemma_index_at<K: PartialEq, V>(s: Seq<(K, V)>, k: K, i: int)
    requires
        0 <= i < s.len(),
        key_eq(s[i].0, k),
        forall|j: int| 0 <= j < i ==> !key_eq(s[j].0, k),
    ensures
        index_of(s, k) == i,
        has_key(s, k),
        lookup(s, k) == Some(s[i].1),
{
    lemma_index_of(s, k);
}

/// Two runs of slots with the same keys answer every search at the same slot.
pub proof fn lemma_same_keys<K: PartialEq, V>(s: Seq<(K, V)>, t: Seq<(K, V)>)
    requires
        s.len() == t.len(),
        forall|i: int| 0 <= i < s.len() ==> s[i].0 == t[i].0,
    ensures
        forall|x: K| #[trigger] index_of(t, x) == index_of(s, x),
        forall|x: K| #[trigger] has_key(t, x) == has_key(s, x),
        keys_distinct(s) ==> keys_distinct(t),
{
    assert forall|x: K| #[trigger] index_of(t, x) == index_of(s, x) by {
        lemma_index_of(s, x);
        lemma_index_of(t, x);
        let a = index_of(s, x);
        let b = index_of(t, x);
        if a < b {
            assert(s[a].0 == t[a].0);
        } else if b < a {
            assert(s[b].0 == t[b].0);
        }
    }
    assert forall|x: K| #[trigger] has_key(t, x) == has_key(s, x) by {
        lemma_index_of(s, x);
        lemma_index_of(t, x);
    }
    if keys_distinct(s) {
        assert forall|i: int, j: int| 0 <= i < j < t.len() implies !key_eq(
            #[trigger] t[i].0,
            #[trigger] t[j].0,
        ) by {
            assert(s[i].0 == t[i].0 && s[j].0 == t[j].0);
        }
    }
}

/// Replacing a value keeps the keys, so every search answers as before.
pub proof fn lemma_keys_after_update<K: PartialEq, V>(s: Seq<(K, V)>, i: int)
    requires
        0 <= i < s.len(),
    ensures
        forall|v: V| #[trigger] keys_of(s.update(i, (s[i].0, v))) == keys_of(s),
        forall|v: V|
            keys_distinct(s) ==> #[trigger] keys_distinct(s.update(i, (s[i].0, v))),
        forall|v: V, x: K| #[trigger]
            index_of(s.update(i, (s[i].0, v)), x) == index_of(s, x),
        forall|v: V, x: K| #[trigger] has_key(s.update(i, (s[i].0, v)), x) == has_key(s, x),
{
    assert forall|v: V| #[trigger] keys_of(s.update(i, (s[i].0, v))) == keys_of(s) by {
        assert(keys_of(s.update(i, (s[i].0, v))) =~= keys_of(s));
    }
    assert forall|v: V| keys_distinct(s) implies #[trigger] keys_distinct(
        s.update(i, (s[i].0, v)),
    ) by {
        lemma_same_keys(s, s.update(i, (s[i].0, v)));
    }
    assert forall|v: V, x: K| #[trigger]
        index_of(s.update(i, (s[i].0, v)), x) == index_of(s, x) by {
        lemma_same_keys(s, s.update(i, (s[i].0, v)));
    }
    assert forall|v: V, x: K| #[trigger] has_key(s.update(i, (s[i].0, v)), x) == has_key(
        s,
        x,
    ) by {
        lemma_same_keys(s, s.update(i, (s[i].0, v)));
    }
}

/// Appending a pair whose key no stored key answers keeps the keys distinct,
/// and every search that found a slot before finds the same one.
pub proof fn lemma_keys_after_push<K: PartialEq, V>(s: Seq<(K, V)>, k: K, v: V)
    requires
        keys_distinct(s),
        !has_key(s, k),
    ensures
        keys_distinct(s.push((k, v))),
        forall|x: K| has_key(s, x) ==> #[trigger] index_of(s.push((k, v)), x) == index_of(s, x),
        forall|x: K| #[trigger] has_key(s.push((k, v)), x) == (has_key(s, x) || key_eq(k, x)),
        forall|x: K|
            !has_key(s, x) && key_eq(k, x) ==> #[trigger] index_of(s.push((k, v)), x) == s.len(),
{
    let t = s.push((k, v));
    assert forall|i: int, j: int| 0 <= i < j < t.len() implies !key_eq(
        #[trigger] t[i].0,
        #[trigger] t[j].0,
    ) by {
        assert(t[i] == s[i]);
        if j < s.len() {
            assert(t[j] == s[j]);
        }
    }
    assert forall|x: K| #[trigger] has_key(t, x) == (has_key(s, x) || key_eq(k, x)) by {
        lemma_index_of(s, x);
        lemma_index_of(t, x);
        if has_key(s, x) {
            let a = index_of(s, x);
            assert(t[a] == s[a]);
        }
        if has_key(t, x) && index_of(t, x) < s.len() {
            assert(t[index_of(t, x)] == s[index_of(t, x)]);
        }
        assert(t[s.len() as int] == (k, v));
    }
    assert forall|x: K| has_key(s, x) implies #[trigger] index_of(t, x) == index_of(s, x) by {
        lemma_index_of(s, x);
        let a = index_of(s, x);
        assert(t[a] == s[a]);
        assert forall|j: int| 0 <= j < a implies !key_eq(t[j].0, x) by {
            assert(t[j] == s[j]);
        }
        lemma_index_at(t, x, a);
    }
    assert forall|x: K| !has_key(s, x) && key_eq(k, x) implies #[trigger] index_of(t, x)
        == s.len() by {
        lemma_index_of(s, x);
        assert(t[s.len() as int] == (k, v));
        assert forall|j: int| 0 <= j < s.len() implies !key_eq(t[j].0, x) by {
            assert(t[j] == s[j]);
        }
        lemma_index_at(t, x, s.len() as int);
    }
}

/// Removing a slot keeps the keys distinct.
pub proof fn lemma_keys_after_remove<K: PartialEq, V>(s: Seq<(K, V)>, i: int)
    requires
        keys_distinct(s),
        0 <= i < s.len(),
    ensures
        keys_distinct(s.remove(i)),
{
    let t = s.remove(i);
    assert forall|a: int, b: int| 0 <= a < b < t.len() implies !key_eq(
        #[trigger] t[a].0,
        #[trigger] t[b].0,
    ) by {
        let a2 = if a < i { a } else { a + 1 };
        let b2 = if b < i { b } else { b + 1 };
        assert(t[a] == s[a2] && t[b] == s[b2]);
    }
}

} // verus!
