use micromap::MicroMap;

fn sample() -> MicroMap<u64, String, 8> {
    let mut m: MicroMap<u64, String, 8> = MicroMap::new();
    m.insert(3, "three".to_string());
    m.insert(1, "one".to_string());
    m.insert(2, "two".to_string());
    m
}

#[test]
fn iter_yields_len_pairs_in_slot_order() {
    let m = sample();
    let mut seen: Vec<(u64, String)> = Vec::new();
    let mut it = m.iter();
    while let Some((k, v)) = it.next() {
        seen.push((*k, v.clone()));
    }
    assert_eq!(m.len(), seen.len());
    assert_eq!(
        vec![(3, "three".to_string()), (1, "one".to_string()), (2, "two".to_string())],
        seen
    );
}

#[test]
fn iter_mut_writes_into_slots() {
    let mut m = sample();
    let mut it = m.iter_mut();
    while let Some((k, v)) = it.next() {
        v.push_str(&k.to_string());
    }
    assert_eq!(Some(&"three3".to_string()), m.get(&3));
    assert_eq!(Some(&"one1".to_string()), m.get(&1));
}

#[test]
fn into_iter_moves_pairs_out_in_order() {
    let m = sample();
    let mut it = m.into_iter();
    assert_eq!(Some((3, "three".to_string())), it.next());
    assert_eq!(Some((1, "one".to_string())), it.next());
    assert_eq!(Some((2, "two".to_string())), it.next());
    assert_eq!(None, it.next());
    assert_eq!(None, it.next());
}

#[test]
fn keys_and_values() {
    let m = sample();
    let mut ks = m.keys();
    assert_eq!(Some(&3), ks.next());
    assert_eq!(Some(&1), ks.next());
    assert_eq!(Some(&2), ks.next());
    assert_eq!(None, ks.next());
    let mut vs = m.values();
    assert_eq!(Some(&"three".to_string()), vs.next());
    assert_eq!(Some(&"one".to_string()), vs.next());
    assert_eq!(Some(&"two".to_string()), vs.next());
    assert_eq!(None, vs.next());
}

#[test]
fn values_mut_writes_into_slots() {
    let mut m: MicroMap<u64, u64, 4> = MicroMap::new();
    m.insert(1, 10);
    m.insert(2, 20);
    let mut vs = m.values_mut();
    while let Some(v) = vs.next() {
        *v += 1;
    }
    assert_eq!(Some(&11), m.get(&1));
    assert_eq!(Some(&21), m.get(&2));
}

#[test]
fn into_keys_and_into_values() {
    let mut ks = sample().into_keys();
    assert_eq!(Some(3), ks.next());
    assert_eq!(Some(1), ks.next());
    assert_eq!(Some(2), ks.next());
    assert_eq!(None, ks.next());
    let mut vs = sample().into_values();
    assert_eq!(Some("three".to_string()), vs.next());
    assert_eq!(Some("one".to_string()), vs.next());
    assert_eq!(Some("two".to_string()), vs.next());
    assert_eq!(None, vs.next());
}

#[test]
fn round_trip_through_pairs_keeps_entries() {
    let m = sample();
    let mut pairs: Vec<(u64, String)> = Vec::new();
    let mut it = m.into_iter();
    while let Some(p) = it.next() {
        pairs.push(p);
    }
    let mut back: MicroMap<u64, String, 8> = MicroMap::new();
    for (k, v) in pairs {
        back.insert(k, v);
    }
    let original = sample();
    assert_eq!(original.len(), back.len());
    let mut oi = original.iter();
    while let Some((k, v)) = oi.next() {
        assert_eq!(Some(v), back.get(k));
    }
}
