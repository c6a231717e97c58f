use micromap::MicroMap;

/// A key whose `==` looks at the number only, not at the tag.
#[derive(Debug)]
struct Tagged(u8, &'static str);

impl PartialEq for Tagged {
    fn eq(&self, o: &Tagged) -> bool {
        self.0 == o.0
    }
}

#[test]
fn scenario_insert_remove_reinsert() {
    let mut m: MicroMap<u64, &str, 4> = MicroMap::new();
    assert_eq!(None, m.insert(1, "a"));
    assert_eq!(None, m.insert(2, "b"));
    assert_eq!(None, m.insert(3, "c"));
    assert_eq!(3, m.len());
    assert_eq!(Some(&"b"), m.get(&2));
    assert_eq!(Some("b"), m.remove(&2));
    assert_eq!(2, m.len());
    assert_eq!(None, m.get(&2));
    assert_eq!(Some(&"c"), m.get(&3));
    assert_eq!(None, m.insert(4, "d"));
    assert_eq!(3, m.len());
    assert_eq!(Ok(None), m.checked_insert(5, "e"));
    assert_eq!(4, m.len());
    assert_eq!(Err((6, "f")), m.checked_insert(6, "f"));
    assert_eq!(4, m.len());
    assert_eq!(None, m.get(&6));
}

#[test]
fn scenario_same_key_twice() {
    let mut m: MicroMap<u64, &str, 4> = MicroMap::new();
    assert_eq!(None, m.insert(5, "x"));
    assert_eq!(Some("x"), m.insert(5, "y"));
    assert_eq!(1, m.len());
    assert_eq!(Some(&"y"), m.get(&5));
}

#[test]
fn inserts_count_distinct_keys_and_keep_last_value() {
    let mut m: MicroMap<u64, u64, 8> = MicroMap::new();
    let ops: [(u64, u64); 7] = [(1, 10), (2, 20), (1, 11), (3, 30), (2, 21), (1, 12), (4, 40)];
    for (k, v) in ops {
        m.insert(k, v);
    }
    assert_eq!(4, m.len());
    assert_eq!(Some(&12), m.get(&1));
    assert_eq!(Some(&21), m.get(&2));
    assert_eq!(Some(&30), m.get(&3));
    assert_eq!(Some(&40), m.get(&4));
}

#[test]
fn insert_present_key_keeps_len() {
    let mut m: MicroMap<u64, u64, 3> = MicroMap::new();
    m.insert(1, 1);
    m.insert(2, 2);
    m.insert(3, 3);
    assert_eq!(Some(2), m.insert(2, 22));
    assert_eq!(3, m.len());
    assert_eq!(Some(&22), m.get(&2));
}

#[test]
fn insert_present_key_keeps_stored_key() {
    let mut m: MicroMap<Tagged, u8, 2> = MicroMap::new();
    m.insert(Tagged(1, "first"), 1);
    m.insert(Tagged(1, "second"), 2);
    let mut keys = m.keys();
    let k = keys.next().unwrap();
    assert_eq!("first", k.1);
    assert!(keys.next().is_none());
    assert_eq!(Some(&2), m.get(&Tagged(1, "any")));
}

#[test]
fn remove_absent_key_changes_nothing() {
    let mut m: MicroMap<u64, u64, 4> = MicroMap::new();
    m.insert(1, 10);
    m.insert(2, 20);
    assert_eq!(None, m.remove(&7));
    assert_eq!(2, m.len());
    assert_eq!(Some(&10), m.get(&1));
    assert_eq!(Some(&20), m.get(&2));
}

#[test]
fn remove_then_insert_reuses_slot_of_full_map() {
    let mut m: MicroMap<u64, u64, 3> = MicroMap::new();
    m.insert(1, 10);
    m.insert(2, 20);
    m.insert(3, 30);
    assert_eq!(Some(10), m.remove(&1));
    m.insert(9, 90);
    assert_eq!(3, m.len());
    let mut it = m.iter();
    assert_eq!(Some((&2, &20)), it.next());
    assert_eq!(Some((&3, &30)), it.next());
    assert_eq!(Some((&9, &90)), it.next());
    assert_eq!(None, it.next());
}

#[test]
fn contains_key_and_get_mut() {
    let mut m: MicroMap<u64, u64, 4> = MicroMap::new();
    m.insert(1, 10);
    assert!(m.contains_key(&1));
    assert!(!m.contains_key(&2));
    if let Some(v) = m.get_mut(&1) {
        *v = 15;
    }
    assert_eq!(Some(&15), m.get(&1));
    assert!(m.get_mut(&2).is_none());
}

#[test]
fn get_or_insert_adds_missing_key_only() {
    let mut m: MicroMap<u64, u64, 4> = MicroMap::new();
    *m.get_or_insert_with(1, || 0) += 5;
    *m.get_or_insert_with(1, || panic!("present key")) += 5;
    *m.get_or_insert_with(2, || 100) += 1;
    assert_eq!(2, m.len());
    assert_eq!(Some(&10), m.get(&1));
    assert_eq!(Some(&101), m.get(&2));
}

#[test]
fn clear_empties_the_map() {
    let mut m: MicroMap<u64, u64, 2> = MicroMap::new();
    m.insert(1, 10);
    m.insert(2, 20);
    m.clear();
    assert!(m.is_empty());
    assert_eq!(None, m.get(&1));
    m.insert(3, 30);
    m.insert(4, 40);
    assert_eq!(2, m.len());
}

#[test]
fn checked_insert_on_full_map_with_present_key_replaces() {
    let mut m: MicroMap<u64, u64, 1> = MicroMap::new();
    assert_eq!(Ok(None), m.checked_insert(1, 10));
    assert_eq!(Ok(Some(10)), m.checked_insert(1, 11));
    assert_eq!(Err((2, 20)), m.checked_insert(2, 20));
    assert_eq!(Some(&11), m.get(&1));
}

#[test]
fn equal_but_different_keys_find_and_remove_the_same_slot() {
    let mut m: MicroMap<Tagged, u8, 2> = MicroMap::new();
    m.insert(Tagged(1, "stored"), 10);
    m.insert(Tagged(2, "other"), 20);
    assert!(m.contains_key(&Tagged(1, "probe")));
    assert_eq!(Ok(Some(10)), m.checked_insert(Tagged(1, "again"), 11));
    assert_eq!(2, m.len());
    assert_eq!(Some(11), m.remove(&Tagged(1, "probe")));
    assert_eq!(1, m.len());
    assert_eq!(None, m.get(&Tagged(1, "stored")));
    assert_eq!(Some(&20), m.get(&Tagged(2, "x")));
}
