use micromap::MicroMap;
use std::rc::Rc;

#[test]
fn makes_default_map() {
    let m: MicroMap<u8, u8, 8> = MicroMap::default();
    assert_eq!(0, m.len());
}

#[test]
fn makes_new_map() {
    let m: MicroMap<u8, u8, 8> = MicroMap::new();
    assert_eq!(0, m.len());
}

#[test]
fn drops_correctly() {
    let _m: MicroMap<Vec<u8>, u8, 8> = MicroMap::new();
}

#[test]
fn drops_keys() {
    let mut m: MicroMap<Rc<()>, (), 8> = MicroMap::new();
    let k = Rc::new(());
    m.insert(Rc::clone(&k), ());
    drop(m);
    assert_eq!(Rc::strong_count(&k), 1);
}

#[test]
fn drops_values() {
    let mut m: MicroMap<(), Rc<()>, 8> = MicroMap::new();
    let v = Rc::new(());
    m.insert((), Rc::clone(&v));
    drop(m);
    assert_eq!(Rc::strong_count(&v), 1);
}

#[test]
fn reports_capacity() {
    let m: MicroMap<u64, u64, 5> = MicroMap::new();
    assert_eq!(5, m.capacity());
    assert!(m.is_empty());
}

#[test]
fn drops_removed_and_cleared_values() {
    let mut m: MicroMap<u8, Rc<()>, 4> = MicroMap::new();
    let v = Rc::new(());
    m.insert(1, Rc::clone(&v));
    m.insert(2, Rc::clone(&v));
    m.insert(3, Rc::clone(&v));
    assert_eq!(Rc::strong_count(&v), 4);
    let old = m.remove(&2);
    drop(old);
    assert_eq!(Rc::strong_count(&v), 3);
    m.clear();
    assert_eq!(Rc::strong_count(&v), 1);
    assert!(m.is_empty());
}

#[test]
fn drops_pairs_left_in_owning_iterator() {
    let mut m: MicroMap<u8, Rc<()>, 4> = MicroMap::new();
    let v = Rc::new(());
    m.insert(1, Rc::clone(&v));
    m.insert(2, Rc::clone(&v));
    m.insert(3, Rc::clone(&v));
    let mut it = m.into_iter();
    let first = it.next();
    assert_eq!(Rc::strong_count(&v), 4);
    drop(it);
    assert_eq!(Rc::strong_count(&v), 2);
    drop(first);
    assert_eq!(Rc::strong_count(&v), 1);
}
