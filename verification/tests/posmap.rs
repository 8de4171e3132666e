use biorite::pos::IVec3;
use biorite::posmap::PosMap;

fn p(x: i32) -> IVec3 {
    IVec3::new(x, -x, 2 * x)
}

#[test]
fn insert_get_and_replace() {
    let mut m = PosMap::new();
    assert!(m.get(&p(1)).is_none());
    m.insert(p(1), 10u32);
    m.insert(p(2), 20);
    assert_eq!(m.get(&p(1)), Some(&10));
    m.insert(p(1), 11);
    assert_eq!(m.get(&p(1)), Some(&11));
    assert_eq!(m.keys().len(), 2);
}

#[test]
fn insert_if_absent_keeps_the_first_value() {
    let mut m = PosMap::new();
    m.insert_if_absent(p(3), "a");
    m.insert_if_absent(p(3), "b");
    assert_eq!(m.get(&p(3)), Some(&"a"));
}

#[test]
fn remove_hands_back_the_value() {
    let mut m = PosMap::new();
    m.insert(p(4), 4u8);
    assert_eq!(m.remove(&p(4)), Some(4));
    assert_eq!(m.remove(&p(4)), None);
    assert!(!m.contains_key(&p(4)));
}

#[test]
fn retain_keys_splits_the_map() {
    let mut m = PosMap::new();
    for i in 0..5 {
        m.insert(p(i), i);
    }
    let dropped = m.retain_keys(&vec![p(1), p(3), p(9)]);
    let mut kept = m.keys();
    kept.sort_by_key(|v| v.x);
    assert_eq!(kept, vec![p(1), p(3)]);
    let mut gone: Vec<(IVec3, i32)> = dropped.to_entries();
    gone.sort_by_key(|e| e.0.x);
    assert_eq!(gone, vec![(p(0), 0), (p(2), 2), (p(4), 4)]);
}

#[test]
fn get_mut_changes_the_stored_value() {
    let mut m = PosMap::new();
    m.insert(p(7), 1u64);
    *m.get_mut(&p(7)).unwrap() += 5;
    assert_eq!(m.get(&p(7)), Some(&6));
    assert!(m.get_mut(&p(8)).is_none());
}
