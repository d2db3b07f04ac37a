use portals::entity_map::{vec_contains, EntityMap};

fn entries(m: &EntityMap<u64>) -> Vec<(u64, u64)> {
    (0..m.len()).map(|i| m.entry(i)).collect()
}

#[test]
fn insert_appends_new_keys_in_order() {
    let mut m = EntityMap::new();
    m.insert(5, 50);
    m.insert(2, 20);
    m.insert(9, 90);
    assert_eq!(entries(&m), vec![(5, 50), (2, 20), (9, 90)]);
}

#[test]
fn insert_replaces_in_place() {
    let mut m = EntityMap::new();
    m.insert(5, 50);
    m.insert(2, 20);
    m.insert(5, 55);
    assert_eq!(entries(&m), vec![(5, 55), (2, 20)]);
    assert_eq!(m.get(5), Some(55));
}

#[test]
fn remove_returns_value_and_keeps_order() {
    let mut m = EntityMap::new();
    m.insert(1, 10);
    m.insert(2, 20);
    m.insert(3, 30);
    assert_eq!(m.remove(2), Some(20));
    assert_eq!(entries(&m), vec![(1, 10), (3, 30)]);
    assert_eq!(m.remove(2), None);
    assert!(!m.contains_key(2));
    assert_eq!(m.find(3), Some(1));
}

#[test]
fn retain_listed_both_ways() {
    let mut m = EntityMap::new();
    for k in 1..=5u64 {
        m.insert(k, k * 10);
    }
    let mut kept = EntityMap::new();
    for k in 1..=5u64 {
        kept.insert(k, k * 10);
    }
    m.retain_listed(&vec![2, 4, 7], true);
    assert_eq!(entries(&m), vec![(2, 20), (4, 40)]);
    kept.retain_listed(&vec![2, 4, 7], false);
    assert_eq!(entries(&kept), vec![(1, 10), (3, 30), (5, 50)]);
}

#[test]
fn clear_empties() {
    let mut m = EntityMap::new();
    m.insert(1, 1);
    m.clear();
    assert_eq!(m.len(), 0);
    assert_eq!(m.get(1), None);
}

#[test]
fn vec_contains_finds_members() {
    assert!(vec_contains(&vec![3, 1, 4], 4));
    assert!(!vec_contains(&vec![3, 1, 4], 2));
    assert!(!vec_contains(&vec![], 0));
}

#[test]
fn a_read_gives_back_the_last_write() {
    let mut m = EntityMap::new();
    m.insert(7, 70);
    m.insert(8, 80);
    m.insert(7, 71);
    assert_eq!(m.get(7), Some(71));
    assert_eq!(m.get(8), Some(80));
    assert_eq!(m.remove(7), Some(71));
    assert_eq!(m.get(7), None);
    assert_eq!(m.get(8), Some(80));
}
