use zrx::tracking::TrackedStore;

fn sorted_changes(store: &mut TrackedStore<i32>) -> Vec<(u64, Option<i32>)> {
    let mut iter = store.changes();
    let mut changes: Vec<(u64, Option<i32>)> = Vec::new();
    while let Some((k, v)) = iter.next() {
        changes.push((k, v.copied()));
    }
    changes.sort();
    changes
}

#[test]
fn tracked_insert_and_get() {
    let mut store = TrackedStore::new();
    assert_eq!(store.insert(1, 42), None);
    assert_eq!(store.get(&1), Some(&42));
    assert!(store.contains_key(&1));
    assert!(!store.contains_key(&2));
    assert_eq!(store.insert(1, 84), Some(42));
    assert_eq!(store.get(&1), Some(&84));
    assert_eq!(store.len(), 1);
}

#[test]
fn tracked_insert_if_changed() {
    let mut store: TrackedStore<i32> = TrackedStore::default();
    assert!(store.insert_if_changed(&7, &42));
    assert!(!store.insert_if_changed(&7, &42));
    assert!(store.insert_if_changed(&7, &84));
    assert_eq!(store.get(&7), Some(&84));
    assert_eq!(sorted_changes(&mut store), vec![(7, Some(84))]);
    assert!(!store.insert_if_changed(&7, &84));
    assert!(store.changes().len() == 0);
}

#[test]
fn tracked_records_each_key_once() {
    let mut store = TrackedStore::default();
    store.insert(1, 4);
    store.insert(2, 2);
    store.insert(3, 3);
    store.insert(4, 1);
    store.insert(1, 5);
    store.remove(&2);
    assert_eq!(
        sorted_changes(&mut store),
        vec![(1, Some(5)), (2, None), (3, Some(3)), (4, Some(1))]
    );
    assert!(store.changes().len() == 0);
}

#[test]
fn tracked_remove_and_remove_entry() {
    let mut store = TrackedStore::default();
    store.insert(1, 42);
    store.insert(2, 84);
    let _ = store.changes();
    assert_eq!(store.remove(&1), Some(42));
    assert_eq!(store.remove(&1), None);
    assert_eq!(store.remove_entry(&2), Some((2, 84)));
    assert_eq!(store.remove_entry(&3), None);
    assert_eq!(sorted_changes(&mut store), vec![(1, None), (2, None)]);
    assert!(store.is_empty());
}

#[test]
fn tracked_clear_forgets_changes() {
    let mut store = TrackedStore::default();
    store.insert(1, 42);
    store.insert(2, 84);
    store.clear();
    assert!(store.is_empty());
    assert_eq!(store.changes().len(), 0);
}

#[test]
fn tracked_changes_size_hint() {
    let mut store = TrackedStore::default();
    store.insert(1, 42);
    store.insert(2, 84);
    let mut iter = store.changes();
    assert_eq!(iter.size_hint(), (2, Some(2)));
    assert!(iter.next().is_some());
    assert_eq!(iter.len(), 1);
    assert!(iter.next().is_some());
    assert!(iter.next().is_none());
    assert_eq!(iter.size_hint(), (0, Some(0)));
}

#[test]
fn tracked_clone_keeps_items_and_changes() {
    let mut store = TrackedStore::default();
    store.insert(3, 7);
    let mut copy = store.clone();
    assert_eq!(copy.get(&3), Some(&7));
    assert_eq!(sorted_changes(&mut copy), vec![(3, Some(7))]);
    assert_eq!(sorted_changes(&mut store), vec![(3, Some(7))]);
}

#[test]
fn tracked_iterates_items() {
    let store = TrackedStore::from_iter(vec![(1, 4), (2, 2), (1, 3)]);
    let mut items: Vec<(u64, i32)> = store.iter().into_iter().map(|(k, v)| (*k, *v)).collect();
    items.sort();
    assert_eq!(items, vec![(1, 3), (2, 2)]);
    let mut keys: Vec<u64> = store.keys().into_iter().copied().collect();
    keys.sort();
    assert_eq!(keys, vec![1, 2]);
    let mut values: Vec<i32> = store.values().into_iter().copied().collect();
    values.sort();
    assert_eq!(values, vec![2, 3]);
    let mut owned = store.into_iter();
    owned.sort();
    assert_eq!(owned, vec![(1, 3), (2, 2)]);
}

#[test]
fn tracked_from_iter_records_nothing() {
    let mut store = TrackedStore::from_iter(vec![(5, 1)]);
    assert!(store.changes().len() == 0);
    assert_eq!(store.get(&5), Some(&1));
}

#[test]
fn tracked_equal_when_items_and_changes_agree() {
    let mut a = TrackedStore::default();
    let mut b = TrackedStore::default();
    a.insert(1, 2);
    b.insert(1, 2);
    assert!(a == b);
    let _ = b.changes();
    assert!(a != b);
    let _ = a.changes();
    assert!(a == b);
}

#[test]
fn tracked_debug_names_its_fields() {
    let mut store = TrackedStore::default();
    store.insert(1, 2);
    let text = format!("{:?}", store);
    assert!(text.contains("store: {1: 2}"));
    assert!(text.contains("changes: {1}"));
}
