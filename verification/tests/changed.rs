use zrx::changed::Changed;

fn sorted_changes(store: &mut Changed<i32>) -> Vec<(u64, Option<i32>)> {
    let mut changes: Vec<(u64, Option<i32>)> =
        store.changes().into_iter().map(|(k, v)| (k, v.copied())).collect();
    changes.sort();
    changes
}

#[test]
fn changed_insert_and_get() {
    let mut store = Changed::new();
    assert_eq!(store.insert(1, 42), None);
    assert_eq!(store.get(&1), Some(&42));
    assert!(store.contains_key(&1));
    assert!(!store.contains_key(&2));
    assert_eq!(store.insert(1, 84), Some(42));
    assert_eq!(store.get(&1), Some(&84));
    assert_eq!(store.len(), 1);
}

#[test]
fn changed_insert_if_changed() {
    let mut store: Changed<i32> = Changed::default();
    assert!(store.insert_if_changed(&7, &42));
    assert!(!store.insert_if_changed(&7, &42));
    assert!(store.insert_if_changed(&7, &84));
    assert_eq!(store.get(&7), Some(&84));
    assert_eq!(sorted_changes(&mut store), vec![(7, Some(84))]);
    assert!(!store.insert_if_changed(&7, &84));
    assert!(store.changes().is_empty());
}

#[test]
fn changed_records_each_key_once() {
    let mut store = Changed::default();
    store.insert(1, 4);
    store.insert(2, 2);
    store.insert(3, 3);
    store.insert(4, 1);
    store.insert(1, 5);
    store.remove(&2);
    assert_eq!(
        sorted_changes(&mut store),
        vec![(1, Some(5)), (2, None), (3, Some(3)), (4, Some(1))]
    );
    assert!(store.changes().is_empty());
}

#[test]
fn changed_remove_and_remove_entry() {
    let mut store = Changed::default();
    store.insert(1, 42);
    store.insert(2, 84);
    store.changes();
    assert_eq!(store.remove(&1), Some(42));
    assert_eq!(store.remove(&1), None);
    assert_eq!(store.remove_entry(&2), Some((2, 84)));
    assert_eq!(store.remove_entry(&3), None);
    assert_eq!(sorted_changes(&mut store), vec![(1, None), (2, None)]);
    assert!(store.is_empty());
}

#[test]
fn changed_clear_records_all_keys() {
    let mut store = Changed::default();
    store.insert(1, 42);
    store.insert(2, 84);
    store.changes();
    store.clear();
    assert!(store.is_empty());
    assert_eq!(sorted_changes(&mut store), vec![(1, None), (2, None)]);
}

#[test]
fn changed_iterates_items() {
    let store = Changed::from_iter(vec![(1, 4), (2, 2), (1, 3)]);
    let mut items: Vec<(u64, i32)> = store.iter().into_iter().map(|(k, v)| (*k, *v)).collect();
    items.sort();
    assert_eq!(items, vec![(1, 3), (2, 2)]);
    let mut keys: Vec<u64> = store.keys().into_iter().copied().collect();
    keys.sort();
    assert_eq!(keys, vec![1, 2]);
    let mut values: Vec<i32> = store.values().into_iter().copied().collect();
    values.sort();
    assert_eq!(values, vec![2, 3]);
    let mut owned = store.into_iter();
    owned.sort();
    assert_eq!(owned, vec![(1, 3), (2, 2)]);
}

#[test]
fn changed_from_iter_records_nothing() {
    let mut store = Changed::from_iter(vec![(5, 1)]);
    assert!(store.changes().is_empty());
    assert_eq!(store.get(&5), Some(&1));
}
