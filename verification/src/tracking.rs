//! Tracking decorator, adding change tracking to a store.
use vstd::prelude::*;
use vstd::std_specs::cmp::PartialEqSpec;

use crate::store::{
    deref_value, from_pairs, holds_equal, keys_of, lists_keys, lists_values, map_of_pairs,
    values_of,
};
use crate::table::{
    lists_entries, lookup, map_clear, map_contains_key, map_entries, map_get, map_insert,
    map_into_entries, map_len, map_remove_entry, set_clear, set_clone, set_elements, set_insert,
    KeyMap, KeySet,
};

pub mod changes;

pub use changes::Changes;

verus! {

/// Tracking decorator over a hash table of items.
///
/// Only the keys of changed items are recorded, so subsequent insertions and
/// removals of the same key are only recorded once. Changes are not recorded
/// chronologically: they are returned in the order the hash set lists them.
/// Clearing the store also clears all recorded changes.
#[derive(Debug, PartialEq, Eq)]
pub struct TrackedStore<V> {
    /// Underlying store.
    store: KeyMap<V>,
    /// Keys of changed items.
    changes: KeySet,
}

impl<V> TrackedStore<V> {
    /// The items of the store.
    pub closed spec fn items(&self) -> Map<u64, V> {
        self.store@
    }

    /// The keys recorded as changed since changes were last taken.
    pub closed spec fn changed_keys(&self) -> Set<u64> {
        self.changes@
    }

    /// Creates a tracking decorator over an empty store.
    pub fn new() -> (s: Self)
        ensures
            s.items() == Map::<u64, V>::empty(),
            s.changed_keys() == Set::<u64>::empty(),
    {
        TrackedStore {
            store: std::collections::HashMap::default(),
            changes: std::collections::HashSet::default(),
        }
    }

    /// Returns an iterator over the changes recorded since the last call,
    /// and forgets them.
    ///
    /// The iterator yields each changed key once, with the value the store
    /// holds for it, or `None` if the key was removed.
    pub fn changes(&mut self) -> (changes: Changes<'_, V>)
        ensures
            final(self).items() == old(self).items(),
            final(self).changed_keys() == Set::<u64>::empty(),
            changes.items() == old(self).items(),
            changes.remaining().no_duplicates(),
            changes.remaining().to_set() == old(self).changed_keys(),
    {
        let keys = set_elements(&self.changes);
        set_clear(&mut self.changes);
        Changes::over(&self.store, keys)
    }

    /// Returns a reference to the value identified by the key.
    pub fn get(&self, key: &u64) -> (value: Option<&V>)
        ensures
            deref_value(value) == lookup(self.items(), *key),
    {
        map_get(&self.store, key)
    }

    /// Returns whether the store contains the key.
    pub fn contains_key(&self, key: &u64) -> (contained: bool)
        ensures
            contained == self.items().contains_key(*key),
    {
        map_contains_key(&self.store, key)
    }

    /// Returns the number of items.
    pub fn len(&self) -> (n: usize)
        ensures
            n == self.items().len(),
    {
        map_len(&self.store)
    }

    /// Returns whether the store holds no items.
    pub fn is_empty(&self) -> (empty: bool)
        ensures
            empty == (self.items().len() == 0),
    {
        map_len(&self.store) == 0
    }

    /// Updates the value identified by the key, records the key as changed,
    /// and returns the value held before, if any.
    pub fn insert(&mut self, key: u64, value: V) -> (previous: Option<V>)
        ensures
            final(self).items() == old(self).items().insert(key, value),
            final(self).changed_keys() == old(self).changed_keys().insert(key),
            previous == lookup(old(self).items(), key),
    {
        set_insert(&mut self.changes, key);
        map_insert(&mut self.store, key, value)
    }

    /// Updates the value identified by the key if it changed, and records the
    /// key as changed only then.
    pub fn insert_if_changed(&mut self, key: &u64, value: &V) -> (changed: bool)
        where V: Clone + Eq,
        ensures
            V::obeys_eq_spec() ==> (changed <==> !holds_equal(old(self).items(), *key, *value)),
            changed ==> {
                &&& final(self).items() == old(self).items().insert(*key, final(self).items()[*key])
                &&& cloned(*value, final(self).items()[*key])
                &&& final(self).changed_keys() == old(self).changed_keys().insert(*key)
            },
            !changed ==> final(self).items() == old(self).items() && final(self).changed_keys()
                == old(self).changed_keys(),
    {
        if crate::store::insert_if_changed(&mut self.store, key, value) {
            set_insert(&mut self.changes, *key);
            true
        } else {
            false
        }
    }

    /// Removes the value identified by the key and returns it; the key is
    /// recorded as changed if the store held it.
    pub fn remove(&mut self, key: &u64) -> (value: Option<V>)
        ensures
            final(self).items() == old(self).items().remove(*key),
            value == lookup(old(self).items(), *key),
            final(self).changed_keys() == if old(self).items().contains_key(*key) {
                old(self).changed_keys().insert(*key)
            } else {
                old(self).changed_keys()
            },
    {
        match map_remove_entry(&mut self.store, key) {
            Some((key, value)) => {
                set_insert(&mut self.changes, key);
                Some(value)
            },
            None => None,
        }
    }

    /// Removes the value identified by the key and returns both; the key is
    /// recorded as changed if the store held it.
    pub fn remove_entry(&mut self, key: &u64) -> (entry: Option<(u64, V)>)
        ensures
            final(self).items() == old(self).items().remove(*key),
            entry == match lookup(old(self).items(), *key) {
                Some(v) => Some((*key, v)),
                None => None,
            },
            final(self).changed_keys() == if old(self).items().contains_key(*key) {
                old(self).changed_keys().insert(*key)
            } else {
                old(self).changed_keys()
            },
    {
        let entry = map_remove_entry(&mut self.store, key);
        if let Some((key, _)) = &entry {
            set_insert(&mut self.changes, *key);
        }
        entry
    }

    /// Clears the store, removing all items, and clears all recorded changes.
    ///
    /// To learn which items are cleared, list the store with `keys` or `iter`
    /// before clearing it.
    pub fn clear(&mut self)
        ensures
            final(self).items() == Map::<u64, V>::empty(),
            final(self).changed_keys() == Set::<u64>::empty(),
    {
        set_clear(&mut self.changes);
        map_clear(&mut self.store);
    }

    /// Returns the items of the store, in the order the hash table lists them.
    pub fn iter(&self) -> (items: Vec<(&u64, &V)>)
        ensures
            lists_entries(self.items(), items@.map_values(|e: (&u64, &V)| (*e.0, *e.1))),
    {
        map_entries(&self.store)
    }

    /// Returns the keys of the store, in the order the hash table lists them.
    pub fn keys(&self) -> (keys: Vec<&u64>)
        ensures
            lists_keys(self.items(), keys@.map_values(|k: &u64| *k)),
    {
        keys_of(&self.store)
    }

    /// Returns the values of the store, in the order the hash table lists them.
    pub fn values(&self) -> (values: Vec<&V>)
        ensures
            lists_values(self.items(), values@.map_values(|v: &V| *v)),
    {
        values_of(&self.store)
    }

    /// Creates a store from pairs, a later pair for a key replacing an
    /// earlier one; no change is recorded.
    pub fn from_iter(items: Vec<(u64, V)>) -> (s: Self)
        ensures
            s.items() == map_of_pairs(items@),
            s.changed_keys() == Set::<u64>::empty(),
    {
        TrackedStore { store: from_pairs(items), changes: std::collections::HashSet::default() }
    }

    /// Consumes the store and returns its items, in the order the hash table
    /// lists them.
    pub fn into_iter(self) -> (items: Vec<(u64, V)>)
        ensures
            lists_entries(self.items(), items@),
    {
        map_into_entries(self.store)
    }
}

impl<V: Clone> Clone for TrackedStore<V> {
    /// Copies the store, cloning each value, and its recorded changes.
    fn clone(&self) -> (copy: Self)
        ensures
            copy.items().dom() == self.items().dom(),
            forall|k: u64| #[trigger]
                copy.items().contains_key(k) ==> cloned(self.items()[k], copy.items()[k]),
            copy.changed_keys() == self.changed_keys(),
    {
        TrackedStore { store: self.store.clone(), changes: set_clone(&self.changes) }
    }
}

impl<V> Default for TrackedStore<V> {
    /// Creates a tracking decorator over an empty store.
    fn default() -> (s: Self)
        ensures
            s.items() == Map::<u64, V>::empty(),
            s.changed_keys() == Set::<u64>::empty(),
    {
        Self::new()
    }
}

/// A read gives back what a write wrote: after `insert(key, value)` the store
/// gives `value` for `key`, and after a following `remove(key)` it gives
/// nothing for it; every other key keeps its value.
pub proof fn lemma_read_your_write<V>(
    before: TrackedStore<V>,
    inserted: TrackedStore<V>,
    removed: TrackedStore<V>,
    key: u64,
    value: V,
    other: u64,
)
    requires
        inserted.items() == before.items().insert(key, value),
        removed.items() == inserted.items().remove(key),
        other != key,
    ensures
        lookup(inserted.items(), key) == Some(value),
        lookup(removed.items(), key) == None::<V>,
        lookup(inserted.items(), other) == lookup(before.items(), other),
        lookup(removed.items(), other) == lookup(before.items(), other),
{
}

/// Subsequent insertions and removals of the same key are only recorded
/// once: after `insert(key, value)` and then `remove(key)`, the recorded keys
/// are those from before with `key` added.
pub proof fn lemma_recorded_once<V>(
    before: TrackedStore<V>,
    inserted: TrackedStore<V>,
    removed: TrackedStore<V>,
    key: u64,
    value: V,
)
    requires
        inserted.items() == before.items().insert(key, value),
        inserted.changed_keys() == before.changed_keys().insert(key),
        removed.changed_keys() == if inserted.items().contains_key(key) {
            inserted.changed_keys().insert(key)
        } else {
            inserted.changed_keys()
        },
    ensures
        removed.changed_keys() == before.changed_keys().insert(key),
{
    assert(removed.changed_keys() =~= before.changed_keys().insert(key));
}

/// Changes are returned since the last call only: the changes taken right
/// after `changes` was called are none.
pub proof fn lemma_changes_drained<'a, V>(store: TrackedStore<V>, next: Changes<'a, V>)
    requires
        store.changed_keys() == Set::<u64>::empty(),
        next.remaining().no_duplicates(),
        next.remaining().to_set() == store.changed_keys(),
    ensures
        next.remaining().len() == 0,
{
    if next.remaining().len() > 0 {
        assert(next.remaining().to_set().contains(next.remaining()[0]));
    }
}

/// A key that `remove` took out is reported by the next `changes`, without
/// a value.
pub proof fn lemma_removed_reported<'a, V>(
    before: TrackedStore<V>,
    after: TrackedStore<V>,
    key: u64,
    next: Changes<'a, V>,
)
    requires
        before.items().contains_key(key),
        after.items() == before.items().remove(key),
        after.changed_keys() == before.changed_keys().insert(key),
        next.items() == after.items(),
        next.remaining().to_set() == after.changed_keys(),
    ensures
        next.remaining().contains(key),
        lookup(next.items(), key) == None::<V>,
{
    assert(next.remaining().to_set().contains(key));
}

/// An unchanged value is not inserted again: after `insert_if_changed(key,
/// value)`, whatever it returned, the store holds a value equal to `value`
/// for `key`, so a second call with it reports no change.
pub proof fn lemma_insert_if_changed_settles(
    before: TrackedStore<u64>,
    after: TrackedStore<u64>,
    key: u64,
    value: u64,
    changed: bool,
)
    requires
        changed <==> !holds_equal(before.items(), key, value),
        changed ==> after.items() == before.items().insert(key, after.items()[key]) && cloned(
            value,
            after.items()[key],
        ),
        !changed ==> after.items() == before.items(),
    ensures
        holds_equal(after.items(), key, value),
{
}

/// `insert_if_changed` updates a key unless the store already holds the
/// given value for it: when the key holds another value or none, the call
/// reports a change, the store then holds the given value for the key,
/// every other key keeps its value, and the key is recorded as changed;
/// when it holds the given value, nothing changes.
pub proof fn lemma_insert_if_changed_updates(
    before: TrackedStore<u64>,
    after: TrackedStore<u64>,
    key: u64,
    value: u64,
    changed: bool,
)
    requires
        changed <==> !holds_equal(before.items(), key, value),
        changed ==> {
            &&& after.items() == before.items().insert(key, after.items()[key])
            &&& cloned(value, after.items()[key])
            &&& after.changed_keys() == before.changed_keys().insert(key)
        },
        !changed ==> after.items() == before.items() && after.changed_keys()
            == before.changed_keys(),
    ensures
        changed <==> lookup(before.items(), key) != Some(value),
        lookup(after.items(), key) == Some(value),
        forall|k: u64| k != key ==> lookup(after.items(), k) == lookup(before.items(), k),
        changed ==> after.changed_keys().contains(key),
        !changed ==> after.changed_keys() == before.changed_keys(),
{
    if changed {
        assert(after.items().contains_key(key));
    }
}

} // verus!
