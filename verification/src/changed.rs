//! Change-recording decorator, adding change tracking to a store.
use vstd::prelude::*;
use vstd::std_specs::cmp::PartialEqSpec;

use crate::store::{
    deref_value, from_pairs, holds_equal, keys_of, lists_keys, lists_values, map_of_pairs,
    values_of,
};
use crate::table::{
    lists_entries, lookup, map_clear, map_contains_key, map_entries, map_get, map_insert,
    map_into_entries, map_len, map_remove_entry, set_clear, set_contains, set_elements, set_insert,
    KeyMap, KeySet,
};

verus! {

/// Change-recording decorator over a hash table of items.
///
/// Only the keys of changed items are recorded, so subsequent insertions and
/// removals of the same key are only recorded once. Changes are not recorded
/// chronologically: they are returned in the order the hash set lists them.
/// Clearing the store records every key it held as changed.
#[derive(Debug)]
pub struct Changed<V> {
    /// Underlying store.
    store: KeyMap<V>,
    /// Keys of changed items.
    changes: KeySet,
}

impl<V> Changed<V> {
    /// The items of the store.
    pub closed spec fn items(&self) -> Map<u64, V> {
        self.store@
    }

    /// The keys recorded as changed since changes were last taken.
    pub closed spec fn changed_keys(&self) -> Set<u64> {
        self.changes@
    }

    /// Creates a change-recording decorator over an empty store.
    pub fn new() -> (s: Self)
        ensures
            s.items() == Map::<u64, V>::empty(),
            s.changed_keys() == Set::<u64>::empty(),
    {
        Changed {
            store: std::collections::HashMap::default(),
            changes: std::collections::HashSet::default(),
        }
    }

    /// Returns the changes recorded since the last call, and forgets them.
    ///
    /// Each changed key comes once, with the value the store now holds for
    /// it, or `None` if it was removed.
    pub fn changes(&mut self) -> (changes: Vec<(u64, Option<&V>)>)
        ensures
            final(self).items() == old(self).items(),
            final(self).changed_keys() == Set::<u64>::empty(),
            changes@.map_values(|c: (u64, Option<&V>)| c.0).no_duplicates(),
            changes@.map_values(|c: (u64, Option<&V>)| c.0).to_set() == old(self).changed_keys(),
            forall|i: int|
                0 <= i < changes@.len() ==> deref_value(#[trigger] changes@[i].1) == lookup(
                    old(self).items(),
                    changes@[i].0,
                ),
    {
        let keys = set_elements(&self.changes);
        set_clear(&mut self.changes);
        let mut changes: Vec<(u64, Option<&V>)> = Vec::new();
        let mut i: usize = 0;
        while i < keys.len()
            invariant
                i <= keys@.len(),
                changes@.map_values(|c: (u64, Option<&V>)| c.0) == keys@.take(i as int),
                forall|j: int|
                    0 <= j < changes@.len() ==> deref_value(#[trigger] changes@[j].1) == lookup(
                        self.store@,
                        changes@[j].0,
                    ),
            decreases keys@.len() - i,
        {
            let key = keys[i];
            let value = map_get(&self.store, &key);
            changes.push((key, value));
            proof {
                assert(keys@.take(i + 1) =~= keys@.take(i as int).push(key));
                assert(changes@.map_values(|c: (u64, Option<&V>)| c.0) =~= keys@.take(i + 1));
            }
            i += 1;
        }
        proof {
            assert(keys@.take(keys@.len() as int) =~= keys@);
        }
        changes
    }

    /// Returns a reference to the value identified by the key.
    pub fn get(&self, key: &u64) -> (value: Option<&V>)
        ensures
            deref_value(value) == lookup(self.items(), *key),
    {
        map_get(&self.store, key)
    }

    /// Returns whether the store contains the key.
    pub fn contains_key(&self, key: &u64) -> (contained: bool)
        ensures
            contained == self.items().contains_key(*key),
    {
        map_contains_key(&self.store, key)
    }

    /// Returns the number of items.
    pub fn len(&self) -> (n: usize)
        ensures
            n == self.items().len(),
    {
        map_len(&self.store)
    }

    /// Returns whether the store holds no items.
    pub fn is_empty(&self) -> (empty: bool)
        ensures
            empty == (self.items().len() == 0),
    {
        map_len(&self.store) == 0
    }

    /// Updates the value identified by the key, records the key as changed,
    /// and returns the value held before, if any.
    pub fn insert(&mut self, key: u64, value: V) -> (previous: Option<V>)
        ensures
            final(self).items() == old(self).items().insert(key, value),
            final(self).changed_keys() == old(self).changed_keys().insert(key),
            previous == lookup(old(self).items(), key),
    {
        set_insert(&mut self.changes, key);
        map_insert(&mut self.store, key, value)
    }

    /// Updates the value identified by the key if it changed, and records the
    /// key as changed only then.
    pub fn insert_if_changed(&mut self, key: &u64, value: &V) -> (changed: bool)
        where V: Clone + Eq,
        ensures
            V::obeys_eq_spec() ==> (changed <==> !holds_equal(old(self).items(), *key, *value)),
            changed ==> {
                &&& final(self).items() == old(self).items().insert(*key, final(self).items()[*key])
                &&& cloned(*value, final(self).items()[*key])
                &&& final(self).changed_keys() == old(self).changed_keys().insert(*key)
            },
            !changed ==> final(self).items() == old(self).items() && final(self).changed_keys()
                == old(self).changed_keys(),
    {
        if crate::store::insert_if_changed(&mut self.store, key, value) {
            set_insert(&mut self.changes, *key);
            true
        } else {
            false
        }
    }

    /// Removes the value identified by the key and returns it; the key is
    /// recorded as changed if the store held it.
    pub fn remove(&mut self, key: &u64) -> (value: Option<V>)
        ensures
            final(self).items() == old(self).items().remove(*key),
            value == lookup(old(self).items(), *key),
            final(self).changed_keys() == if old(self).items().contains_key(*key) {
                old(self).changed_keys().insert(*key)
            } else {
                old(self).changed_keys()
            },
    {
        match map_remove_entry(&mut self.store, key) {
            Some((key, value)) => {
                set_insert(&mut self.changes, key);
                Some(value)
            },
            None => None,
        }
    }

    /// Removes the value identified by the key and returns both; the key is
    /// recorded as changed if the store held it.
    pub fn remove_entry(&mut self, key: &u64) -> (entry: Option<(u64, V)>)
        ensures
            final(self).items() == old(self).items().remove(*key),
            entry == match lookup(old(self).items(), *key) {
                Some(v) => Some((*key, v)),
                None => None,
            },
            final(self).changed_keys() == if old(self).items().contains_key(*key) {
                old(self).changed_keys().insert(*key)
            } else {
                old(self).changed_keys()
            },
    {
        let entry = map_remove_entry(&mut self.store, key);
        if let Some((key, _)) = &entry {
            set_insert(&mut self.changes, *key);
        }
        entry
    }

    /// Clears the store, removing all items and recording every key it held
    /// as changed.
    pub fn clear(&mut self)
        ensures
            final(self).items() == Map::<u64, V>::empty(),
            final(self).changed_keys() == old(self).changed_keys().union(old(self).items().dom()),
    {
        let keys = keys_of(&self.store);
        let ghost listed = keys@.map_values(|k: &u64| *k);
        let mut i: usize = 0;
        while i < keys.len()
            invariant
                i <= keys@.len(),
                listed == keys@.map_values(|k: &u64| *k),
                self.store@ == old(self).store@,
                self.changes@ == old(self).changes@.union(listed.take(i as int).to_set()),
            decreases keys@.len() - i,
        {
            let key = keys[i];
            if !set_contains(&self.changes, key) {
                set_insert(&mut self.changes, *key);
            }
            proof {
                assert(listed[i as int] == *key);
                assert(listed.take(i + 1) =~= listed.take(i as int).push(*key));
                listed.take(i as int).lemma_push_to_set_commute(*key);
                assert(listed.take(i + 1).to_set() =~= listed.take(i as int).to_set().insert(*key));
                assert(self.changes@ =~= old(self).changes@.union(listed.take(i + 1).to_set()));
            }
            i += 1;
        }
        proof {
            assert(listed.take(listed.len() as int) =~= listed);
            assert(lists_keys(old(self).store@, listed));
        }
        map_clear(&mut self.store);
        proof {
            assert(self.store@ =~= Map::<u64, V>::empty());
        }
    }

    /// Returns the items of the store, in the order the hash table lists them.
    pub fn iter(&self) -> (items: Vec<(&u64, &V)>)
        ensures
            lists_entries(self.items(), items@.map_values(|e: (&u64, &V)| (*e.0, *e.1))),
    {
        map_entries(&self.store)
    }

    /// Returns the keys of the store, in the order the hash table lists them.
    pub fn keys(&self) -> (keys: Vec<&u64>)
        ensures
            lists_keys(self.items(), keys@.map_values(|k: &u64| *k)),
    {
        keys_of(&self.store)
    }

    /// Returns the values of the store, in the order the hash table lists them.
    pub fn values(&self) -> (values: Vec<&V>)
        ensures
            lists_values(self.items(), values@.map_values(|v: &V| *v)),
    {
        values_of(&self.store)
    }

    /// Creates a store from pairs, a later pair for a key replacing an
    /// earlier one; no change is recorded.
    pub fn from_iter(items: Vec<(u64, V)>) -> (s: Self)
        ensures
            s.items() == map_of_pairs(items@),
            s.changed_keys() == Set::<u64>::empty(),
    {
        Changed { store: from_pairs(items), changes: std::collections::HashSet::default() }
    }

    /// Consumes the store and returns its items, in the order the hash table
    /// lists them.
    pub fn into_iter(self) -> (items: Vec<(u64, V)>)
        ensures
            lists_entries(self.items(), items@),
    {
        map_into_entries(self.store)
    }
}

impl<V> Default for Changed<V> {
    /// Creates a change-recording decorator over an empty store.
    fn default() -> (s: Self)
        ensures
            s.items() == Map::<u64, V>::empty(),
            s.changed_keys() == Set::<u64>::empty(),
    {
        Self::new()
    }
}

/// Clearing reports every key that the store held as changed, and the
/// store then gives no value for it.
pub proof fn lemma_clear_reports_all<V>(before: Changed<V>, after: Changed<V>, key: u64)
    requires
        before.items().contains_key(key),
        after.items() == Map::<u64, V>::empty(),
        after.changed_keys() == before.changed_keys().union(before.items().dom()),
    ensures
        after.changed_keys().contains(key),
        lookup(after.items(), key) == None::<V>,
{
}

/// `insert_if_changed` updates a key unless the store already holds the
/// given value for it: when the key holds another value or none, the call
/// reports a change, the store then holds the given value for the key,
/// every other key keeps its value, and the key is recorded as changed;
/// when it holds the given value, nothing changes.
pub proof fn lemma_insert_if_changed_updates(
    before: Changed<u64>,
    after: Changed<u64>,
    key: u64,
    value: u64,
    changed: bool,
)
    requires
        changed <==> !holds_equal(before.items(), key, value),
        changed ==> {
            &&& after.items() == before.items().insert(key, after.items()[key])
            &&& cloned(value, after.items()[key])
            &&& after.changed_keys() == before.changed_keys().insert(key)
        },
        !changed ==> after.items() == before.items() && after.changed_keys()
            == before.changed_keys(),
    ensures
        changed <==> lookup(before.items(), key) != Some(value),
        lookup(after.items(), key) == Some(value),
        forall|k: u64| k != key ==> lookup(after.items(), k) == lookup(before.items(), k),
        changed ==> after.changed_keys().contains(key),
        !changed ==> after.changed_keys() == before.changed_keys(),
{
    if changed {
        assert(after.items().contains_key(key));
    }
}

} // verus!
