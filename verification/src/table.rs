//! Hash tables keyed by `u64`, hashed with `ahash`.
//!
//! The tables are the standard library's `HashMap` and `HashSet` with
//! `ahash::RandomState` as hasher, which is what `ahash::HashMap` and
//! `ahash::HashSet` name. Their contents are given by the standard views:
//! a `Map` for a table and a `Set` for a set. The functions here make the
//! calls into them; their contracts are trusted, not proved.
use vstd::prelude::*;

verus! {

/// The hasher builder of `ahash`; a value of it is opaque.
#[verifier::external_type_specification]
#[verifier::external_body]
pub struct ExAhashRandomState(ahash::RandomState);

/// Table from keys to values, as `ahash::HashMap` has it.
pub type KeyMap<V> = std::collections::HashMap<u64, V, ahash::RandomState>;

/// Set of keys, as `ahash::HashSet` has it.
pub type KeySet = std::collections::HashSet<u64, ahash::RandomState>;

/// The value that a table holds for a key, if any.
pub open spec fn lookup<V>(m: Map<u64, V>, k: u64) -> Option<V> {
    if m.contains_key(k) {
        Some(m[k])
    } else {
        None
    }
}

/// Calls `HashMap::get`. Claims that the result is a reference to the value
/// that the table holds for the key, and `None` where it holds none.
#[verifier::external_body]
pub(crate) fn map_get<'a, V>(m: &'a KeyMap<V>, k: &u64) -> (r: Option<&'a V>)
    ensures
        match r {
            Some(v) => m@.contains_key(*k) && *v == m@[*k],
            None => !m@.contains_key(*k),
        },
{
    m.get(k)
}

/// Calls `HashMap::contains_key`. Claims that the result says whether the
/// table holds the key.
#[verifier::external_body]
pub(crate) fn map_contains_key<V>(m: &KeyMap<V>, k: &u64) -> (r: bool)
    ensures
        r == m@.contains_key(*k),
{
    m.contains_key(k)
}

/// Calls `HashMap::len`. Claims that the result is the number of keys held.
#[verifier::external_body]
pub(crate) fn map_len<V>(m: &KeyMap<V>) -> (r: usize)
    ensures
        r == m@.len(),
{
    m.len()
}

/// Calls `HashMap::insert`. Claims that the table then maps the key to the
/// value, with every other key unchanged, and that the result is the value
/// held for the key before, if any.
#[verifier::external_body]
pub(crate) fn map_insert<V>(m: &mut KeyMap<V>, k: u64, v: V) -> (r: Option<V>)
    ensures
        final(m)@ == old(m)@.insert(k, v),
        r == lookup(old(m)@, k),
{
    m.insert(k, v)
}

/// Calls `HashMap::remove_entry`. Claims that a held key is removed and
/// returned with its value, and that a table without the key is unchanged.
#[verifier::external_body]
pub(crate) fn map_remove_entry<V>(m: &mut KeyMap<V>, k: &u64) -> (r: Option<(u64, V)>)
    ensures
        final(m)@ == old(m)@.remove(*k),
        match r {
            Some(entry) => old(m)@.contains_key(*k) && entry.0 == *k && entry.1 == old(m)@[*k],
            None => !old(m)@.contains_key(*k),
        },
{
    m.remove_entry(k)
}

/// Calls `HashMap::clear`. Claims that the table is then empty.
#[verifier::external_body]
pub(crate) fn map_clear<V>(m: &mut KeyMap<V>)
    ensures
        final(m)@.is_empty(),
{
    m.clear()
}

/// The entries of a table listed in `entries`, each key once, in some order.
pub open spec fn lists_entries<V>(m: Map<u64, V>, entries: Seq<(u64, V)>) -> bool {
    &&& entries.len() == m.len()
    &&& forall|i: int, j: int|
        0 <= i < entries.len() && 0 <= j < entries.len() && i != j ==> entries[i].0 != entries[j].0
    &&& forall|i: int|
        0 <= i < entries.len() ==> m.contains_key(#[trigger] entries[i].0) && m[entries[i].0]
            == entries[i].1
    &&& forall|k: u64| #[trigger]
        m.contains_key(k) ==> exists|i: int| 0 <= i < entries.len() && #[trigger] entries[i].0 == k
}

/// Calls `HashMap::iter` and collects what it yields. Claims that the result
/// lists every entry of the table once, in an order that the hasher decides.
#[verifier::external_body]
pub(crate) fn map_entries<'a, V>(m: &'a KeyMap<V>) -> (r: Vec<(&'a u64, &'a V)>)
    ensures
        lists_entries(m@, r@.map_values(|e: (&'a u64, &'a V)| (*e.0, *e.1))),
{
    m.iter().collect()
}

/// Calls `HashMap::into_iter` and collects what it yields. Claims that the
/// result lists every entry of the table once, in an order that the hasher
/// decides.
#[verifier::external_body]
pub(crate) fn map_into_entries<V>(m: KeyMap<V>) -> (r: Vec<(u64, V)>)
    ensures
        lists_entries(m@, r@),
{
    m.into_iter().collect()
}

/// Calls `HashSet::insert`. Claims that the set then holds the key, and that
/// the result says whether it did not before.
#[verifier::external_body]
pub(crate) fn set_insert(s: &mut KeySet, k: u64) -> (r: bool)
    ensures
        final(s)@ == old(s)@.insert(k),
        r == !old(s)@.contains(k),
{
    s.insert(k)
}

/// Calls `HashSet::contains`. Claims that the result says whether the set
/// holds the key.
#[verifier::external_body]
pub(crate) fn set_contains(s: &KeySet, k: &u64) -> (r: bool)
    ensures
        r == s@.contains(*k),
{
    s.contains(k)
}

/// Calls `HashSet::clear`. Claims that the set is then empty.
#[verifier::external_body]
pub(crate) fn set_clear(s: &mut KeySet)
    ensures
        final(s)@ == Set::<u64>::empty(),
{
    s.clear()
}

/// Calls `HashSet::clone`. Claims that the copy holds the same keys.
#[verifier::external_body]
pub(crate) fn set_clone(s: &KeySet) -> (r: KeySet)
    ensures
        r@ == s@,
{
    s.clone()
}

/// Calls `HashSet::iter` and collects what it yields. Claims that the result
/// lists every key of the set once, in an order that the hasher decides.
#[verifier::external_body]
pub(crate) fn set_elements(s: &KeySet) -> (r: Vec<u64>)
    ensures
        r@.no_duplicates(),
        r@.to_set() == s@,
{
    s.iter().copied().collect()
}

} // verus!
