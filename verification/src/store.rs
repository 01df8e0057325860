//! Operations on a hash table of items that the stores share.
use vstd::prelude::*;
use vstd::std_specs::cmp::PartialEqSpec;

use crate::table::{lists_entries, lookup, map_entries, map_get, map_insert, KeyMap};

verus! {

/// The table that results from inserting the pairs in order, so that a
/// later pair for a key replaces an earlier one.
pub open spec fn map_of_pairs<V>(pairs: Seq<(u64, V)>) -> Map<u64, V>
    decreases pairs.len(),
{
    if pairs.len() == 0 {
        Map::empty()
    } else {
        map_of_pairs(pairs.drop_last()).insert(pairs.last().0, pairs.last().1)
    }
}

/// The value behind an optional reference.
pub open spec fn deref_value<V>(o: Option<&V>) -> Option<V> {
    match o {
        Some(v) => Some(*v),
        None => None,
    }
}

/// The keys listed in `keys` are those of `m`, each once.
pub open spec fn lists_keys<V>(m: Map<u64, V>, keys: Seq<u64>) -> bool {
    &&& keys.no_duplicates()
    &&& keys.to_set() == m.dom()
}

/// The values listed in `values` are those of `m`, one for each key.
pub open spec fn lists_values<V>(m: Map<u64, V>, values: Seq<V>) -> bool {
    exists|keys: Seq<u64>|
        {
            &&& lists_keys(m, keys)
            &&& keys.len() == values.len()
            &&& forall|i: int| 0 <= i < keys.len() ==> m[#[trigger] keys[i]] == values[i]
        }
}

/// The table holds the value for the key: the item was inserted, and an
/// equal value is not inserted again.
pub open spec fn holds_equal<V: PartialEq>(m: Map<u64, V>, key: u64, value: V) -> bool {
    m.contains_key(key) && m[key].eq_spec(&value)
}

/// Building from pairs keeps, for every key that occurs in them, the value
/// of the last pair with that key, and holds no key that occurs in none.
pub proof fn lemma_pairs_last_wins<V>(pairs: Seq<(u64, V)>)
    ensures
        forall|i: int|
            0 <= i < pairs.len() && (forall|j: int| i < j < pairs.len() ==> pairs[j].0 != pairs[i].0)
                ==> map_of_pairs(pairs).contains_key(#[trigger] pairs[i].0) && map_of_pairs(
                pairs,
            )[pairs[i].0] == pairs[i].1,
        forall|k: u64| #[trigger]
            map_of_pairs(pairs).contains_key(k) ==> exists|i: int|
                0 <= i < pairs.len() && #[trigger] pairs[i].0 == k,
    decreases pairs.len(),
{
    if pairs.len() > 0 {
        let rest = pairs.drop_last();
        lemma_pairs_last_wins(rest);
        let last = pairs.last();
        assert forall|i: int|
            0 <= i < pairs.len() && (forall|j: int| i < j < pairs.len() ==> pairs[j].0 != pairs[i].0)
                implies map_of_pairs(pairs).contains_key(#[trigger] pairs[i].0) && map_of_pairs(
                pairs,
            )[pairs[i].0] == pairs[i].1 by {
            if i < pairs.len() - 1 {
                assert(pairs[i] == rest[i]);
                assert(pairs[pairs.len() - 1].0 != pairs[i].0);
                assert forall|j: int| i < j < rest.len() implies rest[j].0 != rest[i].0 by {
                    assert(rest[j] == pairs[j]);
                }
            }
        }
        assert forall|k: u64| #[trigger] map_of_pairs(pairs).contains_key(k) implies exists|i: int|
            0 <= i < pairs.len() && #[trigger] pairs[i].0 == k by {
            if k == last.0 {
                assert(pairs[pairs.len() - 1].0 == k);
            } else {
                assert(map_of_pairs(rest).contains_key(k));
                let i = choose|i: int| 0 <= i < rest.len() && #[trigger] rest[i].0 == k;
                assert(pairs[i] == rest[i]);
            }
        }
    }
}

/// Appending a pair for a key makes that pair's value the one held for it.
pub proof fn lemma_pairs_push<V>(pairs: Seq<(u64, V)>, key: u64, value: V)
    ensures
        map_of_pairs(pairs.push((key, value))).contains_key(key),
        map_of_pairs(pairs.push((key, value)))[key] == value,
{
    assert(pairs.push((key, value)).drop_last() =~= pairs);
}

/// Whether the table holds a value equal to the given one for a key depends
/// on that key's entry alone, and for `u64` values means holding that very
/// value.
pub proof fn lemma_holds_equal_is_entry<V: PartialEq>(m: Map<u64, V>, key: u64, value: V, n: Map<u64, u64>, w: u64)
    ensures
        m.contains_key(key) ==> holds_equal(m, key, value) == holds_equal(
            Map::<u64, V>::empty().insert(key, m[key]),
            key,
            value,
        ),
        !m.contains_key(key) ==> !holds_equal(m, key, value),
        holds_equal(n, key, w) <==> (n.contains_key(key) && n[key] == w),
{
}

/// The keys of a listing of the entries of a table list the table's keys.
proof fn lemma_listed_keys<V>(m: Map<u64, V>, listed: Seq<(u64, V)>)
    requires
        lists_entries(m, listed),
    ensures
        lists_keys(m, listed.map_values(|e: (u64, V)| e.0)),
{
    let ks = listed.map_values(|e: (u64, V)| e.0);
        assert(ks.no_duplicates()) by {
            assert forall|a: int, b: int| 0 <= a < ks.len() && 0 <= b < ks.len() && a != b implies ks[a]
                != ks[b] by {
                assert(ks[a] == listed[a].0 && ks[b] == listed[b].0);
            }
        }
        assert(ks.to_set() =~= m.dom()) by {
            assert forall|k: u64| ks.to_set().contains(k) implies m.dom().contains(k) by {
                let a = choose|a: int| 0 <= a < ks.len() && ks[a] == k;
                assert(ks[a] == listed[a].0);
            }
            assert forall|k: u64| m.dom().contains(k) implies ks.to_set().contains(k) by {
                assert(m.contains_key(k));
                let a = choose|a: int| 0 <= a < listed.len() && #[trigger] listed[a].0 == k;
                assert(ks[a] == k);
            }
        }
}

/// Creates a table from pairs, a later pair for a key replacing an earlier one.
pub(crate) fn from_pairs<V>(items: Vec<(u64, V)>) -> (m: KeyMap<V>)
    ensures
        m@ == map_of_pairs(items@),
{
    let ghost pairs = items@;
    let mut m: KeyMap<V> = std::collections::HashMap::default();
    for entry in it: items.into_iter()
        invariant
            it.seq() == pairs,
            m@ == map_of_pairs(pairs.take(it.index() as int)),
    {
        let ghost i = it.index() as int;
        let (key, value) = entry;
        map_insert(&mut m, key, value);
        proof {
            assert(pairs.take(i + 1).drop_last() =~= pairs.take(i));
        }
    }
    proof {
        assert(pairs.take(pairs.len() as int) =~= pairs);
    }
    m
}

/// Returns the keys of a table, in the order in which the table lists them.
pub(crate) fn keys_of<V>(m: &KeyMap<V>) -> (keys: Vec<&u64>)
    ensures
        lists_keys(m@, keys@.map_values(|k: &u64| *k)),
{
    let entries = map_entries(m);
    let ghost listed = entries@.map_values(|e: (&u64, &V)| (*e.0, *e.1));
    let mut keys: Vec<&u64> = Vec::new();
    let mut i: usize = 0;
    while i < entries.len()
        invariant
            i <= entries@.len(),
            listed == entries@.map_values(|e: (&u64, &V)| (*e.0, *e.1)),
            lists_entries(m@, listed),
            keys@.map_values(|k: &u64| *k) == listed.take(i as int).map_values(
                |e: (u64, V)| e.0,
            ),
        decreases entries@.len() - i,
    {
        let ghost before = keys@;
        keys.push(entries[i].0);
        proof {
            assert(listed[i as int].0 == *entries@[i as int].0);
            assert(keys@ == before.push(entries@[i as int].0));
            assert(keys@.map_values(|k: &u64| *k) =~= before.map_values(|k: &u64| *k).push(
                *entries@[i as int].0,
            ));
            assert(listed.take(i + 1) =~= listed.take(i as int).push(listed[i as int]));
            assert(keys@.map_values(|k: &u64| *k) =~= listed.take(i + 1).map_values(
                |e: (u64, V)| e.0,
            ));
        }
        i += 1;
    }
    proof {
        assert(listed.take(listed.len() as int) =~= listed);
        lemma_listed_keys(m@, listed);
    }
    keys
}

/// Returns the values of a table, in the order in which the table lists them.
pub(crate) fn values_of<V>(m: &KeyMap<V>) -> (values: Vec<&V>)
    ensures
        lists_values(m@, values@.map_values(|v: &V| *v)),
{
    let entries = map_entries(m);
    let ghost listed = entries@.map_values(|e: (&u64, &V)| (*e.0, *e.1));
    let mut values: Vec<&V> = Vec::new();
    let mut i: usize = 0;
    while i < entries.len()
        invariant
            i <= entries@.len(),
            listed == entries@.map_values(|e: (&u64, &V)| (*e.0, *e.1)),
            lists_entries(m@, listed),
            values@.map_values(|v: &V| *v) == listed.take(i as int).map_values(
                |e: (u64, V)| e.1,
            ),
        decreases entries@.len() - i,
    {
        let ghost before = values@;
        values.push(entries[i].1);
        proof {
            assert(listed[i as int].1 == *entries@[i as int].1);
            assert(values@ == before.push(entries@[i as int].1));
            assert(values@.map_values(|v: &V| *v) =~= before.map_values(|v: &V| *v).push(
                *entries@[i as int].1,
            ));
            assert(listed.take(i + 1) =~= listed.take(i as int).push(listed[i as int]));
            assert(values@.map_values(|v: &V| *v) =~= listed.take(i + 1).map_values(
                |e: (u64, V)| e.1,
            ));
        }
        i += 1;
    }
    proof {
        let vs = values@.map_values(|v: &V| *v);
        let ks = listed.map_values(|e: (u64, V)| e.0);
        assert(listed.take(listed.len() as int) =~= listed);
        lemma_listed_keys(m@, listed);
        assert forall|a: int| 0 <= a < ks.len() implies m@[#[trigger] ks[a]] == vs[a] by {
            assert(ks[a] == listed[a].0 && vs[a] == listed[a].1);
        }
    }
    values
}

/// Updates the value identified by the key if it changed, and reports
/// whether it did: a value equal to the one held is not inserted again.
pub(crate) fn insert_if_changed<V: Clone + Eq>(m: &mut KeyMap<V>, key: &u64, value: &V) -> (changed: bool)
    ensures
        V::obeys_eq_spec() ==> (changed <==> !holds_equal(old(m)@, *key, *value)),
        changed ==> final(m)@ == old(m)@.insert(*key, final(m)@[*key]) && cloned(
            *value,
            final(m)@[*key],
        ),
        !changed ==> final(m)@ == old(m)@ && old(m)@.contains_key(*key),
{
    let unchanged = match map_get(m, key) {
        Some(current) => *current == *value,
        None => false,
    };
    if unchanged {
        false
    } else {
        let copy = value.clone();
        map_insert(m, *key, copy);
        proof {
            assert(final(m)@[*key] == copy);
        }
        true
    }
}

} // verus!
