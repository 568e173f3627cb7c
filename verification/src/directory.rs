//! A list of keyed entries read as a map from key to value.
//!
//! The registries keep their topics in a list and promise that no two share
//! a name; their contracts speak of the map that the list stands for.

use vstd::prelude::*;

verus! {

/// No two entries have the same key.
pub open spec fn distinct_keys<K, V>(entries: Seq<(K, V)>) -> bool {
    forall|i: int, j: int|
        0 <= i < j < entries.len() ==> (#[trigger] entries[i]).0 != (#[trigger] entries[j]).0
}

/// The map that takes each entry's key to its value. Where a key occurs
/// more than once, its last entry counts.
pub open spec fn as_map<K, V>(entries: Seq<(K, V)>) -> Map<K, V>
    decreases entries.len(),
{
    if entries.len() == 0 {
        Map::empty()
    } else {
        as_map(entries.drop_last()).insert(entries.last().0, entries.last().1)
    }
}

/// All but the last entry of a list with distinct keys have distinct keys.
pub proof fn lemma_distinct_keys_drop_last<K, V>(entries: Seq<(K, V)>)
    requires
        distinct_keys(entries),
        entries.len() > 0,
    ensures
        distinct_keys(entries.drop_last()),
{
    let front = entries.drop_last();
    assert forall|a: int, b: int| 0 <= a < b < front.len() implies (#[trigger] front[a]).0 != (
    #[trigger] front[b]).0 by {
        assert(entries[a].0 != entries[b].0);
    }
}

/// The keys of the map are the keys of the entries.
pub proof fn lemma_as_map_keys<K, V>(entries: Seq<(K, V)>, key: K)
    ensures
        as_map(entries).contains_key(key) <==> exists|i: int|
            0 <= i < entries.len() && (#[trigger] entries[i]).0 == key,
    decreases entries.len(),
{
    if entries.len() > 0 {
        let front = entries.drop_last();
        lemma_as_map_keys(front, key);
        if as_map(entries).contains_key(key) {
            if entries.last().0 == key {
                assert(entries[entries.len() - 1].0 == key);
            } else {
                let i = choose|i: int| 0 <= i < front.len() && (#[trigger] front[i]).0 == key;
                assert(entries[i].0 == key);
            }
        }
        if exists|i: int| 0 <= i < entries.len() && (#[trigger] entries[i]).0 == key {
            let i = choose|i: int| 0 <= i < entries.len() && (#[trigger] entries[i]).0 == key;
            if i < front.len() {
                assert(front[i].0 == key);
            }
        }
    }
}

/// With distinct keys, the map holds every entry's value under its key.
pub proof fn lemma_as_map_entry<K, V>(entries: Seq<(K, V)>, i: int)
    requires
        distinct_keys(entries),
        0 <= i < entries.len(),
    ensures
        as_map(entries).contains_key(entries[i].0),
        as_map(entries)[entries[i].0] == entries[i].1,
    decreases entries.len(),
{
    if i < entries.len() - 1 {
        lemma_distinct_keys_drop_last(entries);
        lemma_as_map_entry(entries.drop_last(), i);
        assert(entries.drop_last()[i] == entries[i]);
        assert(entries[i].0 != entries[entries.len() - 1].0);
    }
}

/// Appending an entry inserts it into the map; under a key that no entry
/// has yet, the keys stay distinct.
pub proof fn lemma_as_map_push<K, V>(entries: Seq<(K, V)>, key: K, value: V)
    ensures
        as_map(entries.push((key, value))) == as_map(entries).insert(key, value),
        distinct_keys(entries) && !as_map(entries).contains_key(key) ==> distinct_keys(
            entries.push((key, value)),
        ),
{
    let after = entries.push((key, value));
    assert(after.drop_last() =~= entries);
    lemma_as_map_keys(entries, key);
    if distinct_keys(entries) && !as_map(entries).contains_key(key) {
        assert forall|a: int, b: int| 0 <= a < b < after.len() implies (#[trigger] after[a]).0 != (
        #[trigger] after[b]).0 by {
            if b < entries.len() {
                assert(entries[a].0 != entries[b].0);
            } else {
                assert(entries[a].0 != key);
            }
        }
    }
}

/// With distinct keys, replacing the value of an entry replaces it in the
/// map, and the keys stay distinct.
pub proof fn lemma_as_map_update<K, V>(entries: Seq<(K, V)>, i: int, value: V)
    requires
        distinct_keys(entries),
        0 <= i < entries.len(),
    ensures
        distinct_keys(entries.update(i, (entries[i].0, value))),
        as_map(entries.update(i, (entries[i].0, value))) == as_map(entries).insert(
            entries[i].0,
            value,
        ),
    decreases entries.len(),
{
    let entry = (entries[i].0, value);
    let after = entries.update(i, entry);
    assert(distinct_keys(after)) by {
        assert forall|a: int, b: int| 0 <= a < b < after.len() implies (#[trigger] after[a]).0 != (
        #[trigger] after[b]).0 by {
            assert(entries[a].0 != entries[b].0);
        }
    }
    let front = entries.drop_last();
    lemma_distinct_keys_drop_last(entries);
    if i == entries.len() - 1 {
        assert(after.drop_last() =~= front);
        assert(as_map(after) =~= as_map(entries).insert(entries[i].0, value));
    } else {
        lemma_as_map_update(front, i, value);
        assert(after.drop_last() =~= front.update(i, entry));
        assert(front[i] == entries[i]);
        assert(entries[i].0 != entries[entries.len() - 1].0);
        assert(as_map(after) =~= as_map(entries).insert(entries[i].0, value));
    }
}

/// With distinct keys, the map has as many keys as the list has entries.
pub proof fn lemma_as_map_size<K, V>(entries: Seq<(K, V)>)
    requires
        distinct_keys(entries),
    ensures
        as_map(entries).dom().finite(),
        as_map(entries).dom().len() == entries.len(),
    decreases entries.len(),
{
    if entries.len() > 0 {
        let front = entries.drop_last();
        lemma_distinct_keys_drop_last(entries);
        lemma_as_map_size(front);
        lemma_as_map_keys(front, entries.last().0);
        if as_map(front).contains_key(entries.last().0) {
            let i = choose|i: int|
                0 <= i < front.len() && (#[trigger] front[i]).0 == entries.last().0;
            assert(entries[i].0 != entries[entries.len() - 1].0);
        }
        assert(as_map(entries).dom() =~= as_map(front).dom().insert(entries.last().0));
    } else {
        assert(as_map(entries).dom() =~= Set::empty());
    }
}

/// The entries with every value replaced by its image under `change`.
pub open spec fn with_values<K, V>(entries: Seq<(K, V)>, change: spec_fn(V) -> V) -> Seq<(K, V)> {
    Seq::new(entries.len(), |i: int| (entries[i].0, change(entries[i].1)))
}

/// Changing every value changes every value of the map, and keeps the keys.
pub proof fn lemma_as_map_with_values<K, V>(entries: Seq<(K, V)>, change: spec_fn(V) -> V)
    ensures
        distinct_keys(entries) ==> distinct_keys(with_values(entries, change)),
        as_map(with_values(entries, change)) == as_map(entries).map_values(change),
    decreases entries.len(),
{
    let after = with_values(entries, change);
    if distinct_keys(entries) {
        assert forall|a: int, b: int| 0 <= a < b < after.len() implies (#[trigger] after[a]).0 != (
        #[trigger] after[b]).0 by {
            assert(entries[a].0 != entries[b].0);
        }
    }
    if entries.len() > 0 {
        lemma_as_map_with_values(entries.drop_last(), change);
        assert(after.drop_last() =~= with_values(entries.drop_last(), change));
    }
    assert(as_map(after) =~= as_map(entries).map_values(change));
}

} // verus!
