//! A list of key and value pairs read as a map in which a later pair
//! overrides an earlier one with the same key.

use vstd::prelude::*;

verus! {

/// The map that a list of pairs stands for: the pairs are entered in
/// order, so of several pairs with one key the last one counts.
pub open spec fn assoc_map<K, V>(entries: Seq<(K, V)>) -> Map<K, V>
    decreases entries.len(),
{
    if entries.len() == 0 {
        Map::empty()
    } else {
        assoc_map(entries.drop_last()).insert(entries.last().0, entries.last().1)
    }
}

/// Appending a pair enters it into the map.
pub proof fn assoc_map_push<K, V>(entries: Seq<(K, V)>, key: K, value: V)
    ensures
        assoc_map(entries.push((key, value))) == assoc_map(entries).insert(key, value),
{
    assert(entries.push((key, value)).drop_last() =~= entries);
}

/// A key that no pair from position `from` on holds is looked up in the
/// pairs before `from` alone.
pub proof fn assoc_map_skip_tail<K, V>(entries: Seq<(K, V)>, from: int, key: K)
    requires
        0 <= from <= entries.len(),
        forall|j: int| from <= j < entries.len() ==> entries[j].0 != key,
    ensures
        assoc_map(entries).contains_key(key) == assoc_map(entries.take(from)).contains_key(key),
        assoc_map(entries).contains_key(key) ==> assoc_map(entries)[key] == assoc_map(
            entries.take(from),
        )[key],
    decreases entries.len() - from,
{
    if from == entries.len() {
        assert(entries.take(from) =~= entries);
    } else {
        let front = entries.drop_last();
        assert(front.take(from) =~= entries.take(from));
        assoc_map_skip_tail(front, from, key);
    }
}

/// The pair at position `at` decides its key when no later pair holds that
/// key.
pub proof fn assoc_map_last_occurrence<K, V>(entries: Seq<(K, V)>, at: int)
    requires
        0 <= at < entries.len(),
        forall|j: int| at < j < entries.len() ==> entries[j].0 != entries[at].0,
    ensures
        assoc_map(entries).contains_key(entries[at].0),
        assoc_map(entries)[entries[at].0] == entries[at].1,
{
    assoc_map_skip_tail(entries, at + 1, entries[at].0);
    assert(entries.take(at + 1).drop_last() =~= entries.take(at));
}

/// Replacing the value of the last pair that holds a key replaces the
/// value of that key in the map.
pub proof fn assoc_map_update<K, V>(entries: Seq<(K, V)>, at: int, value: V)
    requires
        0 <= at < entries.len(),
        forall|j: int| at < j < entries.len() ==> entries[j].0 != entries[at].0,
    ensures
        assoc_map(entries.update(at, (entries[at].0, value))) == assoc_map(entries).insert(
            entries[at].0,
            value,
        ),
    decreases entries.len(),
{
    let key = entries[at].0;
    let changed = entries.update(at, (key, value));
    let front = entries.drop_last();
    if at == entries.len() - 1 {
        assert(changed.drop_last() =~= front);
        assert(assoc_map(changed) =~= assoc_map(entries).insert(key, value));
    } else {
        assert(changed.drop_last() =~= front.update(at, (key, value)));
        assoc_map_update(front, at, value);
        assert(entries.last().0 != key);
        assert(assoc_map(changed) =~= assoc_map(entries).insert(key, value));
    }
}

} // verus!
