//! Keys in a row: the bookkeeping shared by the maps of this crate, which
//! keep their keys in a vector and the values beside them.

use vstd::prelude::*;

verus! {

/// Where `key` stands in `keys`, or `keys.len()` where it does not.
pub open spec fn slot<K>(keys: Seq<K>, key: K) -> int {
    if exists|i: int| 0 <= i < keys.len() && keys[i] == key {
        choose|i: int| 0 <= i < keys.len() && keys[i] == key
    } else {
        keys.len() as int
    }
}

/// No key stands twice.
pub open spec fn distinct<K>(keys: Seq<K>) -> bool {
    forall|i: int, j: int| 0 <= i < j < keys.len() ==> keys[i] != keys[j]
}

/// The map that holds, under each key of `keys`, the value beside it.
pub open spec fn keyed<K, V>(keys: Seq<K>, values: Seq<V>) -> Map<K, V> {
    Map::new(|key: K| slot(keys, key) < keys.len(), |key: K| values[slot(keys, key)])
}

/// A key that stands at `at` has its slot there.
pub proof fn lemma_slot_at<K>(keys: Seq<K>, at: int)
    requires
        distinct(keys),
        0 <= at < keys.len(),
    ensures
        slot(keys, keys[at]) == at,
{
    let found = slot(keys, keys[at]);
    assert(0 <= found < keys.len() && keys[found] == keys[at]);
}

/// Putting a value in the place of another changes the map at that key only.
pub proof fn lemma_keyed_update<K, V>(keys: Seq<K>, values: Seq<V>, at: int, value: V)
    requires
        distinct(keys),
        values.len() == keys.len(),
        0 <= at < keys.len(),
    ensures
        keyed(keys, values.update(at, value)) == keyed(keys, values).insert(keys[at], value),
{
    lemma_slot_at(keys, at);
    assert(keyed(keys, values.update(at, value)) =~= keyed(keys, values).insert(
        keys[at],
        value,
    ));
}

/// Appending a key that is new, and its value, adds that key to the map and
/// keeps the keys distinct.
pub proof fn lemma_keyed_push<K, V>(keys: Seq<K>, values: Seq<V>, key: K, value: V)
    requires
        distinct(keys),
        values.len() == keys.len(),
        slot(keys, key) == keys.len(),
    ensures
        distinct(keys.push(key)),
        keyed(keys.push(key), values.push(value)) == keyed(keys, values).insert(key, value),
{
    let n = keys.len() as int;
    let more = keys.push(key);
    assert(more[n] == key);
    assert forall|i: int| 0 <= i < n implies keys[i] != key by {}
    assert forall|other: K| other != key implies slot(more, other) == if slot(keys, other) < n {
        slot(keys, other)
    } else {
        n + 1
    } by {
        if exists|i: int| 0 <= i < n && keys[i] == other {
            let i = choose|i: int| 0 <= i < n && keys[i] == other;
            assert(more[i] == other);
            let j = slot(more, other);
            assert(0 <= j < n + 1 && more[j] == other);
            assert(j < n);
            assert(keys[j] == other);
        } else {
            if exists|i: int| 0 <= i < n + 1 && more[i] == other {
                let i = choose|i: int| 0 <= i < n + 1 && more[i] == other;
                assert(i < n);
                assert(keys[i] == other);
            }
        }
    }
    assert(slot(more, key) == n) by {
        let j = slot(more, key);
        assert(0 <= j < n + 1 && more[j] == key);
    }
    assert(keyed(more, values.push(value)) =~= keyed(keys, values).insert(key, value));
}

} // verus!
