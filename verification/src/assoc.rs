//! Keyed lists read as maps: the first entry with a key is the one that
//! counts.

use vstd::prelude::*;

verus! {

/// The views of the elements of `s`, in order.
pub open spec fn views<T: View>(s: Seq<T>) -> Seq<T::V> {
    s.map_values(|x: T| x@)
}

/// Whether `i` is the first position at which `key` stands in `keys`.
pub open spec fn is_first_index<K>(keys: Seq<K>, key: K, i: int) -> bool {
    0 <= i < keys.len() && keys[i] == key && forall|j: int| 0 <= j < i ==> keys[j] != key
}

/// The first position at which `key` stands in `keys`, where it stands there
/// at all.
pub open spec fn first_index<K>(keys: Seq<K>, key: K) -> int {
    choose|i: int| is_first_index(keys, key, i)
}

/// The map that a keyed list stands for: each key with the value of its
/// first entry.
pub open spec fn assoc_map<K, V>(keys: Seq<K>, vals: Seq<V>) -> Map<K, V> {
    Map::new(|k: K| keys.contains(k), |k: K| vals[first_index(keys, k)])
}

/// A key that stands in a list has exactly one first position.
pub proof fn lemma_first_index<K>(keys: Seq<K>, key: K)
    requires
        keys.contains(key),
    ensures
        is_first_index(keys, key, first_index(keys, key)),
    decreases keys.len(),
{
    let i = choose|i: int| 0 <= i < keys.len() && keys[i] == key;
    lemma_first_index_below(keys, key, i);
}

/// If `key` stands at `i`, a first position exists at or before `i`.
proof fn lemma_first_index_below<K>(keys: Seq<K>, key: K, i: int)
    requires
        0 <= i < keys.len(),
        keys[i] == key,
    ensures
        exists|f: int| is_first_index(keys, key, f),
    decreases i,
{
    if forall|j: int| 0 <= j < i ==> keys[j] != key {
        assert(is_first_index(keys, key, i));
    } else {
        let j = choose|j: int| 0 <= j < i && keys[j] == key;
        lemma_first_index_below(keys, key, j);
    }
}

/// The first position of a key is the only position that is first.
pub proof fn lemma_first_index_is<K>(keys: Seq<K>, key: K, i: int)
    requires
        is_first_index(keys, key, i),
    ensures
        first_index(keys, key) == i,
        keys.contains(key),
{
    let f = first_index(keys, key);
    assert(is_first_index(keys, key, f));
}

/// Appending an entry under a new key adds that key to the map.
pub proof fn lemma_assoc_push<K, V>(keys: Seq<K>, vals: Seq<V>, key: K, val: V)
    requires
        keys.len() == vals.len(),
        !keys.contains(key),
    ensures
        assoc_map(keys.push(key), vals.push(val)) == assoc_map(keys, vals).insert(key, val),
{
    let a = assoc_map(keys.push(key), vals.push(val));
    let b = assoc_map(keys, vals).insert(key, val);
    assert forall|k: K| a.dom().contains(k) <==> b.dom().contains(k) by {
        if keys.push(key).contains(k) {
            let i = choose|i: int| 0 <= i < keys.push(key).len() && keys.push(key)[i] == k;
            if i < keys.len() {
                assert(keys[i] == k);
            }
        }
        if keys.contains(k) {
            let i = choose|i: int| 0 <= i < keys.len() && keys[i] == k;
            assert(keys.push(key)[i] == k);
        }
        if k == key {
            assert(keys.push(key)[keys.len() as int] == key);
        }
    }
    assert forall|k: K| a.dom().contains(k) implies a[k] == b[k] by {
        if k == key {
            assert(is_first_index(keys.push(key), key, keys.len() as int));
            lemma_first_index_is(keys.push(key), key, keys.len() as int);
        } else {
            assert(keys.contains(k));
            lemma_first_index(keys, k);
            let f = first_index(keys, k);
            assert(is_first_index(keys.push(key), k, f)) by {
                assert forall|j: int| 0 <= j < f implies keys.push(key)[j] != k by {
                    assert(keys.push(key)[j] == keys[j]);
                }
            }
            lemma_first_index_is(keys.push(key), k, f);
        }
    }
    assert(a =~= b);
}

/// Replacing the value of the first entry of a key replaces the key's value
/// in the map.
pub proof fn lemma_assoc_update<K, V>(keys: Seq<K>, vals: Seq<V>, i: int, val: V)
    requires
        keys.len() == vals.len(),
        0 <= i < keys.len(),
        is_first_index(keys, keys[i], i),
    ensures
        assoc_map(keys, vals.update(i, val)) == assoc_map(keys, vals).insert(keys[i], val),
{
    let a = assoc_map(keys, vals.update(i, val));
    let b = assoc_map(keys, vals).insert(keys[i], val);
    assert forall|k: K| a.dom().contains(k) implies a[k] == b[k] by {
        lemma_first_index(keys, k);
        if k == keys[i] {
            lemma_first_index_is(keys, k, i);
        }
    }
    assert(a =~= b);
}

/// What the map holds under a key is the value of the key's first entry.
pub proof fn lemma_assoc_get<K, V>(keys: Seq<K>, vals: Seq<V>, i: int)
    requires
        keys.len() == vals.len(),
        is_first_index(keys, keys[i], i),
    ensures
        assoc_map(keys, vals).dom().contains(keys[i]),
        assoc_map(keys, vals)[keys[i]] == vals[i],
{
    lemma_first_index_is(keys, keys[i], i);
}

} // verus!
