//! Sequences of key-value pairs, read as maps that keep their order.

use vstd::prelude::*;

verus! {

/// Whether some entry of `entries` has the key `key`.
pub open spec fn has_key<K, V>(entries: Seq<(K, V)>, key: K) -> bool {
    exists|i: int| 0 <= i < entries.len() && (#[trigger] entries[i]).0 == key
}

/// A position of `entries` whose key is `key`, where there is one.
pub open spec fn position<K, V>(entries: Seq<(K, V)>, key: K) -> int {
    choose|i: int| 0 <= i < entries.len() && (#[trigger] entries[i]).0 == key
}

/// The value that `entries` holds under `key`, if any.
pub open spec fn found<K, V>(entries: Seq<(K, V)>, key: K) -> Option<V> {
    if has_key(entries, key) {
        Some(entries[position(entries, key)].1)
    } else {
        None
    }
}

/// The entries after an insertion: a key that is present keeps its place and
/// gets the new value, a new key goes to the end.
pub open spec fn inserted<K, V>(entries: Seq<(K, V)>, key: K, value: V) -> Seq<(K, V)> {
    if has_key(entries, key) {
        entries.update(position(entries, key), (key, value))
    } else {
        entries.push((key, value))
    }
}

/// No key stands in two entries.
pub open spec fn keys_differ<K, V>(entries: Seq<(K, V)>) -> bool {
    forall|i: int, j: int|
        0 <= i < j < entries.len() ==> (#[trigger] entries[i]).0 != (#[trigger] entries[j]).0
}

/// Where no key stands twice, the entry at a position is the one found under
/// its key.
pub proof fn lemma_found_at<K, V>(entries: Seq<(K, V)>, i: int)
    requires
        keys_differ(entries),
        0 <= i < entries.len(),
    ensures
        has_key(entries, entries[i].0),
        position(entries, entries[i].0) == i,
        found(entries, entries[i].0) == Some(entries[i].1),
{
    let key = entries[i].0;
    let p = position(entries, key);
    assert(0 <= p < entries.len() && entries[p].0 == key);
    if p < i {
        assert(entries[p].0 != entries[i].0);
    } else if i < p {
        assert(entries[i].0 != entries[p].0);
    }
}

/// What is found in the first `i + 1` entries: the entry at `i` under its own
/// key, and under any other key what the first `i` entries hold.
pub proof fn lemma_found_step<K, V>(entries: Seq<(K, V)>, i: int, key: K)
    requires
        keys_differ(entries),
        0 <= i < entries.len(),
    ensures
        entries[i].0 == key ==> found(entries.take(i), key) is None && found(
            entries.take(i + 1),
            key,
        ) == Some(entries[i].1),
        entries[i].0 != key ==> found(entries.take(i + 1), key) == found(entries.take(i), key),
{
    let shorter = entries.take(i);
    let longer = entries.take(i + 1);
    assert(keys_differ(longer)) by {
        assert forall|a: int, b: int| 0 <= a < b < longer.len() implies (#[trigger] longer[a]).0 != (
        #[trigger] longer[b]).0 by {
            assert(longer[a] == entries[a] && longer[b] == entries[b]);
        }
    }
    assert(keys_differ(shorter)) by {
        assert forall|a: int, b: int| 0 <= a < b < shorter.len() implies (#[trigger] shorter[a]).0
            != (#[trigger] shorter[b]).0 by {
            assert(shorter[a] == entries[a] && shorter[b] == entries[b]);
        }
    }
    if entries[i].0 == key {
        assert(longer[i] == entries[i]);
        lemma_found_at(longer, i);
        if has_key(shorter, key) {
            let p = position(shorter, key);
            assert(shorter[p] == entries[p]);
            assert(entries[p].0 != entries[i].0);
        }
    } else {
        if has_key(shorter, key) {
            let p = position(shorter, key);
            assert(longer[p] == shorter[p]);
            lemma_found_at(shorter, p);
            lemma_found_at(longer, p);
        } else if has_key(longer, key) {
            let p = position(longer, key);
            assert(p < i);
            assert(shorter[p] == longer[p]);
        }
    }
}

} // verus!
