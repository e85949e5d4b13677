//! Lists that are searched by key: the position of a key is that of its first
//! occurrence.

use vstd::prelude::*;

verus! {

/// The position of the first occurrence of a key, if it occurs.
pub open spec fn first_index<K>(keys: Seq<K>, key: K) -> Option<int>
    decreases keys.len(),
{
    if keys.len() == 0 {
        None
    } else {
        match first_index(keys.drop_last(), key) {
            Some(i) => Some(i),
            None => if keys.last() == key {
                Some(keys.len() - 1)
            } else {
                None
            },
        }
    }
}

/// What a position found, or the lack of one, says of the keys.
pub proof fn lemma_first_index<K>(keys: Seq<K>, key: K)
    ensures
        match first_index(keys, key) {
            Some(i) => {
                &&& 0 <= i < keys.len()
                &&& keys[i] == key
                &&& forall|j: int| 0 <= j < i ==> keys[j] != key
            },
            None => forall|j: int| 0 <= j < keys.len() ==> keys[j] != key,
        },
    decreases keys.len(),
{
    if keys.len() > 0 {
        lemma_first_index(keys.drop_last(), key);
        assert forall|j: int| 0 <= j < keys.len() - 1 implies keys.drop_last()[j] == keys[j] by {}
    }
}

/// A key that occurs at a position, and nowhere before it, is found there.
pub proof fn lemma_first_index_found<K>(keys: Seq<K>, key: K, position: int)
    requires
        0 <= position < keys.len(),
        keys[position] == key,
        forall|j: int| 0 <= j < position ==> keys[j] != key,
    ensures
        first_index(keys, key) == Some(position),
{
    lemma_first_index(keys, key);
    match first_index(keys, key) {
        Some(i) => {
            if i > position {
                assert(keys[position] != key);
            }
        },
        None => {
            assert(keys[position] != key);
        },
    }
}

/// A key that occurs nowhere is not found.
pub proof fn lemma_first_index_absent<K>(keys: Seq<K>, key: K)
    requires
        forall|j: int| 0 <= j < keys.len() ==> keys[j] != key,
    ensures
        first_index(keys, key) is None,
{
    lemma_first_index(keys, key);
    match first_index(keys, key) {
        Some(i) => {
            assert(keys[i] != key);
        },
        None => {},
    }
}

} // verus!
