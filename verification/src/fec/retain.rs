//! Dropping the entries of a hash map or a hash set that a predicate on the key
//! does not keep.

use std::collections::{HashMap, HashSet};
use std::hash::Hash;
use vstd::prelude::*;
use vstd::std_specs::hash::obeys_key_model;

verus! {

/// Drops the entries of `map` whose keys `keep` does not keep.
pub(crate) fn retain_entries<K: Copy + Eq + Hash, V, F: Fn(K) -> bool>(
    map: &mut HashMap<K, V>,
    keep: F,
    kept: Ghost<Set<K>>,
)
    requires
        obeys_key_model::<K>(),
        forall|k: K| keep.requires((k,)),
        forall|k: K, b: bool| keep.ensures((k,), b) ==> b == kept@.contains(k),
    ensures
        final(map)@ == old(map)@.restrict(kept@),
{
    let mut keys: Vec<K> = Vec::new();
    for key in it: map.keys()
        invariant
            it.seq().unref().to_set() == map@.dom(),
            keys@.len() == it.index(),
            forall|j: int| 0 <= j < keys@.len() ==> keys@[j] == *(#[trigger] it.seq()[j]),
    {
        keys.push(*key);
    }
    proof {
        assert forall|k: K| map@.contains_key(k) implies keys@.contains(k) by {
            assert(map@.dom().contains(k));
        }
    }
    let mut i: usize = 0;
    while i < keys.len()
        invariant
            i <= keys@.len(),
            obeys_key_model::<K>(),
            forall|k: K| keep.requires((k,)),
            forall|k: K, b: bool| keep.ensures((k,), b) ==> b == kept@.contains(k),
            forall|k: K| old(map)@.contains_key(k) ==> keys@.contains(k),
            forall|k: K| #[trigger]
                map@.contains_key(k) ==> old(map)@.contains_key(k) && map@[k] == old(map)@[k],
            forall|k: K|
                old(map)@.contains_key(k) && kept@.contains(k) ==> #[trigger] map@.contains_key(k),
            forall|j: int|
                0 <= j < i && !kept@.contains(#[trigger] keys@[j]) ==> !map@.contains_key(keys@[j]),
        decreases keys@.len() - i,
    {
        let key: K = keys[i];
        if !keep(key) {
            map.remove(&key);
        }
        i = i + 1;
    }
    assert(map@ =~= old(map)@.restrict(kept@));
}

/// Drops the elements of `set` that `keep` does not keep.
pub(crate) fn retain_elements<K: Copy + Eq + Hash, F: Fn(K) -> bool>(
    set: &mut HashSet<K>,
    keep: F,
    kept: Ghost<Set<K>>,
)
    requires
        obeys_key_model::<K>(),
        forall|k: K| keep.requires((k,)),
        forall|k: K, b: bool| keep.ensures((k,), b) ==> b == kept@.contains(k),
    ensures
        final(set)@ == old(set)@.intersect(kept@),
{
    let mut keys: Vec<K> = Vec::new();
    for key in it: set.iter()
        invariant
            it.seq().unref().to_set() == set@,
            keys@.len() == it.index(),
            forall|j: int| 0 <= j < keys@.len() ==> keys@[j] == *(#[trigger] it.seq()[j]),
    {
        keys.push(*key);
    }
    proof {
        assert forall|k: K| set@.contains(k) implies keys@.contains(k) by {}
    }
    let mut i: usize = 0;
    while i < keys.len()
        invariant
            i <= keys@.len(),
            obeys_key_model::<K>(),
            forall|k: K| keep.requires((k,)),
            forall|k: K, b: bool| keep.ensures((k,), b) ==> b == kept@.contains(k),
            forall|k: K| old(set)@.contains(k) ==> keys@.contains(k),
            forall|k: K| #[trigger] set@.contains(k) ==> old(set)@.contains(k),
            forall|k: K|
                old(set)@.contains(k) && kept@.contains(k) ==> #[trigger] set@.contains(k),
            forall|j: int|
                0 <= j < i && !kept@.contains(#[trigger] keys@[j]) ==> !set@.contains(keys@[j]),
        decreases keys@.len() - i,
    {
        let key: K = keys[i];
        if !keep(key) {
            set.remove(&key);
        }
        i = i + 1;
    }
    assert(set@ =~= old(set)@.intersect(kept@));
}

} // verus!
