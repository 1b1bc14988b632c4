//! What an endpoint key type has to satisfy.

use std::hash::Hash;
use vstd::laws_eq::obeys_concrete_eq;
use vstd::prelude::*;
use vstd::std_specs::hash::obeys_key_model;

verus! {

/// The key type's `Eq`, `Hash` and `Clone` agree with equality of values: `==` holds exactly of
/// equal keys, a hash table finds a key exactly where it was put, and a clone equals the key that was
/// cloned.
pub open spec fn lawful_key<K: Hash + Eq + Clone>() -> bool {
    &&& obeys_key_model::<K>()
    &&& obeys_concrete_eq::<K>()
    &&& forall|a: K, b: K| #[trigger] cloned::<K>(a, b) ==> a == b
}

/// Machine integers are lawful keys.
pub proof fn u64_is_a_lawful_key()
    ensures
        lawful_key::<u64>(),
{
    broadcast use vstd::std_specs::hash::group_hash_axioms;
    broadcast use vstd::laws_eq::group_laws_eq;

}

/// Clones a lawful key.
pub fn clone_key<K: Hash + Eq + Clone>(key: &K) -> (copy: K)
    requires
        lawful_key::<K>(),
    ensures
        copy == *key,
{
    let copy = key.clone();
    assert(cloned::<K>(*key, copy));
    copy
}

/// Compares two lawful keys.
pub fn same_key<K: Hash + Eq + Clone>(a: &K, b: &K) -> (same: bool)
    requires
        lawful_key::<K>(),
    ensures
        same == (*a == *b),
{
    proof {
        reveal(obeys_concrete_eq);
    }
    *a == *b
}

}
