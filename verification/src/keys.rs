//! What the replica asks of the types it is generic over.

use vstd::prelude::*;
use vstd::std_specs::hash::obeys_key_model;

verus! {

/// Cloning a `T` gives back an equal `T`.
pub open spec fn exact_clone<T: Clone>() -> bool {
    forall|a: T, b: T| #[trigger] call_ensures(T::clone, (&a,), b) ==> a == b
}

/// What a replica asks of its record ids: they hash and compare as the
/// standard hash tables expect, and a clone of an id is that id.
pub open spec fn sound_keys<K: Clone>() -> bool {
    obeys_key_model::<K>() && exact_clone::<K>()
}

/// Unsigned 64-bit integers serve as record ids and as values.
pub proof fn lemma_u64_is_sound()
    ensures
        sound_keys::<u64>(),
        exact_clone::<u64>(),
{
}

/// Strings serve as values.
pub proof fn lemma_string_clone_is_exact()
    ensures
        exact_clone::<String>(),
{
}

} // verus!
