//! Hash functions that come from outside.

use crate::hash_metadata::index_part;
use std::hash::{BuildHasher, Hash, RandomState};
use vstd::prelude::*;

verus! {

/// Hashes a key with `std::hash::BuildHasher::hash_one`.
///
/// Nothing is claimed of the hash: it depends on the state of the hasher and
/// on how the key feeds itself into it. That a hash is one that the hasher
/// gives for a key is what `hashes_to` expresses.
#[verifier::external_body]
fn hash_one<Q: Hash + ?Sized, S: BuildHasher>(hasher: &S, key: &Q) -> (hash: u64) {
    hasher.hash_one(key)
}

/// Makes a hasher with `std::hash::RandomState::new`, which picks its keys at
/// random, so that nothing is claimed of the result.
pub assume_specification[ RandomState::new ]() -> RandomState
;

/// `hash` is what `hash_one` may give for the key.
pub closed spec fn hash_one_gives<Q: Hash + ?Sized, S: BuildHasher>(
    hasher: S,
    key: &Q,
    hash: u64,
) -> bool {
    call_ensures(hash_one::<Q, S>, (&hasher, key), hash)
}

/// `hash` is all that `hash_one` gives for the key.
pub open spec fn hash_is<Q: Hash + ?Sized, S: BuildHasher>(hasher: S, key: &Q, hash: u64) -> bool {
    forall|given: u64| #[trigger] hash_one_gives(hasher, key, given) ==> given == hash
}

/// `h1` is the index part of a hash that the hasher may give for the key.
pub closed spec fn hashes_to<Q: Hash + ?Sized, S: BuildHasher>(hasher: S, key: &Q, h1: usize) -> bool {
    exists|hash: u64|
        #[trigger] call_ensures(hash_one::<Q, S>, (&hasher, key), hash) && h1 == index_part(hash)
}

/// The hasher gives the two keys the same hash, every time. This is what
/// equal keys are meant to have, a key and its borrowed form, and every key
/// with itself.
pub open spec fn hash_alike<P: Hash + ?Sized, Q: Hash + ?Sized, S: BuildHasher>(
    hasher: S,
    key: &P,
    other: &Q,
) -> bool {
    forall|a: usize, b: usize| #[trigger]
        hashes_to(hasher, key, a) && #[trigger] hashes_to(hasher, other, b) ==> a == b
}

/// Hashes a key.
pub fn hash_key<Q: Hash + ?Sized, S: BuildHasher>(hasher: &S, key: &Q) -> (hash: u64)
    ensures
        hashes_to(*hasher, key, index_part(hash)),
        hash_one_gives(*hasher, key, hash),
{
    hash_one(hasher, key)
}

/// What a key hashes to is decided by the calls of `hash_one` and nothing else.
proof fn lemma_hash_is<Q: Hash + ?Sized, S: BuildHasher>(hasher: S, key: &Q, hash: u64)
    requires
        forall|given: u64| #[trigger]
            call_ensures(hash_one::<Q, S>, (&hasher, key), given) ==> given == hash,
    ensures
        hash_is(hasher, key, hash),
{
}

/// The index hash of a key is what is left of a hash that `hash_one` gives
/// for it when the bits are dropped that an index does not have, and of every
/// such hash that is an index hash of the key.
pub proof fn law_index_hash<Q: Hash + ?Sized, S: BuildHasher>(hasher: S, key: &Q, h1: usize)
    ensures
        hashes_to(hasher, key, h1) <==> exists|hash: u64| #[trigger]
            hash_one_gives(hasher, key, hash) && h1 as int == hash as int % (usize::MAX + 1),
{
    if hashes_to(hasher, key, h1) {
        let hash = choose|hash: u64|
            #[trigger] call_ensures(hash_one::<Q, S>, (&hasher, key), hash) && h1 == index_part(
                hash,
            );
        assert(hash_one_gives(hasher, key, hash));
        vstd::arithmetic::div_mod::lemma_mod_bound(hash as int, usize::MAX + 1);
    }
    assert forall|hash: u64| #[trigger]
        hash_one_gives(hasher, key, hash) && h1 as int == hash as int % (
        usize::MAX + 1) implies hashes_to(hasher, key, h1) by {
        assert(call_ensures(hash_one::<Q, S>, (&hasher, key), hash));
    }
}

/// Two keys that `hash_one` gives the same hash have the same index hash, so
/// that a key is found by any form of it that hashes like it.
pub proof fn law_same_hash_same_index<P: Hash + ?Sized, Q: Hash + ?Sized, S: BuildHasher>(
    hasher: S,
    key: &P,
    other: &Q,
)
    requires
        forall|a: u64, b: u64| #[trigger]
            hash_one_gives(hasher, key, a) && #[trigger] hash_one_gives(hasher, other, b) ==> a == b,
    ensures
        hash_alike(hasher, key, other),
{
    assert forall|a: usize, b: usize| #[trigger]
        hashes_to(hasher, key, a) && #[trigger] hashes_to(hasher, other, b) implies a == b by {
        law_index_hash(hasher, key, a);
        law_index_hash(hasher, other, b);
    }
}

/// Where `hash_one` gives one hash only, the key has one index hash only.
pub proof fn law_hash_decides_index<Q: Hash + ?Sized, S: BuildHasher>(
    hasher: S,
    key: &Q,
    hash: u64,
    h1: usize,
)
    requires
        hash_is(hasher, key, hash),
        hashes_to(hasher, key, h1),
    ensures
        h1 as int == hash as int % (usize::MAX + 1),
        h1 == index_part(hash),
{
    law_index_hash(hasher, key, h1);
}

/// Hashing a key gives a hash of `hash_one`, unchanged.
pub proof fn law_hash_key<Q: Hash + ?Sized, S: BuildHasher>(hasher: &S, key: &Q, hash: u64)
    requires
        call_ensures(hash_key::<Q, S>, (hasher, key), hash),
    ensures
        hash_one_gives(*hasher, key, hash),
{
}

} // verus!
