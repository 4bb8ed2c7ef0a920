//! The seeded content hash behind overflow identifiers.

use std::hash::BuildHasher;
use vstd::prelude::*;

verus! {

/// The 64-bit content hash of a byte key under the codec's fixed seeds.
pub uninterp spec fn ahash_of(key: Seq<u8>) -> u64;

/// Relies on `ahash::RandomState::with_seeds` and `RandomState::hash_one`:
/// a `RandomState` built from the same four seed words always produces
/// identical hashers, so with the seeds fixed here the hash is a function
/// of the hashed bytes alone.
#[verifier::external_body]
pub(crate) fn hash_key(key: &Vec<u8>) -> (hash: u64)
    ensures
        hash == ahash_of(key@),
{
    let hasher = ahash::RandomState::with_seeds(42, 42, 42, 42);
    hasher.hash_one(key)
}

} // verus!
