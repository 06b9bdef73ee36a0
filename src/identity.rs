use vstd::prelude::*;
use std::collections::hash_map::RandomState;

verus! {

/// Relies on std's `RandomState::new`: a hasher builder whose keys are drawn
/// at random. Nothing is known of the keys.
#[verifier::external_body]
fn random_keys() -> (r: RandomState) {
    RandomState::new()
}

/// Relies on std's `BuildHasher::hash_one`: the hash of one byte under the
/// builder's keys. With random keys nothing is known of it.
#[verifier::external_body]
fn keyed_hash(keys: &RandomState) -> (r: u64) {
    std::hash::BuildHasher::hash_one(keys, 0u8)
}

/// A fresh identity for a new arena: a 64-bit value drawn from randomly keyed
/// hashing, so that two arenas of one process differ except by a chance of
/// about one in 2^64.
pub(crate) fn fresh_arena_id() -> usize {
    let keys = random_keys();
    keyed_hash(&keys) as usize
}

} // verus!
