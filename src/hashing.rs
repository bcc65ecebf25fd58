use vstd::prelude::*;

verus! {

/// The 64-bit hash that names and paths are folded to.
pub uninterp spec fn name_hash(s: Seq<char>) -> u64;

/// Relies on bevy_utils's `RandomState::with_seeds` (ahash): every hasher built
/// from the same four seeds hashes the same string to the same value, so the
/// result depends on the characters alone.
#[verifier::external_body]
pub fn get_hash(s: &str) -> (r: u64)
    ensures
        r == name_hash(s@),
{
    let state = bevy_utils::RandomState::with_seeds(42, 23, 13, 8);
    let mut hasher = std::hash::BuildHasher::build_hasher(&state);
    std::hash::Hash::hash(s, &mut hasher);
    std::hash::Hasher::finish(&hasher)
}

} // verus!
