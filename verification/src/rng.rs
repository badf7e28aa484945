use vstd::prelude::*;
use rand::seq::SliceRandom;
use rand::SeedableRng;

verus! {

/// `rand`'s standard generator, used to shuffle the deck. It is opaque
/// here: nothing is proved about the numbers it yields.
#[verifier::external_type_specification]
#[verifier::external_body]
pub struct ExStdRng(rand::rngs::StdRng);

/// Relies on `rand::rngs::StdRng::seed_from_u64` (of `SeedableRng`):
/// it builds a generator from the seed. Which values the generator
/// will yield is not stated.
#[verifier::external_body]
pub(crate) fn rng_from_seed(seed: u64) -> rand::rngs::StdRng {
    rand::rngs::StdRng::seed_from_u64(seed)
}

/// Relies on `rand::seq::SliceRandom::shuffle`: a Fisher-Yates shuffle
/// that reorders the slice in place by swaps, so it keeps exactly the
/// elements it was given; the order they end in depends on the
/// generator and is not stated.
#[verifier::external_body]
pub(crate) fn shuffle_ids(rng: &mut rand::rngs::StdRng, ids: &mut Vec<i32>)
    ensures
        final(ids)@.len() == old(ids)@.len(),
        final(ids)@.to_multiset() == old(ids)@.to_multiset(),
{
    ids.shuffle(rng)
}

} // verus!
