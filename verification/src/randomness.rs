use vstd::prelude::*;

use rand::rngs::SmallRng;
use rand::seq::SliceRandom;
use rand::Rng;


verus! {

/// `rand`'s small fast generator, carried through verified code unopened.
#[verifier::external_type_specification]
#[verifier::external_body]
pub struct ExSmallRng(SmallRng);

/// Calls `Rng::random_range(0..n)` on `rng`: a uniformly drawn index below `n`
/// (the call panics on an empty range, hence `n > 0`).
#[verifier::external_body]
pub(crate) fn random_index(rng: &mut SmallRng, n: usize) -> (r: usize)
    requires
        n > 0,
    ensures
        r < n,
{
    rng.random_range(0..n)
}

/// Calls `Rng::random::<u64>()` on `rng`: any 64-bit value may come back.
#[verifier::external_body]
pub(crate) fn random_u64(rng: &mut SmallRng) -> u64 {
    rng.random::<u64>()
}

/// Calls `rand::random::<u64>()` (the thread-local generator): any 64-bit value may come back.
#[verifier::external_body]
pub(crate) fn thread_random_u64() -> u64 {
    rand::random::<u64>()
}

/// Calls `SliceRandom::shuffle` on the indices: they come back in some order, each index
/// exactly as often as before.
#[verifier::external_body]
pub(crate) fn shuffle_indices(indices: &mut Vec<usize>, rng: &mut SmallRng)
    ensures
        final(indices)@.to_multiset() == old(indices)@.to_multiset(),
{
    indices.shuffle(rng);
}

} // verus!
