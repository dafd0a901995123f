//! Randomness at the edge of the engine: a thread-local generator and an
//! in-place shuffle. Nothing is promised of which permutation comes out, so
//! everything proved about dealing holds for every outcome.

use vstd::prelude::*;

use rand::seq::SliceRandom;

verus! {

#[verifier::external_type_specification]
#[verifier::external_body]
pub struct ExThreadRng(rand::rngs::ThreadRng);

/// Relies on rand::thread_rng: a handle to the thread-local random
/// generator. Nothing is promised of the numbers it yields.
#[verifier::external_body]
pub(crate) fn fresh_rng() -> rand::rngs::ThreadRng {
    rand::thread_rng()
}

/// Relies on rand::seq::SliceRandom::shuffle: reorders the elements in place
/// by swaps, so the multiset of elements (and hence the length) is unchanged;
/// which order comes out is not promised.
#[verifier::external_body]
pub(crate) fn shuffle<T>(v: &mut Vec<T>, rng: &mut rand::rngs::ThreadRng)
    ensures
        final(v)@.to_multiset() == old(v)@.to_multiset(),
        final(v)@.len() == old(v)@.len(),
{
    v.shuffle(rng);
}

} // verus!
