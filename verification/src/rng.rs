//! Sources of randomness for the genetic operators.

use rand::seq::SliceRandom;
use rand::Rng;
use vstd::prelude::*;

verus! {

/// Scale of the mutation and crossover probabilities: a rate `r` stands
/// for the probability `r / RATE_SCALE`.
pub const RATE_SCALE: u32 = 1000;

/// Relies on rand's `Rng::gen_range`: a uniform draw from `[0, n)`.  The
/// range handed to it is never empty, so the call cannot panic.
#[verifier::external_body]
pub fn random_below(n: usize) -> (r: usize)
    requires
        n > 0,
    ensures
        r < n,
{
    rand::thread_rng().gen_range(0..n)
}

/// Draws a biased coin that comes up `true` with probability
/// `rate / RATE_SCALE` (clipped to `[0, 1]`).  A rate of zero never
/// comes up `true` and a full rate always does; in between, callers
/// must be correct for either result.
pub fn coin(rate: u32) -> (b: bool)
    ensures
        rate == 0 ==> !b,
        rate >= RATE_SCALE ==> b,
{
    let draw = random_below(RATE_SCALE as usize);
    draw < rate as usize
}

/// Relies on rand's `SliceRandom::shuffle`: permutes the elements in
/// place, so exactly the original elements remain, in some order.
#[verifier::external_body]
pub fn shuffle(v: &mut Vec<usize>)
    ensures
        final(v)@.len() == old(v)@.len(),
        final(v)@.to_multiset() == old(v)@.to_multiset(),
{
    v.shuffle(&mut rand::thread_rng());
}

} // verus!
