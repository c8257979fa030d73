//! Draws of chance.

use vstd::prelude::*;
use rand::Rng;

verus! {

/// `Rng::random_range` on the generator of the thread, over the whole
/// numbers below `bound`: a different number each time, always below `bound`.
#[verifier::external_body]
pub(crate) fn draw_below(bound: u64) -> (value: u64)
    requires
        bound > 0,
    ensures
        value < bound,
{
    rand::rng().random_range(0..bound)
}

/// `count` draws below `bound`.
pub fn draws_below(count: usize, bound: u32) -> (draws: Vec<u32>)
    requires
        bound > 0,
    ensures
        draws@.len() == count,
        forall|k: int| 0 <= k < draws@.len() ==> draws@[k] < bound,
{
    let mut draws: Vec<u32> = Vec::new();
    let mut k: usize = 0;
    while k < count
        invariant
            bound > 0,
            k <= count,
            draws@.len() == k,
            forall|j: int| 0 <= j < draws@.len() ==> draws@[j] < bound,
        decreases count - k,
    {
        let value = draw_below(bound as u64);
        draws.push(value as u32);
        k += 1;
    }
    draws
}

} // verus!
