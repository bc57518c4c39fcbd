//! Random draws, made by a seedable generator of the `rand` crate that the
//! caller hands in.

use vstd::prelude::*;

verus! {

/// The seedable generator of the `rand` crate.
#[verifier::external_type_specification]
#[verifier::external_body]
pub struct ExStdRng(rand::rngs::StdRng);

/// `rand::Rng::gen` at `usize`: the next draw. Nothing is claimed of it.
#[verifier::external_body]
pub(crate) fn next_draw(rng: &mut rand::rngs::StdRng) -> usize {
    rand::Rng::gen::<usize>(rng)
}

/// `count` draws, in the order in which they were made.
pub fn draws(rng: &mut rand::rngs::StdRng, count: usize) -> (picks: Vec<usize>)
    ensures
        picks@.len() == count,
{
    let mut picks: Vec<usize> = Vec::new();
    while picks.len() < count
        invariant
            picks@.len() <= count,
        decreases count - picks@.len(),
    {
        let d = next_draw(rng);
        picks.push(d);
    }
    picks
}

} // verus!
