//! The random draws of the growth automaton, taken from the thread's
//! generator of the `rand` crate.

use vstd::prelude::*;

verus! {

#[verifier::external_type_specification]
#[verifier::external_body]
pub struct ExThreadRng(rand::rngs::ThreadRng);

/// `rand::thread_rng`: a handle to the generator of the running thread.
/// Nothing is said of the handle.
pub assume_specification[ rand::thread_rng ]() -> (rng: rand::rngs::ThreadRng);

/// `rand::Rng::gen_range` on the range from 0 up to, and without, `bound`:
/// the number drawn is below `bound`. The call panics on an empty range,
/// so `bound` must be positive.
#[verifier::external_body]
pub(crate) fn draw_below(rng: &mut rand::rngs::ThreadRng, bound: u32) -> (n: u32)
    requires
        bound > 0,
    ensures
        n < bound,
{
    rand::Rng::gen_range(rng, 0..bound)
}

/// `rand::Rng::gen_ratio`: `true` with a chance of `numerator` in
/// `denominator`. The draw is surely `false` where the numerator is zero and
/// surely `true` where it equals the denominator. The call panics where the
/// denominator is zero or the numerator exceeds it.
#[verifier::external_body]
pub(crate) fn draw_ratio(rng: &mut rand::rngs::ThreadRng, numerator: u32, denominator: u32) -> (hit:
    bool)
    requires
        denominator > 0,
        numerator <= denominator,
    ensures
        numerator == 0 ==> !hit,
        numerator == denominator ==> hit,
{
    rand::Rng::gen_ratio(rng, numerator, denominator)
}

} // verus!
