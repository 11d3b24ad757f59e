//! The random generator and the one draw that the library makes with it.
use vstd::prelude::*;
use rand::rngs::StdRng;
use rand::Rng;

verus! {

/// The random generator that callers hand to the sampling functions. Nothing
/// is known of its state; it is only carried to the draws.
#[verifier::external_type_specification]
#[verifier::external_body]
pub struct ExStdRng(rand::rngs::StdRng);

/// Draws a whole number with `rand::Rng::gen_range` on the half-open range
/// `0..bound`.
///
/// Trusted: the contract claims what `gen_range` promises of every draw, that
/// the value lies inside the range. `gen_range` panics on an empty range,
/// which the precondition rules out.
#[verifier::external_body]
pub(crate) fn draw_below(rng: &mut StdRng, bound: usize) -> (drawn: usize)
    requires
        bound > 0,
    ensures
        drawn < bound,
{
    rng.gen_range(0..bound)
}

} // verus!
