//! The random draw that a weighted selection consumes.

use libafl_bolts::rands::Rand;
use vstd::prelude::*;

verus! {

/// The standard generator of `libafl_bolts`, carried through as an opaque
/// value.
#[verifier::external_type_specification]
#[verifier::external_body]
pub struct ExRomuDuoJrRand(libafl_bolts::rands::RomuDuoJrRand);

/// `Rand::below` on the standard generator: a number below `bound`, for a
/// `bound` above zero. Which number is not claimed; the generator's state
/// moves on.
#[verifier::external_body]
pub(crate) fn draw_below(rand: &mut libafl_bolts::rands::RomuDuoJrRand, bound: u64) -> (r: u64)
    ensures
        bound > 0 ==> r < bound,
{
    rand.below(bound)
}

} // verus!
