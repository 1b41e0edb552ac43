//! The random draws that generation and mutation make, from a generator
//! that the caller hands in. Nothing is known of a draw but its range.

use rand::rngs::StdRng;
use rand::seq::SliceRandom;
use rand::Rng;
use vstd::prelude::*;

verus! {

/// `rand::rngs::StdRng`, the generator that the draws are made from.
/// Nothing is known of what it holds.
#[verifier::external_type_specification]
#[verifier::external_body]
pub struct ExStdRng(StdRng);

/// `SliceRandom::choose` on a slice that is not empty: one of its elements.
#[verifier::external_body]
pub(crate) fn pick<T: Copy>(choices: &[T], rng: &mut StdRng) -> (chosen: T)
    requires
        choices@.len() > 0,
    ensures
        choices@.contains(chosen),
{
    *choices.choose(rng).unwrap()
}

/// `Rng::gen_ratio`: true with a chance of `numerator` in `denominator`. It
/// is never true for a numerator of 0, and always where the two are equal.
#[verifier::external_body]
pub(crate) fn ratio(rng: &mut StdRng, numerator: u32, denominator: u32) -> (hit: bool)
    requires
        denominator > 0,
        numerator <= denominator,
    ensures
        numerator == 0 ==> !hit,
        numerator == denominator ==> hit,
{
    rng.gen_ratio(numerator, denominator)
}

/// `Rng::gen` for a signed 64-bit integer: any of them.
#[verifier::external_body]
pub(crate) fn any_i64(rng: &mut StdRng) -> i64 {
    rng.gen()
}

/// `Rng::gen` for an unsigned 64-bit integer: any of them.
#[verifier::external_body]
pub(crate) fn any_u64(rng: &mut StdRng) -> u64 {
    rng.gen()
}

/// Whether a change with a chance of `numerator` in `denominator` happens
/// this time. A chance of zero never does, a chance of one or more always.
pub fn chance(rng: &mut StdRng, numerator: u32, denominator: u32) -> (hit: bool)
    ensures
        numerator == 0 ==> !hit,
        numerator != 0 && numerator >= denominator ==> hit,
{
    if numerator == 0 {
        false
    } else if numerator >= denominator {
        true
    } else {
        ratio(rng, numerator, denominator)
    }
}

} // verus!
