//! The injected random source and the draws that need no real arithmetic.

use rand::Rng;
use vstd::prelude::*;

verus! {

/// The generator that every operation consuming entropy is handed.
#[verifier::external_type_specification]
#[verifier::external_body]
pub struct ExChaCha8Rng(rand_chacha::ChaCha8Rng);

/// A fair coin: `Rng::gen::<bool>()`. Nothing is claimed of the outcome.
#[verifier::external_body]
pub(crate) fn flip(rng: &mut rand_chacha::ChaCha8Rng) -> (heads: bool) {
    rng.gen::<bool>()
}

/// A biased coin: `Rng::gen_ratio`, true with probability
/// `numerator / denominator`. The call panics on a zero denominator and on
/// a numerator above it, which `requires` leaves out. It never comes up
/// true on a zero numerator, and always does when the two are equal.
#[verifier::external_body]
pub(crate) fn chance(rng: &mut rand_chacha::ChaCha8Rng, numerator: u32, denominator: u32) -> (hit:
    bool)
    requires
        denominator > 0,
        numerator <= denominator,
    ensures
        numerator == 0 ==> !hit,
        numerator == denominator ==> hit,
{
    rng.gen_ratio(numerator, denominator)
}

} // verus!
