//! Random draws. A draw comes from a generator that the caller passes in,
//! or, in the two functions named for it, from the generator of the thread.

use rand::Rng;
use rand_chacha::ChaCha8Rng;
use vstd::prelude::*;

verus! {

/// `rand_chacha::ChaCha8Rng`, the generator that draws are made from. Nothing
/// is claimed of what is inside it.
#[verifier::external_type_specification]
#[verifier::external_body]
pub struct ExChaCha8Rng(rand_chacha::ChaCha8Rng);

/// `Rng::gen_range` on the range from 0 up to, not including, `bound`.
/// The draw lies in that range; an empty range is not accepted.
#[verifier::external_body]
pub(crate) fn draw_below(rng: &mut ChaCha8Rng, bound: u64) -> (draw: u64)
    requires
        bound > 0,
    ensures
        draw < bound,
{
    rng.gen_range(0..bound)
}

/// `Rng::gen_ratio`: true with a chance of `numerator` in `denominator`.
/// A chance of zero never hits, a full chance always does; a denominator of
/// zero or a numerator above the denominator is not accepted.
#[verifier::external_body]
pub(crate) fn draw_ratio(rng: &mut ChaCha8Rng, numerator: u32, denominator: u32) -> (hit: bool)
    requires
        denominator > 0,
        numerator <= denominator,
    ensures
        numerator == denominator ==> hit,
        numerator == 0 ==> !hit,
{
    rng.gen_ratio(numerator, denominator)
}

/// `rand::random` for `u64`: any value, from the generator of the thread.
#[verifier::external_body]
pub(crate) fn thread_random() -> u64 {
    rand::random::<u64>()
}

/// `Rng::gen_range` on the generator that `rand::thread_rng` hands out, for
/// the range from 0 up to, not including, `bound`. The draw lies in that
/// range; an empty range is not accepted.
#[verifier::external_body]
pub(crate) fn thread_draw_below(bound: u8) -> (draw: u8)
    requires
        bound > 0,
    ensures
        draw < bound,
{
    rand::thread_rng().gen_range(0..bound)
}

} // verus!
