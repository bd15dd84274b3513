//! Access to the process's entropy source.
//!
//! The scanner needs randomness in exactly two places: the 128-bit cookie
//! secret drawn at startup, and the small multiplier parameter of the
//! address generator. Nothing can be promised about a random value beyond
//! its range, so the contracts here say only that.

use vstd::prelude::*;

verus! {

/// Relies on rand::Rng::gen::<u8> on rand::thread_rng: one uniformly
/// random byte. Nothing is promised of the value.
#[verifier::external_body]
pub(crate) fn random_byte() -> u8 {
    rand::Rng::gen(&mut rand::thread_rng())
}

/// Relies on rand::Rng::gen_range on rand::thread_rng: a value drawn
/// uniformly from `0..bound`, so always below `bound`. The call panics on
/// an empty range, which the precondition rules out.
#[verifier::external_body]
pub(crate) fn random_below(bound: u32) -> (r: u32)
    requires
        bound > 0,
    ensures
        r < bound,
{
    rand::Rng::gen_range(&mut rand::thread_rng(), 0..bound)
}

} // verus!
