//! The one place where the crate leans on code it cannot verify: drawing
//! query ids from a random number generator of the `rand` crate.
//!
//! The generator is `StdRng`, which the caller seeds. Once seeded it computes
//! its numbers from its own state alone: it never asks the operating system
//! for more and never reseeds, so drawing from it cannot fail.
//!
//! Nothing is assumed of the numbers drawn. Every function that draws one
//! states what holds for whatever number comes back.

use rand::Rng;
use vstd::prelude::*;

verus! {

/// `rand::rngs::StdRng`, the seeded generator of `rand`. It is carried
/// through as it is; nothing inside it is read.
#[verifier::external_type_specification]
#[verifier::external_body]
pub struct ExStdRng(rand::rngs::StdRng);

/// Draws a 16-bit value with `Rng::gen::<u16>` of `rand`, which takes the
/// low half of the generator's next 32-bit word. Nothing is claimed of the
/// value drawn: it may be any `u16`, and two calls may differ.
#[verifier::external_body]
pub(crate) fn random_id(rng: &mut rand::rngs::StdRng) -> (id: u16) {
    rng.gen::<u16>()
}

} // verus!
