//! The simulation's seeded random source.
//!
//! Each simulation instance owns one `rand::rngs::StdRng`, seeded at
//! construction.  Its state advances exactly once per measurement call and
//! nowhere else.  Nothing is assumed about the values it produces: every
//! measurement routine is verified for every possible draw.

use rand::rngs::StdRng;
use rand::Rng;
use rand::SeedableRng;
use vstd::prelude::*;

verus! {

#[verifier::external_type_specification]
#[verifier::external_body]
pub struct ExStdRng(StdRng);

/// Relies on `rand::SeedableRng::seed_from_u64`: builds a `StdRng` from a
/// 64-bit seed.  No behavior of the generator is assumed.
#[verifier::external_body]
pub(crate) fn rng_from_seed(seed: u64) -> StdRng {
    StdRng::seed_from_u64(seed)
}

/// Relies on `rand::Rng::next_u32` for `StdRng`: advances the generator one
/// step and returns its next word.  Nothing is assumed about the value; the
/// callers are verified for every outcome.
#[verifier::external_body]
pub(crate) fn rng_next_u32(rng: &mut StdRng) -> u32 {
    rng.next_u32()
}

} // verus!
