//! Random-number source for the automaton's tie-breaks and injections.
//!
//! The generator is seedable so that a simulation run is reproducible; all
//! draws go through the wrappers below.

use vstd::prelude::*;

verus! {

#[verifier::external_type_specification]
#[verifier::external_body]
pub struct ExStdRng(rand::rngs::StdRng);

/// Relies on rand::SeedableRng::seed_from_u64: builds a deterministic
/// generator from the given seed.
#[verifier::external_body]
pub fn rng_from_seed(seed: u64) -> rand::rngs::StdRng {
    <rand::rngs::StdRng as rand::SeedableRng>::seed_from_u64(seed)
}

/// Relies on rand::Rng::gen_range over `0..n`, which returns a value of the
/// non-empty range; nothing more is assumed of the draw.
#[verifier::external_body]
pub fn rng_below(rng: &mut rand::rngs::StdRng, n: u32) -> (r: u32)
    requires
        n >= 1,
    ensures
        r < n,
{
    rand::Rng::gen_range(rng, 0..n)
}

/// Relies on rand::Rng::gen for `bool`: a coin flip; nothing is assumed of
/// the outcome.
#[verifier::external_body]
pub fn rng_bool(rng: &mut rand::rngs::StdRng) -> bool {
    rand::Rng::gen::<bool>(rng)
}

} // verus!
