//! The injected randomness capability.
//!
//! Hidden-entity placement and color sampling draw from a narrow interface
//! (a single bounded uniform draw), so a deterministic source can be
//! injected for testing while play uses the operating system's entropy
//! through the `rand` crate.

use vstd::prelude::*;

verus! {

/// A source of bounded random draws. The engine asks for nothing beyond a
/// value below the bound, so any implementation — seeded or not — drives a
/// game.
pub trait RandomSource {
    /// One draw below `bound`.
    fn pick(&mut self, bound: u64) -> (r: u64)
        requires
            bound > 0,
        ensures
            r < bound,
    ;
}

/// Declares rand::rngs::ThreadRng, the thread-local generator's handle, as
/// an opaque outside type so it can sit in a field.
#[verifier::external_type_specification]
#[verifier::external_body]
pub struct ExThreadRng(rand::rngs::ThreadRng);

/// Relies on rand::thread_rng: returns a handle to the thread-local
/// generator, seeded by the system.
#[verifier::external_body]
fn fresh_thread_rng() -> rand::rngs::ThreadRng {
    rand::thread_rng()
}

/// Relies on rand::Rng::gen_range over the half-open range `0..bound`: the
/// sampled value lies in the range, and the call panics only on an empty
/// range, which the precondition rules out.
#[verifier::external_body]
fn gen_range_below(rng: &mut rand::rngs::ThreadRng, bound: u64) -> (r: u64)
    requires
        bound > 0,
    ensures
        r < bound,
{
    rand::Rng::gen_range(rng, 0..bound)
}

/// The randomness source used for play: an unbiased bounded draw from the
/// `rand` crate's thread-local generator.
pub struct ThreadRandom {
    rng: rand::rngs::ThreadRng,
}

impl ThreadRandom {
    /// A source backed by the thread-local generator.
    pub fn new() -> ThreadRandom {
        ThreadRandom { rng: fresh_thread_rng() }
    }
}

impl RandomSource for ThreadRandom {
    fn pick(&mut self, bound: u64) -> (r: u64) {
        gen_range_below(&mut self.rng, bound)
    }
}

/// A deterministic randomness source with a 64-bit state, for seeded,
/// reproducible play and tests: each draw advances the state by a fixed
/// odd constant and mixes it with xor-shifts and two multiplications.
pub struct SplitMix64 {
    pub state: u64,
}

impl SplitMix64 {
    /// A deterministic source starting from `seed`.
    pub fn new(seed: u64) -> (r: SplitMix64)
        ensures
            r.state == seed,
    {
        SplitMix64 { state: seed }
    }
}

impl RandomSource for SplitMix64 {
    fn pick(&mut self, bound: u64) -> (r: u64) {
        self.state = self.state.wrapping_add(0x9E3779B97F4A7C15);
        let mut z = self.state;
        z = (z ^ (z >> 30)).wrapping_mul(0xBF58476D1CE4E5B9);
        z = (z ^ (z >> 27)).wrapping_mul(0x94D049BB133111EB);
        z = z ^ (z >> 31);
        z % bound
    }
}

} // verus!
