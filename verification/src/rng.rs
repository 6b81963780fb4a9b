//! The source of randomness for the piece supply. The capability is injected
//! into the game master, so a game can run on the thread-local generator
//! while tests run on a seeded, deterministic one.
use vstd::prelude::*;

use crate::outside::new_thread_rng;
use crate::outside::rng_below;

verus! {

/// A supplier of bounded random values. Anything below the bound may come
/// back; nothing more is promised.
pub trait RandomSource {
    fn next_below(&mut self, bound: usize) -> (r: usize)
        requires
            bound > 0,
        ensures
            r < bound,
    ;
}

/// Randomness from the operating system, through `rand`'s thread-local
/// generator.
pub struct ThreadRandom {
    rng: rand::rngs::ThreadRng,
}

impl ThreadRandom {
    pub fn new() -> Self {
        ThreadRandom { rng: new_thread_rng() }
    }
}

impl RandomSource for ThreadRandom {
    fn next_below(&mut self, bound: usize) -> (r: usize) {
        rng_below(&mut self.rng, bound)
    }
}

/// A deterministic generator: a 64-bit linear congruential sequence. Two
/// generators built from the same seed yield the same values.
pub struct SeededRandom {
    state: u64,
}

impl SeededRandom {
    pub fn new(seed: u64) -> Self {
        SeededRandom { state: seed }
    }
}

impl RandomSource for SeededRandom {
    fn next_below(&mut self, bound: usize) -> (r: usize) {
        let wide: u128 = (self.state as u128) * 6364136223846793005u128 + 1442695040888963407u128;
        self.state = (wide % 0x1_0000_0000_0000_0000u128) as u64;
        ((self.state >> 33) as usize) % bound
    }
}

} // verus!
