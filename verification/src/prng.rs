//! A small linear congruential generator.

use vstd::prelude::*;

verus! {

/// The state that follows `seed`: `seed * 1103515245 + 12345`, reduced
/// modulo 2^31.
pub open spec fn next_seed(seed: u32) -> u32 {
    ((seed * 1_103_515_245 + 12_345) % 0x8000_0000) as u32
}

/// A pseudorandom number generator whose whole state is its seed.
#[derive(Debug, Clone, Copy, PartialEq, Eq, Structural)]
pub struct Prng {
    seed: u32,
}

impl View for Prng {
    type V = u32;

    closed spec fn view(&self) -> u32 {
        self.seed
    }
}

impl Prng {
    /// A generator that starts from `seed`.
    pub fn new(seed: u32) -> (r: Prng)
        ensures
            r@ == seed,
    {
        Prng { seed }
    }

    /// The current state.
    pub fn seed(&self) -> (r: u32)
        ensures
            r == self@,
    {
        self.seed
    }

    /// Steps the generator and returns its new state, a value below 2^31.
    pub fn next_u32(&mut self) -> (r: u32)
        ensures
            r == next_seed(old(self)@),
            final(self)@ == r,
            r < 0x8000_0000,
    {
        let wide: u64 = (self.seed as u64) * 1_103_515_245 + 12_345;
        self.seed = (wide % 0x8000_0000) as u32;
        self.seed
    }
}

} // verus!
