//! SplitMix64: a small seedable pseudo-random generator, so that a run of
//! random key events can be replayed from its seed.

use vstd::prelude::*;

verus! {

/// The increment of the generator's state per draw.
pub const GAMMA: u64 = 0x9E37_79B9_7F4A_7C15;

/// The output function: scrambles a state into a 64-bit draw.
pub open spec fn mix(s: u64) -> u64 {
    let z1 = (s ^ (s >> 30u64)).wrapping_mul(0xBF58_476D_1CE4_E5B9u64);
    let z2 = (z1 ^ (z1 >> 27u64)).wrapping_mul(0x94D0_49BB_1331_11EBu64);
    z2 ^ (z2 >> 31u64)
}

/// The generator; its field is the state.
pub struct Rng(pub u64);

impl Rng {
    /// Advances the state by `GAMMA` (wrapping) and returns the mixed state.
    pub fn next(&mut self) -> (r: u64)
        ensures
            final(self).0 == old(self).0.wrapping_add(GAMMA),
            r == mix(final(self).0),
    {
        self.0 = self.0.wrapping_add(GAMMA);
        let mut z = self.0;
        z = (z ^ (z >> 30u64)).wrapping_mul(0xBF58_476D_1CE4_E5B9u64);
        z = (z ^ (z >> 27u64)).wrapping_mul(0x94D0_49BB_1331_11EBu64);
        z ^ (z >> 31u64)
    }

    /// A draw below `n`: the next draw modulo `n`.
    pub fn below(&mut self, n: u64) -> (r: u64)
        requires
            n > 0,
        ensures
            final(self).0 == old(self).0.wrapping_add(GAMMA),
            r == mix(final(self).0) % n,
            r < n,
    {
        self.next() % n
    }

    /// A coin flip: the lowest bit of the next draw.
    pub fn coin(&mut self) -> (b: bool)
        ensures
            final(self).0 == old(self).0.wrapping_add(GAMMA),
            b == (mix(final(self).0) & 1u64 == 1u64),
    {
        self.next() & 1 == 1
    }
}

} // verus!
