//! The pseudo-random generator of the sandbox: a 64-bit linear
//! congruential generator that mixes the clock's nanoseconds into every
//! step, and hands out 31 random bits per step.

use vstd::prelude::*;
use vstd::arithmetic::div_mod::lemma_add_mod_noop;

verus! {

pub const LCG_MULTIPLIER: u64 = 6364136223846793005;

pub const LCG_MIX: u64 = 1442695040888963407;

/// The seed after one step, fed the clock's nanoseconds `nanos`:
/// `seed * 6364136223846793005 + (nanos ^ 1442695040888963407)` modulo 2^64.
pub open spec fn next_seed(seed: u64, nanos: u64) -> u64 {
    ((seed * LCG_MULTIPLIER + (nanos ^ LCG_MIX)) % 0x1_0000_0000_0000_0000) as u64
}

/// The generator state.
pub struct Lcg {
    pub seed: u64,
}

impl Lcg {
    /// A generator with seed 0.
    pub fn new() -> (g: Lcg)
        ensures
            g.seed == 0,
    {
        Lcg { seed: 0 }
    }

    /// Steps the generator and returns the top 31 bits of the new seed;
    /// divided by 2^31 they give a number in `[0, 1)`.
    pub fn next_bits(&mut self, nanos: u64) -> (r: u32)
        ensures
            final(self).seed == next_seed(old(self).seed, nanos),
            r == final(self).seed >> 33,
            r < 0x8000_0000,
    {
        let m = self.seed.wrapping_mul(LCG_MULTIPLIER);
        let x = nanos ^ LCG_MIX;
        let s = m.wrapping_add(x);
        proof {
            let big: int = 0x1_0000_0000_0000_0000;
            lemma_add_mod_noop(self.seed * LCG_MULTIPLIER, x as int, big);
            assert((x as int) % big == x as int);
            assert(s == next_seed(self.seed, nanos));
        }
        self.seed = s;
        let r = s >> 33;
        assert(s >> 33 < 0x8000_0000) by (bit_vector);
        r as u32
    }
}


/// One step multiplies by 6364136223846793005 and adds the nanoseconds
/// xor 1442695040888963407, modulo 2^64; from seed 0 with no nanoseconds
/// the seed becomes 1442695040888963407.
pub proof fn lemma_step_constants(seed: u64, nanos: u64)
    ensures
        next_seed(seed, nanos) == ((seed * 6364136223846793005u64 + (nanos
            ^ 1442695040888963407u64)) % 0x1_0000_0000_0000_0000) as u64,
        next_seed(0, 0) == 1442695040888963407u64,
{
    assert(0u64 ^ 1442695040888963407u64 == 1442695040888963407u64) by (bit_vector);
}

} // verus!
