use vstd::prelude::*;

verus! {

/// The state that replaces a zero seed, so that the xorshift stream
/// never gets stuck on the all-zero fixed point.
pub const ZERO_SEED_STATE: u64 = 0x9E3779B97F4A7C15;

/// One xorshift64 step: the whole pseudo-random stream is this function
/// iterated from the seed, so two generators with equal seeds produce
/// identical sequences.
pub open spec fn rng_step(s: u64) -> u64 {
    let a = s ^ (s << 13);
    let b = a ^ (a >> 7);
    b ^ (b << 17)
}

/// Deterministic 64-bit pseudo-random stream, seeded once per worker.
#[derive(Clone, Copy, PartialEq, Eq, Structural, Debug)]
pub struct Rng {
    pub state: u64,
}

impl Rng {
    /// The generator that the given seed determines.
    pub fn seeded(seed: u64) -> (r: Rng)
        ensures
            r.state == seed_state(seed),
    {
        if seed == 0 {
            Rng { state: ZERO_SEED_STATE }
        } else {
            Rng { state: seed }
        }
    }

    /// The next 64-bit value of the stream.
    pub fn rand_u64(&mut self) -> (r: u64)
        ensures
            final(self).state == rng_step(old(self).state),
            r == rng_step(old(self).state),
    {
        let a = self.state ^ (self.state << 13u64);
        let b = a ^ (a >> 7u64);
        let c = b ^ (b << 17u64);
        self.state = c;
        c
    }

    /// The next value of the stream, narrowed to a usize.
    pub fn rand_usize(&mut self) -> (r: usize)
        ensures
            final(self).state == rng_step(old(self).state),
            r == rng_step(old(self).state) as usize,
    {
        #[verifier::truncate]
        let r = self.rand_u64() as usize;
        r
    }
}

/// The internal state that a seed determines.
pub open spec fn seed_state(seed: u64) -> u64 {
    if seed == 0 {
        ZERO_SEED_STATE
    } else {
        seed
    }
}

} // verus!
