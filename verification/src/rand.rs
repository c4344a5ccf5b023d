use vstd::prelude::*;

use vstd::wrapping::u64_specs;

verus! {

/// One xorshift scramble of the generator state.
pub open spec fn xorshift_step(x: u64) -> u64 {
    let a = x ^ (x >> 12);
    let b = a ^ (a << 25);
    b ^ (b >> 27)
}

/// The constant the scrambled state is multiplied by, modulo 2^64, to
/// produce each output.
pub open spec fn spec_mix(x: u64) -> u64 {
    u64_specs::wrapping_mul(x, 0x2545_f491_4f6c_dd1d)
}

/// An explicitly owned xorshift pseudo-random generator. The caller seeds
/// it once and passes it around; nothing here depends on hidden global
/// state, the time, or the thread.
pub struct Rng {
    pub state: u64,
}

impl Rng {
    pub fn new(seed: u64) -> (r: Rng)
        ensures
            r.state == seed,
    {
        Rng { state: seed }
    }

    /// Scrambles the state and yields the next value of the sequence: the
    /// new state multiplied, wrapping, by the mixing constant.
    pub fn next(&mut self) -> (r: u64)
        ensures
            final(self).state == xorshift_step(old(self).state),
            r == spec_mix(xorshift_step(old(self).state)),
    {
        let mut x = self.state;
        x = x ^ (x >> 12);
        x = x ^ (x << 25);
        x = x ^ (x >> 27);
        self.state = x;
        x.wrapping_mul(0x2545_f491_4f6c_dd1d)
    }
}

} // verus!
