//! Linear congruential generator shared by every procedural painter and
//! spawner; the fixed constants keep every consumer bit-identical across
//! platforms.

use vstd::prelude::*;

verus! {

/// The generator state after one step from `s`.
pub open spec fn lcg_step(s: u32) -> u32 {
    s.wrapping_mul(1_664_525).wrapping_add(1_013_904_223)
}

/// The generator state after `n` steps from `s`.
pub open spec fn lcg_steps(s: u32, n: nat) -> u32
    decreases n,
{
    if n == 0 {
        s
    } else {
        lcg_step(lcg_steps(s, (n - 1) as nat))
    }
}

/// Deterministic 32-bit LCG state.
#[derive(Clone, Copy, Debug)]
pub struct Lcg(u32);

impl View for Lcg {
    type V = u32;

    closed spec fn view(&self) -> u32 {
        self.0
    }
}

impl Lcg {
    /// A generator starting from `seed`.
    pub fn new(seed: u32) -> (r: Self)
        ensures
            r@ == seed,
    {
        Lcg(seed)
    }

    /// Advances the generator one step and returns the new state, the raw
    /// 32-bit draw that unit-range values are scaled from.
    pub fn next_u32(&mut self) -> (r: u32)
        ensures
            final(self)@ == lcg_step(old(self)@),
            r == final(self)@,
    {
        self.0 = self.0.wrapping_mul(1_664_525).wrapping_add(1_013_904_223);
        self.0
    }
}

} // verus!
