//! Per-session animation state that the simulation ticks drive.

use vstd::prelude::*;

verus! {

/// Ticks one hand swing lasts.
pub const SWING_TICKS: u32 = 36;

/// The hand-swing animation: ticks left in the current swing, 0 when idle.
pub struct Swing {
    remaining: u32,
}

impl View for Swing {
    type V = u32;

    closed spec fn view(&self) -> u32 {
        self.remaining
    }
}

impl Default for Swing {
    fn default() -> (r: Self)
        ensures
            r@ == 0,
    {
        Swing { remaining: 0 }
    }
}

impl Swing {
    /// Ticks left in the current swing; 0 when the hand is at rest.
    pub fn remaining(&self) -> (r: u32)
        ensures
            r == self@,
    {
        self.remaining
    }

    /// Starts a fresh swing, restarting one in progress.
    pub fn start(&mut self)
        ensures
            final(self)@ == SWING_TICKS,
    {
        self.remaining = SWING_TICKS;
    }

    /// Starts a swing only when the hand is at rest.
    pub fn start_if_idle(&mut self)
        ensures
            final(self)@ == (if old(self)@ == 0 { SWING_TICKS } else { old(self)@ }),
    {
        if self.remaining == 0 {
            self.start();
        }
    }

    /// Advances the swing by `ticks`, stopping at rest.
    pub fn step(&mut self, ticks: u32)
        ensures
            final(self)@ == (if old(self)@ >= ticks { (old(self)@ - ticks) as u32 } else { 0u32 }),
    {
        self.remaining = self.remaining.saturating_sub(ticks);
    }
}

} // verus!
