//! The time between two frames, in the whole microseconds that a tick takes.

use vstd::prelude::*;

verus! {

/// Turns the time that has passed, given in nanoseconds, into whole
/// microseconds and carries what is left over to the next frame, so that no
/// time is lost between frames.
#[derive(Clone, Copy, PartialEq, Eq, Debug, Structural)]
pub struct FrameClock {
    /// The nanoseconds that have passed and were not yet handed out.
    pub carried_nanos: u32,
}

/// The nanoseconds to account for: those carried and those newly passed.
pub open spec fn pending_nanos(clock: FrameClock, elapsed_nanos: u64) -> int {
    clock.carried_nanos + elapsed_nanos
}

impl FrameClock {
    /// A clock that carries nothing.
    pub fn new() -> (c: FrameClock)
        ensures
            c.carried_nanos == 0,
    {
        FrameClock { carried_nanos: 0 }
    }

    /// The whole microseconds that have passed, what was carried included;
    /// the rest below one microsecond is carried on. More microseconds than
    /// a `u32` holds are cut to the greatest `u32`, and nothing is carried.
    pub fn whole_micros(&mut self, elapsed_nanos: u64) -> (dt: u32)
        ensures
            pending_nanos(*old(self), elapsed_nanos) / 1000 <= u32::MAX ==> dt == pending_nanos(
                *old(self),
                elapsed_nanos,
            ) / 1000 && final(self).carried_nanos == pending_nanos(*old(self), elapsed_nanos)
                % 1000,
            pending_nanos(*old(self), elapsed_nanos) / 1000 > u32::MAX ==> dt == u32::MAX
                && final(self).carried_nanos == 0,
    {
        let total: u128 = self.carried_nanos as u128 + elapsed_nanos as u128;
        let micros: u128 = total / 1000;
        if micros <= 4_294_967_295u128 {
            self.carried_nanos = (total % 1000) as u32;
            micros as u32
        } else {
            self.carried_nanos = 0;
            u32::MAX
        }
    }
}

} // verus!
