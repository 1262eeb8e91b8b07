//! The logical clock that stamps every column version of a replica.

use vstd::prelude::*;

verus! {

/// A Lamport-style counter. It only ever moves forward.
#[derive(Debug)]
pub struct LogicalClock {
    time: u64,
}

impl View for LogicalClock {
    type V = nat;

    closed spec fn view(&self) -> nat {
        self.time as nat
    }
}

impl LogicalClock {
    /// A clock that has seen no event.
    pub fn new() -> (clock: Self)
        ensures
            clock@ == 0,
    {
        LogicalClock { time: 0 }
    }

    /// Advances the clock for a local event and returns the new reading.
    pub fn tick(&mut self) -> (now: u64)
        requires
            old(self)@ < u64::MAX,
        ensures
            final(self)@ == old(self)@ + 1,
            old(self)@ <= final(self)@,
            now == final(self)@,
    {
        self.time += 1;
        self.time
    }

    /// Moves the clock past both its own reading and `received_time`.
    pub fn update(&mut self, received_time: u64) -> (now: u64)
        requires
            old(self)@ < u64::MAX,
            received_time < u64::MAX,
        ensures
            final(self)@ == vstd::math::max(old(self)@ as int, received_time as int) + 1,
            old(self)@ <= final(self)@,
            now == final(self)@,
    {
        if self.time < received_time {
            self.time = received_time;
        }
        self.time += 1;
        self.time
    }

    /// The current reading.
    pub fn current_time(&self) -> (now: u64)
        ensures
            now == self@,
    {
        self.time
    }
}

impl Clone for LogicalClock {
    fn clone(&self) -> (copy: Self)
        ensures
            copy@ == self@,
    {
        LogicalClock { time: self.time }
    }
}

} // verus!
