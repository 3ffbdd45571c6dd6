//! The "3, 2, 1, GO!!" countdown that opens a round: four phases of equal length.

use crate::sat_add;
use vstd::prelude::*;

verus! {

/// Length of each of the four phases, in milliseconds.
pub const PHASE_DURATION_MS: u64 = 600;

/// The glyph that the countdown shows.
#[derive(Clone, Copy, Debug, PartialEq, Eq, Structural)]
pub enum Phase {
    Three,
    Two,
    One,
    Go,
}

/// The phase shown after `elapsed_ms` milliseconds; `None` once all four phases are over.
pub open spec fn phase_at(elapsed_ms: int) -> Option<Phase> {
    if elapsed_ms < PHASE_DURATION_MS {
        Some(Phase::Three)
    } else if elapsed_ms < 2 * PHASE_DURATION_MS {
        Some(Phase::Two)
    } else if elapsed_ms < 3 * PHASE_DURATION_MS {
        Some(Phase::One)
    } else if elapsed_ms < 4 * PHASE_DURATION_MS {
        Some(Phase::Go)
    } else {
        None
    }
}

/// A running countdown: how long it has been shown.
#[derive(Clone, Copy, Debug, PartialEq, Eq, Structural)]
pub struct CountdownState {
    elapsed_ms: u64,
}

impl CountdownState {
    /// Milliseconds since the countdown started.
    pub closed spec fn elapsed(self) -> u64 {
        self.elapsed_ms
    }

    /// A countdown that starts at "3".
    pub fn new() -> (r: CountdownState)
        ensures
            r.elapsed() == 0,
    {
        CountdownState { elapsed_ms: 0 }
    }

    /// The phase shown now; `None` once the countdown is over.
    pub fn phase(&self) -> (r: Option<Phase>)
        ensures
            r == phase_at(self.elapsed() as int),
    {
        phase_of(self.elapsed_ms)
    }

    /// Advances the countdown by `dt_ms`. Returns the phase that it entered if the phase changed
    /// to another shown phase, else `None`.
    pub fn tick(&mut self, dt_ms: u64) -> (r: Option<Phase>)
        ensures
            final(self).elapsed() == sat_add(old(self).elapsed(), dt_ms),
            r == (if phase_at(final(self).elapsed() as int) != phase_at(old(self).elapsed() as int) {
                phase_at(final(self).elapsed() as int)
            } else {
                None
            }),
    {
        let before = phase_of(self.elapsed_ms);
        self.elapsed_ms = self.elapsed_ms.saturating_add(dt_ms);
        let after = phase_of(self.elapsed_ms);
        if after != before {
            after
        } else {
            None
        }
    }

    /// All four phases are over.
    pub fn is_finished(&self) -> (r: bool)
        ensures
            r == (self.elapsed() >= 4 * PHASE_DURATION_MS),
            r == (phase_at(self.elapsed() as int) is None),
    {
        self.elapsed_ms >= 4 * PHASE_DURATION_MS
    }
}

fn phase_of(elapsed_ms: u64) -> (r: Option<Phase>)
    ensures
        r == phase_at(elapsed_ms as int),
{
    if elapsed_ms < PHASE_DURATION_MS {
        Some(Phase::Three)
    } else if elapsed_ms < 2 * PHASE_DURATION_MS {
        Some(Phase::Two)
    } else if elapsed_ms < 3 * PHASE_DURATION_MS {
        Some(Phase::One)
    } else if elapsed_ms < 4 * PHASE_DURATION_MS {
        Some(Phase::Go)
    } else {
        None
    }
}

} // verus!
