//! The cross shown where a wrong circle was clicked: its centre and how long it has been shown.
//! It only decorates the board; judging and scoring never read it.

use vstd::prelude::*;

verus! {

/// How long the cross stays on the board, in milliseconds.
pub const WRONG_MARK_DURATION_MS: u64 = 1500;

/// The cross's colour (the red of a wrong answer), as RGB.
pub const WRONG_MARK_COLOR: [u8; 3] = [255, 60, 60];

/// One cross on the board.
#[derive(Clone, Copy, Debug, PartialEq, Eq, Structural)]
pub struct WrongMark {
    column: u16,
    row: u16,
    elapsed_ms: u64,
}

impl WrongMark {
    /// The cell the cross is centred on.
    pub closed spec fn center_spec(self) -> (u16, u16) {
        (self.column, self.row)
    }

    /// Milliseconds the cross has been shown.
    pub closed spec fn elapsed_spec(self) -> u64 {
        self.elapsed_ms
    }

    /// A cross on the clicked cell (column, row), just shown.
    pub fn new(column: u16, row: u16) -> (r: WrongMark)
        ensures
            r.center_spec() == (column, row),
            r.elapsed_spec() == 0,
    {
        WrongMark { column, row, elapsed_ms: 0 }
    }

    /// The cell the cross is centred on.
    pub fn center(&self) -> (r: (u16, u16))
        ensures
            r == self.center_spec(),
    {
        (self.column, self.row)
    }

    /// Milliseconds the cross has been shown.
    pub fn elapsed_ms(&self) -> (r: u64)
        ensures
            r == self.elapsed_spec(),
    {
        self.elapsed_ms
    }

    /// The cross `dt_ms` milliseconds later: `None` once it has been shown for the whole
    /// duration, else the same cross, shown that much longer.
    pub fn advanced(self, dt_ms: u64) -> (r: Option<WrongMark>)
        ensures
            match r {
                Some(m) => self.elapsed_spec() + dt_ms < WRONG_MARK_DURATION_MS
                    && m.center_spec() == self.center_spec()
                    && m.elapsed_spec() == self.elapsed_spec() + dt_ms,
                None => self.elapsed_spec() + dt_ms >= WRONG_MARK_DURATION_MS,
            },
    {
        if dt_ms >= WRONG_MARK_DURATION_MS || self.elapsed_ms >= WRONG_MARK_DURATION_MS - dt_ms {
            None
        } else {
            Some(WrongMark { column: self.column, row: self.row, elapsed_ms: self.elapsed_ms + dt_ms })
        }
    }
}

} // verus!
