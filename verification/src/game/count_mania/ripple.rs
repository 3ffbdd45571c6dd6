//! The ripple that spreads from a correct click: its centre, how long it has run, and how far it
//! spreads. Its radius and fading are drawn with floating point outside this crate; judging and
//! scoring never read it.

use crate::game::count_mania::layout::CircleSize;
use vstd::prelude::*;

verus! {

/// How long a ripple runs before it has spread out and vanished, in milliseconds.
pub const RIPPLE_DURATION_MS: u64 = 500;

/// How often the ripple's picture is redrawn, in milliseconds (one frame).
pub const RIPPLE_FRAME_INTERVAL_MS: u64 = 50;

/// The ripple's colour (the green of a correct answer), as RGB.
pub const RIPPLE_COLOR: [u8; 3] = [120, 235, 150];

/// Radius of a fully spread ripple, in cell heights, for the size of the clicked circle.
pub open spec fn max_radius_spec(size: CircleSize) -> u64 {
    match size {
        CircleSize::Huge => 7,
        CircleSize::Large => 5,
        CircleSize::Medium => 4,
        CircleSize::Small => 3,
    }
}

/// Radius of a fully spread ripple, in cell heights: larger circles spread wider ripples.
pub fn max_radius_cells_for(size: CircleSize) -> (r: u64)
    ensures
        r == max_radius_spec(size),
{
    match size {
        CircleSize::Huge => 7,
        CircleSize::Large => 5,
        CircleSize::Medium => 4,
        CircleSize::Small => 3,
    }
}

/// One running ripple.
#[derive(Clone, Copy, Debug, PartialEq, Eq, Structural)]
pub struct Ripple {
    column: u16,
    row: u16,
    elapsed_ms: u64,
    max_radius_cells: u64,
}

impl Ripple {
    /// The cell the ripple spreads from.
    pub closed spec fn center_spec(self) -> (u16, u16) {
        (self.column, self.row)
    }

    /// Milliseconds since the ripple started.
    pub closed spec fn elapsed_spec(self) -> u64 {
        self.elapsed_ms
    }

    /// Radius of the fully spread ripple, in cell heights.
    pub closed spec fn max_radius_spec(self) -> u64 {
        self.max_radius_cells
    }

    /// A ripple starting at the clicked cell (column, row), as wide as the clicked circle's size
    /// calls for.
    pub fn new(column: u16, row: u16, size: CircleSize) -> (r: Ripple)
        ensures
            r.center_spec() == (column, row),
            r.elapsed_spec() == 0,
            r.max_radius_spec() == max_radius_spec(size),
    {
        Ripple { column, row, elapsed_ms: 0, max_radius_cells: max_radius_cells_for(size) }
    }

    /// The cell the ripple spreads from.
    pub fn center(&self) -> (r: (u16, u16))
        ensures
            r == self.center_spec(),
    {
        (self.column, self.row)
    }

    /// Milliseconds since the ripple started.
    pub fn elapsed_ms(&self) -> (r: u64)
        ensures
            r == self.elapsed_spec(),
    {
        self.elapsed_ms
    }

    /// Radius of the fully spread ripple, in cell heights.
    pub fn max_radius_cells(&self) -> (r: u64)
        ensures
            r == self.max_radius_spec(),
    {
        self.max_radius_cells
    }

    /// The ripple `dt_ms` milliseconds later: `None` once its duration has passed, else the same
    /// ripple, that much older.
    pub fn advanced(self, dt_ms: u64) -> (r: Option<Ripple>)
        ensures
            match r {
                Some(p) => self.elapsed_spec() + dt_ms < RIPPLE_DURATION_MS
                    && p.center_spec() == self.center_spec()
                    && p.max_radius_spec() == self.max_radius_spec()
                    && p.elapsed_spec() == self.elapsed_spec() + dt_ms,
                None => self.elapsed_spec() + dt_ms >= RIPPLE_DURATION_MS,
            },
    {
        if dt_ms >= RIPPLE_DURATION_MS || self.elapsed_ms >= RIPPLE_DURATION_MS - dt_ms {
            None
        } else {
            Some(Ripple { column: self.column, row: self.row, elapsed_ms: self.elapsed_ms + dt_ms, max_radius_cells: self.max_radius_cells })
        }
    }

    /// The frame the ripple is in: one more every `RIPPLE_FRAME_INTERVAL_MS`. Its picture is
    /// redrawn only when the frame changes.
    pub fn frame(&self) -> (r: u32)
        ensures
            r == (self.elapsed_spec() / RIPPLE_FRAME_INTERVAL_MS) as u32,
    {
        (self.elapsed_ms / RIPPLE_FRAME_INTERVAL_MS) as u32
    }
}

} // verus!
