//! Cell rectangles on the terminal grid, with the arithmetic that the games use on them.

use vstd::prelude::*;

verus! {

/// A rectangle of terminal cells: left column, top row, width and height.
#[derive(Clone, Copy, Debug, PartialEq, Eq, Structural)]
pub struct Rect {
    pub x: u16,
    pub y: u16,
    pub width: u16,
    pub height: u16,
}

impl Rect {
    /// The right and bottom edges do not leave the `u16` coordinate space.
    pub open spec fn wf(self) -> bool {
        &&& self.x + self.width <= u16::MAX
        &&& self.y + self.height <= u16::MAX
    }

    /// First column to the right of the rectangle.
    pub open spec fn right_spec(self) -> int {
        self.x + self.width
    }

    /// First row below the rectangle.
    pub open spec fn bottom_spec(self) -> int {
        self.y + self.height
    }

    /// The cell (column, row) lies inside the rectangle.
    pub open spec fn has_cell(self, column: int, row: int) -> bool {
        &&& self.x <= column < self.right_spec()
        &&& self.y <= row < self.bottom_spec()
    }

    /// A rectangle at (x, y); a width or height that would run past the coordinate space is cut
    /// so that the rectangle ends at `u16::MAX`.
    pub fn new(x: u16, y: u16, width: u16, height: u16) -> (r: Rect)
        ensures
            r.wf(),
            r.x == x,
            r.y == y,
            r.width == (if width <= u16::MAX - x { width as int } else { u16::MAX - x }),
            r.height == (if height <= u16::MAX - y { height as int } else { u16::MAX - y }),
    {
        let max_width = u16::MAX - x;
        let max_height = u16::MAX - y;
        let width = if width > max_width { max_width } else { width };
        let height = if height > max_height { max_height } else { height };
        Rect { x, y, width, height }
    }

    /// The rectangle holds no cell.
    pub fn is_empty(&self) -> (r: bool)
        ensures
            r == (self.width == 0 || self.height == 0),
    {
        self.width == 0 || self.height == 0
    }

    /// First column to the right of the rectangle.
    pub fn right(&self) -> (r: u16)
        requires
            self.wf(),
        ensures
            r == self.right_spec(),
    {
        self.x + self.width
    }

    /// First row below the rectangle.
    pub fn bottom(&self) -> (r: u16)
        requires
            self.wf(),
        ensures
            r == self.bottom_spec(),
    {
        self.y + self.height
    }

    /// The two rectangles share at least one cell.
    pub open spec fn overlaps(self, other: Rect) -> bool {
        &&& self.x < other.right_spec()
        &&& other.x < self.right_spec()
        &&& self.y < other.bottom_spec()
        &&& other.y < self.bottom_spec()
    }

    /// The two rectangles share at least one cell.
    pub fn intersects(&self, other: &Rect) -> (r: bool)
        requires
            self.wf(),
            other.wf(),
        ensures
            r == self.overlaps(*other),
    {
        self.x < other.right() && self.right() > other.x && self.y < other.bottom()
            && self.bottom() > other.y
    }

    /// The smallest rectangle that holds both rectangles.
    pub open spec fn union_spec(self, other: Rect) -> Rect {
        let x1 = if self.x <= other.x { self.x } else { other.x };
        let y1 = if self.y <= other.y { self.y } else { other.y };
        let x2 = if self.right_spec() >= other.right_spec() { self.right_spec() } else { other.right_spec() };
        let y2 = if self.bottom_spec() >= other.bottom_spec() { self.bottom_spec() } else { other.bottom_spec() };
        Rect { x: x1, y: y1, width: (x2 - x1) as u16, height: (y2 - y1) as u16 }
    }

    /// The smallest rectangle that holds both rectangles.
    pub fn union(&self, other: &Rect) -> (r: Rect)
        requires
            self.wf(),
            other.wf(),
        ensures
            r == self.union_spec(*other),
            r.wf(),
    {
        let x1 = if self.x <= other.x { self.x } else { other.x };
        let y1 = if self.y <= other.y { self.y } else { other.y };
        let x2 = if self.right() >= other.right() { self.right() } else { other.right() };
        let y2 = if self.bottom() >= other.bottom() { self.bottom() } else { other.bottom() };
        Rect { x: x1, y: y1, width: x2 - x1, height: y2 - y1 }
    }

    /// The cells that the two rectangles share, placed at the larger of the two corners; an
    /// empty rectangle where they share none.
    pub open spec fn intersection_spec(self, other: Rect) -> Rect {
        let x1 = if self.x >= other.x { self.x } else { other.x };
        let y1 = if self.y >= other.y { self.y } else { other.y };
        let x2 = if self.right_spec() <= other.right_spec() { self.right_spec() } else { other.right_spec() };
        let y2 = if self.bottom_spec() <= other.bottom_spec() { self.bottom_spec() } else { other.bottom_spec() };
        Rect {
            x: x1,
            y: y1,
            width: if x2 > x1 { (x2 - x1) as u16 } else { 0 },
            height: if y2 > y1 { (y2 - y1) as u16 } else { 0 },
        }
    }

    /// The cells that the two rectangles share, placed at the larger of the two corners.
    pub fn intersection(&self, other: &Rect) -> (r: Rect)
        requires
            self.wf(),
            other.wf(),
        ensures
            r == self.intersection_spec(*other),
            r.wf(),
    {
        let x1 = if self.x >= other.x { self.x } else { other.x };
        let y1 = if self.y >= other.y { self.y } else { other.y };
        let x2 = if self.right() <= other.right() { self.right() } else { other.right() };
        let y2 = if self.bottom() <= other.bottom() { self.bottom() } else { other.bottom() };
        Rect {
            x: x1,
            y: y1,
            width: if x2 > x1 { x2 - x1 } else { 0 },
            height: if y2 > y1 { y2 - y1 } else { 0 },
        }
    }
}

/// Every cell of either rectangle lies in their union.
pub proof fn lemma_union_holds_both(a: Rect, b: Rect, column: int, row: int)
    requires
        a.wf(),
        b.wf(),
        a.has_cell(column, row) || b.has_cell(column, row),
    ensures
        a.union_spec(b).has_cell(column, row),
{
}

/// A cell lies in the intersection of two rectangles exactly when it lies in both.
pub proof fn lemma_intersection_is_common_cells(a: Rect, b: Rect, column: int, row: int)
    requires
        a.wf(),
        b.wf(),
    ensures
        a.intersection_spec(b).has_cell(column, row) <==> (a.has_cell(column, row) && b.has_cell(column, row)),
{
}

} // verus!
