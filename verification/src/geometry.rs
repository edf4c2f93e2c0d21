//! Areas of the screen.

use vstd::prelude::*;

verus! {

/// A rectangle of cells.
#[derive(Clone, Copy, Debug, PartialEq, Eq, Structural)]
pub struct Rect {
    pub x: u16,
    pub y: u16,
    pub width: u16,
    pub height: u16,
}

/// Addition that stops at the last row or column.
pub open spec fn sat_add16(a: u16, b: u16) -> u16 {
    if a + b > u16::MAX {
        u16::MAX
    } else {
        (a + b) as u16
    }
}

impl Rect {
    pub fn new(x: u16, y: u16, width: u16, height: u16) -> (r: Rect)
        ensures
            r == (Rect { x, y, width, height }),
    {
        Rect { x, y, width, height }
    }

    pub open spec fn empty(self) -> bool {
        self.width == 0 || self.height == 0
    }

    pub fn is_empty(&self) -> (r: bool)
        ensures
            r == self.empty(),
    {
        self.width == 0 || self.height == 0
    }

    /// The first column behind the rectangle.
    pub open spec fn right_end(self) -> u16 {
        sat_add16(self.x, self.width)
    }

    pub fn right(&self) -> (r: u16)
        ensures
            r == self.right_end(),
    {
        self.x.saturating_add(self.width)
    }

    /// The first row below the rectangle.
    pub open spec fn bottom_end(self) -> u16 {
        sat_add16(self.y, self.height)
    }

    pub fn bottom(&self) -> (r: u16)
        ensures
            r == self.bottom_end(),
    {
        self.y.saturating_add(self.height)
    }

    /// Whether a row runs through the rectangle.
    pub open spec fn has_row(self, row: int) -> bool {
        self.y <= row < self.bottom_end()
    }
}

/// Whether two rectangles share a column.
pub open spec fn share_columns(a: Rect, b: Rect) -> bool {
    !a.empty() && !b.empty() && a.x < b.right_end() && b.x < a.right_end()
}

pub fn rects_intersect_horizontally(a: Rect, b: Rect) -> (r: bool)
    ensures
        r == share_columns(a, b),
{
    !a.is_empty() && !b.is_empty() && a.x < b.right() && b.x < a.right()
}

} // verus!
