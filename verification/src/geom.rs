//! Screen rectangles.

use vstd::prelude::*;

verus! {

/// A rectangle on the root window: top-left corner and size in pixels.
#[derive(Debug, Clone, Copy, PartialEq, Eq, Structural)]
pub struct Rect {
    pub x: i32,
    pub y: i32,
    pub w: u32,
    pub h: u32,
}

impl Default for Rect {
    /// The empty rectangle at the origin.
    fn default() -> (r: Rect)
        ensures
            r == (Rect { x: 0, y: 0, w: 0, h: 0 }),
    {
        Rect { x: 0, y: 0, w: 0, h: 0 }
    }
}

impl Rect {
    pub fn new(x: i32, y: i32, w: u32, h: u32) -> (r: Rect)
        ensures
            r == (Rect { x, y, w, h }),
    {
        Rect { x, y, w, h }
    }

    /// First column to the right of the rectangle.
    pub open spec fn right_edge(self) -> int {
        self.x + self.w
    }

    /// First row below the rectangle.
    pub open spec fn bottom_edge(self) -> int {
        self.y + self.h
    }

    /// The far edges are representable as X coordinates.
    pub open spec fn edges_fit(self) -> bool {
        self.right_edge() <= i32::MAX && self.bottom_edge() <= i32::MAX
    }

    /// The pixel `(px, py)` lies inside the rectangle.
    pub open spec fn covers(self, px: int, py: int) -> bool {
        self.x <= px < self.right_edge() && self.y <= py < self.bottom_edge()
    }

    /// Every pixel of `inner` lies inside `self`, edge for edge.
    pub open spec fn encloses(self, inner: Rect) -> bool {
        &&& self.x <= inner.x
        &&& self.y <= inner.y
        &&& inner.right_edge() <= self.right_edge()
        &&& inner.bottom_edge() <= self.bottom_edge()
    }

    pub fn right(&self) -> (r: i32)
        requires
            self.right_edge() <= i32::MAX,
        ensures
            r == self.right_edge(),
    {
        (self.x as i64 + self.w as i64) as i32
    }

    pub fn bottom(&self) -> (r: i32)
        requires
            self.bottom_edge() <= i32::MAX,
        ensures
            r == self.bottom_edge(),
    {
        (self.y as i64 + self.h as i64) as i32
    }

    /// Whether `inner` lies entirely within `self`.
    pub fn contains_rect(&self, inner: Rect) -> (b: bool)
        ensures
            b == self.encloses(inner),
    {
        self.x <= inner.x && self.y <= inner.y
            && inner.x as i64 + inner.w as i64 <= self.x as i64 + self.w as i64
            && inner.y as i64 + inner.h as i64 <= self.y as i64 + self.h as i64
    }

    /// Whether the pixel `(px, py)` lies within `self`.
    pub fn contains_point(&self, px: i32, py: i32) -> (b: bool)
        ensures
            b == self.covers(px as int, py as int),
    {
        px >= self.x && (px as i64) < self.x as i64 + self.w as i64 && py >= self.y && (py as i64)
            < self.y as i64 + self.h as i64
    }
}

/// Enclosure is what it says of pixels: whatever the inner rectangle covers,
/// the outer one covers too.
pub proof fn enclosing_rect_covers_inner_pixels(outer: Rect, inner: Rect, px: int, py: int)
    requires
        outer.encloses(inner),
        inner.covers(px, py),
    ensures
        outer.covers(px, py),
{
}

} // verus!
