//! Axis-aligned rectangles on the integer pixel grid.

use vstd::prelude::*;
use crate::arith::{spec_max, spec_min};

verus! {

/// A rectangle with a signed top-left corner and an unsigned extent. It covers
/// the columns `x .. x + width` and the rows `y .. y + height`.
#[derive(Debug, Copy, Clone, PartialEq, Eq, Structural)]
pub struct Rect {
    pub x: i32,
    pub y: i32,
    pub width: u32,
    pub height: u32,
}

impl Rect {
    /// The last column that the rectangle covers.
    pub open spec fn spec_right(&self) -> int {
        self.x + self.width - 1
    }

    /// The last row that the rectangle covers.
    pub open spec fn spec_bottom(&self) -> int {
        self.y + self.height - 1
    }

    /// The rectangle covers at least one pixel.
    pub open spec fn has_area(&self) -> bool {
        self.width > 0 && self.height > 0
    }

    /// The last column and the last row are both `i32` values.
    pub open spec fn edges_fit(&self) -> bool {
        &&& i32::MIN <= self.spec_right() <= i32::MAX
        &&& i32::MIN <= self.spec_bottom() <= i32::MAX
    }

    /// The pixel `(x, y)` lies in the rectangle.
    pub open spec fn spec_contains_point(&self, x: int, y: int) -> bool {
        &&& self.x <= x <= self.spec_right()
        &&& self.y <= y <= self.spec_bottom()
    }

    /// Every pixel of `other` lies in the rectangle.
    pub open spec fn spec_contains_rect(&self, other: &Rect) -> bool {
        &&& self.x <= other.x
        &&& other.spec_right() <= self.spec_right()
        &&& self.y <= other.y
        &&& other.spec_bottom() <= self.spec_bottom()
    }

    /// The two rectangles share at least one pixel.
    pub open spec fn spec_overlaps(&self, other: &Rect) -> bool {
        &&& spec_max(self.x as int, other.x as int) < spec_min(
            self.x + self.width,
            other.x + other.width,
        )
        &&& spec_max(self.y as int, other.y as int) < spec_min(
            self.y + self.height,
            other.y + other.height,
        )
    }

    /// The pixels that the two rectangles share, where `spec_overlaps` holds.
    pub open spec fn spec_intersection(&self, other: &Rect) -> Rect {
        let left = spec_max(self.x as int, other.x as int);
        let top = spec_max(self.y as int, other.y as int);
        Rect {
            x: left as i32,
            y: top as i32,
            width: (spec_min(self.x + self.width, other.x + other.width) - left) as u32,
            height: (spec_min(self.y + self.height, other.y + other.height) - top) as u32,
        }
    }

    /// The rectangle whose opposite corners are `(left, top)` and
    /// `(right, bottom)`, in whichever order the corners are given.
    pub open spec fn spec_from_coords(left: int, top: int, right: int, bottom: int) -> Rect {
        Rect {
            x: spec_min(left, right) as i32,
            y: spec_min(top, bottom) as i32,
            width: (spec_max(left, right) - spec_min(left, right) + 1) as u32,
            height: (spec_max(top, bottom) - spec_min(top, bottom) + 1) as u32,
        }
    }

    /// Builds a rectangle from its top-left corner and its extent.
    pub fn new(x: i32, y: i32, width: u32, height: u32) -> (r: Rect)
        ensures
            r == (Rect { x, y, width, height }),
    {
        Rect { x, y, width, height }
    }

    /// Builds the rectangle that spans two corner points, both included. The
    /// corners may come in either order. The span along each axis has to fit
    /// in a `u32`.
    pub fn from_coords(left: i32, top: i32, right: i32, bottom: i32) -> (r: Rect)
        requires
            spec_max(left as int, right as int) - spec_min(left as int, right as int) < u32::MAX,
            spec_max(top as int, bottom as int) - spec_min(top as int, bottom as int) < u32::MAX,
        ensures
            r == Rect::spec_from_coords(left as int, top as int, right as int, bottom as int),
            r.x == spec_min(left as int, right as int),
            r.y == spec_min(top as int, bottom as int),
            r.spec_right() == spec_max(left as int, right as int),
            r.spec_bottom() == spec_max(top as int, bottom as int),
            r.has_area(),
            r.edges_fit(),
    {
        let (x, far_x): (i32, i32) = if left <= right { (left, right) } else { (right, left) };
        let (y, far_y): (i32, i32) = if top <= bottom { (top, bottom) } else { (bottom, top) };
        let width: i64 = far_x as i64 - x as i64 + 1;
        let height: i64 = far_y as i64 - y as i64 + 1;
        Rect { x, y, width: width as u32, height: height as u32 }
    }

    /// The last column that the rectangle covers.
    pub fn right(&self) -> (r: i32)
        requires
            i32::MIN <= self.spec_right() <= i32::MAX,
        ensures
            r == self.spec_right(),
    {
        (self.x as i64 + self.width as i64 - 1) as i32
    }

    /// The last row that the rectangle covers.
    pub fn bottom(&self) -> (r: i32)
        requires
            i32::MIN <= self.spec_bottom() <= i32::MAX,
        ensures
            r == self.spec_bottom(),
    {
        (self.y as i64 + self.height as i64 - 1) as i32
    }

    /// Whether the pixel `(x, y)` lies in the rectangle.
    pub fn contains_point(&self, x: i32, y: i32) -> (inside: bool)
        ensures
            inside == self.spec_contains_point(x as int, y as int),
    {
        self.x <= x && (x as i64) < self.x as i64 + self.width as i64 && self.y <= y && (y as i64)
            < self.y as i64 + self.height as i64
    }

    /// Shrinks the rectangle to the pixels that it shares with `other`.
    /// Returns whether there are any; where there are none the rectangle is
    /// left as it was.
    pub fn clamp_to(&mut self, other: &Rect) -> (visible: bool)
        ensures
            visible == old(self).spec_overlaps(other),
            visible ==> *final(self) == old(self).spec_intersection(other),
            visible ==> final(self).has_area(),
            visible ==> old(self).spec_contains_rect(final(self)),
            visible ==> other.spec_contains_rect(final(self)),
            !visible ==> *final(self) == *old(self),
    {
        let left: i64 = if self.x >= other.x { self.x as i64 } else { other.x as i64 };
        let top: i64 = if self.y >= other.y { self.y as i64 } else { other.y as i64 };
        let end_x: i64 = self.x as i64 + self.width as i64;
        let other_end_x: i64 = other.x as i64 + other.width as i64;
        let end_y: i64 = self.y as i64 + self.height as i64;
        let other_end_y: i64 = other.y as i64 + other.height as i64;
        let right: i64 = if end_x <= other_end_x { end_x } else { other_end_x };
        let bottom: i64 = if end_y <= other_end_y { end_y } else { other_end_y };
        if left < right && top < bottom {
            self.x = left as i32;
            self.y = top as i32;
            self.width = (right - left) as u32;
            self.height = (bottom - top) as u32;
            true
        } else {
            false
        }
    }
}

} // verus!
