//! The mathematical picture of a bitmap: its size, its clip rectangle and its
//! pixels in row-major order. The contracts of the drawing routines are
//! stated over this picture.

use vstd::prelude::*;
use crate::rect::Rect;

verus! {

/// What a bitmap holds, as plain mathematical values.
pub struct Raster {
    pub width: int,
    pub height: int,
    pub clip: Rect,
    pub pixels: Seq<u8>,
}

impl Raster {
    /// The size is positive and addressable with `i32` coordinates, there is
    /// one pixel per position, and the clip rectangle lies inside the bitmap.
    pub open spec fn wf(self) -> bool {
        &&& 0 < self.width <= i32::MAX
        &&& 0 < self.height <= i32::MAX
        &&& self.pixels.len() == self.width * self.height
        &&& self.contains_region(self.clip)
    }

    /// The position `(x, y)` exists in the bitmap.
    pub open spec fn in_bounds(self, x: int, y: int) -> bool {
        0 <= x < self.width && 0 <= y < self.height
    }

    /// The position `(x, y)` lies in the clip rectangle.
    pub open spec fn visible(self, x: int, y: int) -> bool {
        self.clip.spec_contains_point(x, y)
    }

    /// Every position of `region` exists in the bitmap.
    pub open spec fn contains_region(self, region: Rect) -> bool {
        &&& 0 <= region.x
        &&& 0 <= region.y
        &&& region.x + region.width <= self.width
        &&& region.y + region.height <= self.height
    }

    /// Where the pixel at `(x, y)` stands in the buffer.
    pub open spec fn index(self, x: int, y: int) -> int {
        y * self.width + x
    }

    /// The pixel at `(x, y)`.
    pub open spec fn pixel(self, x: int, y: int) -> u8 {
        self.pixels[self.index(x, y)]
    }

    /// The two pictures have the same size and the same clip rectangle.
    pub open spec fn same_frame(self, other: Raster) -> bool {
        &&& self.width == other.width
        &&& self.height == other.height
        &&& self.clip == other.clip
    }

    /// The picture with the pixel at `(x, y)` replaced by `color`.
    pub open spec fn with_pixel(self, x: int, y: int, color: u8) -> Raster {
        Raster { pixels: self.pixels.update(self.index(x, y), color), ..self }
    }

    /// The picture with every pixel replaced by `color`.
    pub open spec fn filled(self, color: u8) -> Raster {
        Raster { pixels: Seq::new(self.pixels.len(), |i: int| color), ..self }
    }

    /// The column of the pixel that stands at `offset` in the buffer.
    pub open spec fn column_of(self, offset: int) -> int {
        offset % self.width
    }

    /// The row of the pixel that stands at `offset` in the buffer.
    pub open spec fn row_of(self, offset: int) -> int {
        offset / self.width
    }
}

/// A position inside a `width` by `height` grid has a buffer offset below
/// `width * height`.
pub proof fn lemma_index_in_range(width: int, height: int, x: int, y: int)
    requires
        0 <= x < width,
        0 <= y < height,
    ensures
        0 <= y * width + x < width * height,
        y * width + x <= (height - 1) * width + x,
{
    assert(0 <= y * width) by (nonlinear_arith)
        requires
            0 <= y,
            0 < width,
    ;
    assert(y * width + width <= height * width) by (nonlinear_arith)
        requires
            y + 1 <= height,
            0 < width,
    ;
    assert(height * width == width * height) by (nonlinear_arith);
    assert((height - 1) * width == height * width - width) by (nonlinear_arith);
}

/// The column and the row of a buffer offset are the position that has this
/// offset.
pub proof fn lemma_index_split(width: int, x: int, y: int)
    requires
        0 <= x < width,
    ensures
        (y * width + x) % width == x,
        (y * width + x) / width == y,
{
    vstd::arithmetic::div_mod::lemma_fundamental_div_mod_converse(y * width + x, width, y, x);
}

/// Every offset below `width * height` is the offset of its column and row,
/// and these lie inside the grid.
pub proof fn lemma_offset_position(width: int, height: int, offset: int)
    requires
        0 < width,
        0 <= offset < width * height,
    ensures
        0 <= offset % width < width,
        0 <= offset / width < height,
        (offset / width) * width + offset % width == offset,
{
    vstd::arithmetic::div_mod::lemma_fundamental_div_mod(offset, width);
    let q = offset / width;
    let r = offset % width;
    assert(q * width == width * q) by (nonlinear_arith);
    assert(0 <= q) by (nonlinear_arith)
        requires
            width * q + r == offset,
            0 <= offset,
            0 <= r < width,
            0 < width,
    ;
    assert(q < height) by (nonlinear_arith)
        requires
            width * q + r == offset,
            offset < width * height,
            0 <= r < width,
            0 < width,
    ;
}

/// Two positions with the same buffer offset are the same position.
pub proof fn lemma_index_injective(width: int, x1: int, y1: int, x2: int, y2: int)
    requires
        0 <= x1 < width,
        0 <= x2 < width,
        y1 * width + x1 == y2 * width + x2,
    ensures
        x1 == x2,
        y1 == y2,
{
    lemma_index_split(width, x1, y1);
    lemma_index_split(width, x2, y2);
}

/// Two well-formed pictures with the same frame and the same pixel at every
/// position are the same picture.
pub proof fn lemma_same_pixels(a: Raster, b: Raster)
    requires
        a.wf(),
        b.same_frame(a),
        b.pixels.len() == a.pixels.len(),
        forall|x: int, y: int| a.in_bounds(x, y) ==> #[trigger] a.pixel(x, y) == b.pixel(x, y),
    ensures
        a == b,
{
    assert forall|i: int| 0 <= i < a.pixels.len() implies a.pixels[i] == b.pixels[i] by {
        lemma_offset_position(a.width, a.height, i);
        let x = i % a.width;
        let y = i / a.width;
        assert(a.in_bounds(x, y));
        assert(a.pixel(x, y) == b.pixel(x, y));
    }
    assert(a.pixels =~= b.pixels);
}

/// Replacing one pixel changes that position and no other, and keeps the
/// picture well formed.
pub proof fn lemma_with_pixel(r: Raster, x: int, y: int, color: u8)
    requires
        r.wf(),
        r.in_bounds(x, y),
    ensures
        r.with_pixel(x, y, color).wf(),
        r.with_pixel(x, y, color).same_frame(r),
        forall|px: int, py: int|
            r.in_bounds(px, py) ==> #[trigger] r.with_pixel(x, y, color).pixel(px, py) == (if px
                == x && py == y {
                color
            } else {
                r.pixel(px, py)
            }),
{
    lemma_index_in_range(r.width, r.height, x, y);
    assert forall|px: int, py: int| r.in_bounds(px, py) implies #[trigger] r.with_pixel(
        x,
        y,
        color,
    ).pixel(px, py) == (if px == x && py == y {
        color
    } else {
        r.pixel(px, py)
    }) by {
        lemma_index_in_range(r.width, r.height, px, py);
        if r.index(px, py) == r.index(x, y) {
            lemma_index_injective(r.width, px, py, x, y);
        }
    }
}

} // verus!
