//! The bitmap: a buffer of palette indices, one byte per pixel, with a clip
//! rectangle that confines drawing.

use vstd::prelude::*;
use crate::raster::{Raster, lemma_index_in_range, lemma_with_pixel};
use crate::rect::Rect;

verus! {

/// Why a bitmap could not be made.
#[derive(Debug, Copy, Clone, PartialEq, Eq, Structural)]
pub enum BitmapError {
    /// A side is zero, a side is beyond what `i32` coordinates reach, or the
    /// pixel count is more than a buffer can hold.
    InvalidDimensions,
}

/// A rectangle of pixels in row-major order, each a palette index.
#[derive(Debug, PartialEq, Eq)]
pub struct Bitmap {
    width: u32,
    height: u32,
    pixels: Vec<u8>,
    clip_region: Rect,
}

impl View for Bitmap {
    type V = Raster;

    closed spec fn view(&self) -> Raster {
        Raster {
            width: self.width as int,
            height: self.height as int,
            clip: self.clip_region,
            pixels: self.pixels@,
        }
    }
}

impl Clone for Bitmap {
    /// A second bitmap with the same size, clip rectangle and pixels.
    fn clone(&self) -> (copy: Bitmap)
        ensures
            copy@ == self@,
    {
        let pixels = self.pixels.clone();
        assert(pixels@ =~= self.pixels@);
        Bitmap {
            width: self.width,
            height: self.height,
            pixels,
            clip_region: self.clip_region,
        }
    }
}

/// A bitmap can have the sides `width` and `height`.
pub open spec fn valid_dimensions(width: u32, height: u32) -> bool {
    &&& 0 < width <= i32::MAX
    &&& 0 < height <= i32::MAX
    &&& width * height <= isize::MAX
}

impl Bitmap {
    /// The bitmap's invariant: its picture is well formed.
    pub open spec fn wf(&self) -> bool {
        self@.wf()
    }

    /// The rectangle that covers the whole bitmap.
    pub open spec fn spec_full_bounds(&self) -> Rect {
        Rect { x: 0, y: 0, width: self@.width as u32, height: self@.height as u32 }
    }

    /// Makes a bitmap of the given size with every pixel zero and the whole
    /// bitmap visible.
    pub fn new(width: u32, height: u32) -> (r: Result<Bitmap, BitmapError>)
        ensures
            r is Ok == valid_dimensions(width, height),
            r matches Ok(b) ==> ({
                &&& b.wf()
                &&& b@.width == width
                &&& b@.height == height
                &&& b@.clip == (Rect { x: 0, y: 0, width, height })
                &&& b@.pixels == Seq::new((width * height) as nat, |i: int| 0u8)
            }),
            r matches Err(e) ==> e == BitmapError::InvalidDimensions,
    {
        if width == 0 || height == 0 || width > 0x7fff_ffff || height > 0x7fff_ffff {
            return Err(BitmapError::InvalidDimensions);
        }
        assert(width * height <= 0x7fff_ffff * 0x7fff_ffff) by (nonlinear_arith)
            requires
                0 < width <= 0x7fff_ffff,
                0 < height <= 0x7fff_ffff,
        ;
        let count: u64 = width as u64 * height as u64;
        if count > isize::MAX as u64 {
            return Err(BitmapError::InvalidDimensions);
        }
        let pixels: Vec<u8> = vec![0u8; count as usize];
        assert(pixels@ =~= Seq::new((width * height) as nat, |i: int| 0u8));
        Ok(Bitmap { width, height, pixels, clip_region: Rect { x: 0, y: 0, width, height } })
    }

    /// The number of columns.
    pub fn width(&self) -> (w: u32)
        ensures
            w == self@.width,
    {
        self.width
    }

    /// The number of rows.
    pub fn height(&self) -> (h: u32)
        ensures
            h == self@.height,
    {
        self.height
    }

    /// The last column.
    pub fn right(&self) -> (r: u32)
        requires
            self.wf(),
        ensures
            r == self@.width - 1,
    {
        self.width - 1
    }

    /// The last row.
    pub fn bottom(&self) -> (r: u32)
        requires
            self.wf(),
        ensures
            r == self@.height - 1,
    {
        self.height - 1
    }

    /// The rectangle that drawing is confined to.
    pub fn clip_region(&self) -> (r: &Rect)
        ensures
            *r == self@.clip,
    {
        &self.clip_region
    }

    /// The rectangle that covers the whole bitmap.
    pub fn full_bounds(&self) -> (r: Rect)
        ensures
            r == self.spec_full_bounds(),
    {
        Rect { x: 0, y: 0, width: self.width, height: self.height }
    }

    /// Confines drawing to the part of `region` that lies in the bitmap.
    /// Where no part of it does, nothing is visible afterwards.
    pub fn set_clip_region(&mut self, region: &Rect)
        requires
            old(self).wf(),
        ensures
            final(self).wf(),
            final(self)@.width == old(self)@.width,
            final(self)@.height == old(self)@.height,
            final(self)@.pixels == old(self)@.pixels,
            final(self)@.clip == (if region.spec_overlaps(&old(self).spec_full_bounds()) {
                region.spec_intersection(&old(self).spec_full_bounds())
            } else {
                Rect { x: 0, y: 0, width: 0, height: 0 }
            }),
    {
        let bounds = self.full_bounds();
        let mut clipped = *region;
        if clipped.clamp_to(&bounds) {
            self.clip_region = clipped;
        } else {
            self.clip_region = Rect { x: 0, y: 0, width: 0, height: 0 };
        }
    }

    /// Makes the whole bitmap visible again.
    pub fn reset_clip_region(&mut self)
        requires
            old(self).wf(),
        ensures
            final(self).wf(),
            final(self)@ == (Raster { clip: old(self).spec_full_bounds(), ..old(self)@ }),
    {
        self.clip_region = self.full_bounds();
    }

    /// The pixels in row-major order.
    pub fn pixels(&self) -> (p: &[u8])
        ensures
            p@ == self@.pixels,
    {
        self.pixels.as_slice()
    }

    /// Whether the position `(x, y)` lies in the clip rectangle.
    pub fn is_xy_visible(&self, x: i32, y: i32) -> (visible: bool)
        ensures
            visible == self@.visible(x as int, y as int),
    {
        self.clip_region.contains_point(x, y)
    }

    /// The buffer offset of the pixel at `(x, y)`, where that position lies
    /// in the clip rectangle.
    pub fn get_offset_to_xy(&self, x: i32, y: i32) -> (r: Option<usize>)
        requires
            self.wf(),
        ensures
            r is Some == self@.visible(x as int, y as int),
            r matches Some(offset) ==> offset == self@.index(x as int, y as int) && offset
                < self@.pixels.len(),
    {
        if self.is_xy_visible(x, y) {
            Some(self.get_offset_to_xy_unchecked(x, y))
        } else {
            None
        }
    }

    /// The buffer offset of the pixel at `(x, y)`. The position has to exist
    /// in the bitmap; it need not be visible.
    pub fn get_offset_to_xy_unchecked(&self, x: i32, y: i32) -> (offset: usize)
        requires
            self.wf(),
            self@.in_bounds(x as int, y as int),
        ensures
            offset == self@.index(x as int, y as int),
            offset < self@.pixels.len(),
    {
        proof {
            lemma_index_in_range(self@.width, self@.height, x as int, y as int);
            assert(0 <= y * self.width) by (nonlinear_arith)
                requires
                    0 <= y,
                    0 < self.width,
            ;
            assert(self.pixels@.len() == self.pixels.len() <= usize::MAX);
        }
        y as usize * self.width as usize + x as usize
    }

    /// The buffer's length is a `usize`.
    pub proof fn lemma_buffer_fits(&self)
        ensures
            self@.pixels.len() <= usize::MAX,
    {
        assert(self.pixels@.len() == self.pixels.len());
    }

    /// The pixels from `(x, y)` to the end of the buffer, where that position
    /// lies in the clip rectangle.
    pub fn pixels_at(&self, x: i32, y: i32) -> (r: Option<&[u8]>)
        requires
            self.wf(),
        ensures
            r is Some == self@.visible(x as int, y as int),
            r matches Some(p) ==> p@ == self@.pixels.subrange(
                self@.index(x as int, y as int),
                self@.pixels.len() as int,
            ),
    {
        match self.get_offset_to_xy(x, y) {
            Some(offset) => Some(
                vstd::slice::slice_subrange(self.pixels.as_slice(), offset, self.pixels.len()),
            ),
            None => None,
        }
    }

    /// The pixels from `(x, y)` to the end of the buffer. The position has to
    /// exist in the bitmap.
    pub fn pixels_at_unchecked(&self, x: i32, y: i32) -> (p: &[u8])
        requires
            self.wf(),
            self@.in_bounds(x as int, y as int),
        ensures
            p@ == self@.pixels.subrange(self@.index(x as int, y as int), self@.pixels.len() as int),
    {
        let offset = self.get_offset_to_xy_unchecked(x, y);
        vstd::slice::slice_subrange(self.pixels.as_slice(), offset, self.pixels.len())
    }

    /// The pixel that stands at `offset` in the buffer.
    pub fn pixel_at_offset(&self, offset: usize) -> (color: u8)
        requires
            offset < self@.pixels.len(),
        ensures
            color == self@.pixels[offset as int],
    {
        self.pixels[offset]
    }

    /// Sets the pixel that stands at `offset` in the buffer.
    pub fn set_pixel_at_offset(&mut self, offset: usize, color: u8)
        requires
            offset < old(self)@.pixels.len(),
        ensures
            final(self)@ == (Raster {
                pixels: old(self)@.pixels.update(offset as int, color),
                ..old(self)@
            }),
    {
        self.pixels[offset] = color;
    }

    /// Fills the whole bitmap with `color`, whatever the clip rectangle.
    pub fn clear(&mut self, color: u8)
        requires
            old(self).wf(),
        ensures
            final(self).wf(),
            final(self)@ == old(self)@.filled(color),
    {
        let count: usize = self.pixels.len();
        let mut offset: usize = 0;
        while offset < count
            invariant
                offset <= count,
                count == self.pixels@.len(),
                self.pixels@.len() == old(self).pixels@.len(),
                self.width == old(self).width,
                self.height == old(self).height,
                self.clip_region == old(self).clip_region,
                forall|i: int| 0 <= i < offset ==> self.pixels@[i] == color,
            decreases count - offset,
        {
            self.pixels[offset] = color;
            offset = offset + 1;
        }
        assert(self.pixels@ =~= old(self)@.filled(color).pixels);
    }

    /// The pixel at `(x, y)`. The position has to exist in the bitmap.
    pub fn get_pixel_unchecked(&self, x: i32, y: i32) -> (color: u8)
        requires
            self.wf(),
            self@.in_bounds(x as int, y as int),
        ensures
            color == self@.pixel(x as int, y as int),
    {
        let offset = self.get_offset_to_xy_unchecked(x, y);
        self.pixels[offset]
    }

    /// Sets the pixel at `(x, y)`. The position has to exist in the bitmap.
    pub fn set_pixel_unchecked(&mut self, x: i32, y: i32, color: u8)
        requires
            old(self).wf(),
            old(self)@.in_bounds(x as int, y as int),
        ensures
            final(self).wf(),
            final(self)@ == old(self)@.with_pixel(x as int, y as int, color),
            forall|px: int, py: int|
                old(self)@.in_bounds(px, py) ==> #[trigger] final(self)@.pixel(px, py) == (
                if px == x && py == y {
                    color
                } else {
                    old(self)@.pixel(px, py)
                }),
    {
        let offset = self.get_offset_to_xy_unchecked(x, y);
        proof {
            lemma_with_pixel(self@, x as int, y as int, color);
        }
        self.pixels[offset] = color;
    }
}

} // verus!
