//! Pixel transfers from one bitmap to another: the transfer methods, what
//! each does to a pixel, and the picture that a transfer leaves.

use vstd::prelude::*;
use crate::clip::{ClippedBlit, clipped_blit};
use crate::raster::{Raster, lemma_index_in_range, lemma_index_split};
use crate::rect::Rect;

verus! {

/// How the pixels of a source region are carried over to the destination.
#[derive(Debug, Copy, Clone, PartialEq, Eq, Structural)]
pub enum BlitMethod {
    /// Every source pixel replaces the destination pixel.
    Solid,
    /// As `Solid`, with the image mirrored left to right, top to bottom, or
    /// both.
    SolidFlipped { horizontal_flip: bool, vertical_flip: bool },
    /// Source pixels of the given colour are skipped.
    Transparent(u8),
    /// As `Transparent`, with the image mirrored.
    TransparentFlipped { transparent_color: u8, horizontal_flip: bool, vertical_flip: bool },
    /// As `Transparent`, with every drawn pixel in one colour.
    TransparentSingle { transparent_color: u8, draw_color: u8 },
    /// As `TransparentSingle`, with the image mirrored.
    TransparentFlippedSingle {
        transparent_color: u8,
        horizontal_flip: bool,
        vertical_flip: bool,
        draw_color: u8,
    },
    /// As `Solid`, with the given amount added to every palette index,
    /// wrapping round at 256.
    SolidOffset(u8),
    /// As `SolidOffset`, with the image mirrored.
    SolidFlippedOffset { horizontal_flip: bool, vertical_flip: bool, offset: u8 },
    /// As `Transparent`, with the given amount added to every drawn palette
    /// index, wrapping round at 256.
    TransparentOffset { transparent_color: u8, offset: u8 },
    /// As `TransparentOffset`, with the image mirrored.
    TransparentFlippedOffset {
        transparent_color: u8,
        horizontal_flip: bool,
        vertical_flip: bool,
        offset: u8,
    },
}

/// A palette index moved on by `offset`, wrapping round at 256.
pub open spec fn offset_color(color: u8, offset: u8) -> u8 {
    ((color + offset) % 256) as u8
}

impl BlitMethod {
    /// The method draws the source mirrored left to right.
    pub open spec fn spec_horizontal_flip(self) -> bool {
        match self {
            BlitMethod::SolidFlipped { horizontal_flip, .. } => horizontal_flip,
            BlitMethod::TransparentFlipped { horizontal_flip, .. } => horizontal_flip,
            BlitMethod::TransparentFlippedSingle { horizontal_flip, .. } => horizontal_flip,
            BlitMethod::SolidFlippedOffset { horizontal_flip, .. } => horizontal_flip,
            BlitMethod::TransparentFlippedOffset { horizontal_flip, .. } => horizontal_flip,
            _ => false,
        }
    }

    /// The method draws the source mirrored top to bottom.
    pub open spec fn spec_vertical_flip(self) -> bool {
        match self {
            BlitMethod::SolidFlipped { vertical_flip, .. } => vertical_flip,
            BlitMethod::TransparentFlipped { vertical_flip, .. } => vertical_flip,
            BlitMethod::TransparentFlippedSingle { vertical_flip, .. } => vertical_flip,
            BlitMethod::SolidFlippedOffset { vertical_flip, .. } => vertical_flip,
            BlitMethod::TransparentFlippedOffset { vertical_flip, .. } => vertical_flip,
            _ => false,
        }
    }

    /// The colour that the method skips, if it skips one.
    pub open spec fn spec_transparent_color(self) -> Option<u8> {
        match self {
            BlitMethod::Transparent(transparent_color) => Some(transparent_color),
            BlitMethod::TransparentFlipped { transparent_color, .. } => Some(transparent_color),
            BlitMethod::TransparentSingle { transparent_color, .. } => Some(transparent_color),
            BlitMethod::TransparentFlippedSingle { transparent_color, .. } => Some(
                transparent_color,
            ),
            BlitMethod::TransparentOffset { transparent_color, .. } => Some(transparent_color),
            BlitMethod::TransparentFlippedOffset { transparent_color, .. } => Some(
                transparent_color,
            ),
            _ => None,
        }
    }

    /// The colour that a source pixel is drawn in, where it is drawn.
    pub open spec fn spec_drawn_color(self, source: u8) -> u8 {
        match self {
            BlitMethod::TransparentSingle { draw_color, .. } => draw_color,
            BlitMethod::TransparentFlippedSingle { draw_color, .. } => draw_color,
            BlitMethod::SolidOffset(offset) => offset_color(source, offset),
            BlitMethod::SolidFlippedOffset { offset, .. } => offset_color(source, offset),
            BlitMethod::TransparentOffset { offset, .. } => offset_color(source, offset),
            BlitMethod::TransparentFlippedOffset { offset, .. } => offset_color(source, offset),
            _ => source,
        }
    }

    /// What a destination pixel holds after the source pixel `source` has
    /// been transferred onto it: the pixel as it was where the source pixel is
    /// skipped, the drawn colour otherwise.
    pub open spec fn spec_transfer(self, source: u8, existing: u8) -> u8 {
        if self.spec_transparent_color() == Some(source) {
            existing
        } else {
            self.spec_drawn_color(source)
        }
    }

    /// The same method without mirroring.
    pub open spec fn spec_unflipped(self) -> BlitMethod {
        match self {
            BlitMethod::SolidFlipped { .. } => BlitMethod::Solid,
            BlitMethod::TransparentFlipped { transparent_color, .. } => BlitMethod::Transparent(
                transparent_color,
            ),
            BlitMethod::TransparentFlippedSingle {
                transparent_color,
                draw_color,
                ..
            } => BlitMethod::TransparentSingle { transparent_color, draw_color },
            BlitMethod::SolidFlippedOffset { offset, .. } => BlitMethod::SolidOffset(offset),
            BlitMethod::TransparentFlippedOffset {
                transparent_color,
                offset,
                ..
            } => BlitMethod::TransparentOffset { transparent_color, offset },
            other => other,
        }
    }

    /// Whether the method draws the source mirrored left to right.
    pub fn horizontal_flip(&self) -> (flip: bool)
        ensures
            flip == self.spec_horizontal_flip(),
    {
        match *self {
            BlitMethod::SolidFlipped { horizontal_flip, .. } => horizontal_flip,
            BlitMethod::TransparentFlipped { horizontal_flip, .. } => horizontal_flip,
            BlitMethod::TransparentFlippedSingle { horizontal_flip, .. } => horizontal_flip,
            BlitMethod::SolidFlippedOffset { horizontal_flip, .. } => horizontal_flip,
            BlitMethod::TransparentFlippedOffset { horizontal_flip, .. } => horizontal_flip,
            _ => false,
        }
    }

    /// Whether the method draws the source mirrored top to bottom.
    pub fn vertical_flip(&self) -> (flip: bool)
        ensures
            flip == self.spec_vertical_flip(),
    {
        match *self {
            BlitMethod::SolidFlipped { vertical_flip, .. } => vertical_flip,
            BlitMethod::TransparentFlipped { vertical_flip, .. } => vertical_flip,
            BlitMethod::TransparentFlippedSingle { vertical_flip, .. } => vertical_flip,
            BlitMethod::SolidFlippedOffset { vertical_flip, .. } => vertical_flip,
            BlitMethod::TransparentFlippedOffset { vertical_flip, .. } => vertical_flip,
            _ => false,
        }
    }

    /// What a destination pixel holds after the source pixel `source` has
    /// been transferred onto it.
    pub fn transfer(&self, source: u8, existing: u8) -> (color: u8)
        ensures
            color == self.spec_transfer(source, existing),
    {
        match *self {
            BlitMethod::Solid => source,
            BlitMethod::SolidFlipped { .. } => source,
            BlitMethod::Transparent(transparent_color) => if source == transparent_color {
                existing
            } else {
                source
            },
            BlitMethod::TransparentFlipped { transparent_color, .. } => if source
                == transparent_color {
                existing
            } else {
                source
            },
            BlitMethod::TransparentSingle { transparent_color, draw_color } => if source
                == transparent_color {
                existing
            } else {
                draw_color
            },
            BlitMethod::TransparentFlippedSingle { transparent_color, draw_color, .. } => if source
                == transparent_color {
                existing
            } else {
                draw_color
            },
            BlitMethod::SolidOffset(offset) => source.wrapping_add(offset),
            BlitMethod::SolidFlippedOffset { offset, .. } => source.wrapping_add(offset),
            BlitMethod::TransparentOffset { transparent_color, offset } => if source
                == transparent_color {
                existing
            } else {
                source.wrapping_add(offset)
            },
            BlitMethod::TransparentFlippedOffset { transparent_color, offset, .. } => if source
                == transparent_color {
                existing
            } else {
                source.wrapping_add(offset)
            },
        }
    }
}

impl Raster {
    /// The position `(x, y)` lies in the rectangle that a transfer of `region`
    /// to `(dest_x, dest_y)` covers.
    pub open spec fn blit_covers(region: Rect, dest_x: int, dest_y: int, x: int, y: int) -> bool {
        dest_x <= x < dest_x + region.width && dest_y <= y < dest_y + region.height
    }

    /// The source column that a transfer of `region` to column `dest_x`
    /// carries to the destination column `x`: as far from the region's first
    /// column as `x` is from `dest_x` or, mirrored, as far from its last.
    pub open spec fn blit_source_column(flip: bool, region: Rect, dest_x: int, x: int) -> int {
        if flip {
            region.spec_right() - (x - dest_x)
        } else {
            region.x + (x - dest_x)
        }
    }

    /// The source row that a transfer of `region` to row `dest_y` carries to
    /// the destination row `y`.
    pub open spec fn blit_source_row(flip: bool, region: Rect, dest_y: int, y: int) -> int {
        if flip {
            region.spec_bottom() - (y - dest_y)
        } else {
            region.y + (y - dest_y)
        }
    }

    /// The pixel of this picture, taken as the source, that a transfer of
    /// `region` to `(dest_x, dest_y)` carries to the destination position
    /// `(x, y)`.
    pub open spec fn blit_source_pixel(
        self,
        region: Rect,
        dest_x: int,
        dest_y: int,
        horizontal_flip: bool,
        vertical_flip: bool,
        x: int,
        y: int,
    ) -> u8 {
        self.pixel(
            Self::blit_source_column(horizontal_flip, region, dest_x, x),
            Self::blit_source_row(vertical_flip, region, dest_y, y),
        )
    }

    /// The pixel at `(x, y)` after the part `region` of `source` has been
    /// transferred to `(dest_x, dest_y)` with no clipping. Inside the target
    /// rectangle it is what the method makes of the source pixel that faces
    /// it; elsewhere it is the pixel as it was.
    pub open spec fn blit_pixel(
        self,
        source: Raster,
        method: BlitMethod,
        region: Rect,
        dest_x: int,
        dest_y: int,
        x: int,
        y: int,
    ) -> u8 {
        if Self::blit_covers(region, dest_x, dest_y, x, y) {
            method.spec_transfer(
                source.blit_source_pixel(
                    region,
                    dest_x,
                    dest_y,
                    method.spec_horizontal_flip(),
                    method.spec_vertical_flip(),
                    x,
                    y,
                ),
                self.pixel(x, y),
            )
        } else {
            self.pixel(x, y)
        }
    }

    /// A transfer of the part `region` of `source` to `(dest_x, dest_y)`
    /// needs no clipping: the region exists in the source and its target
    /// rectangle exists in this picture.
    pub open spec fn admits_blit(self, source: Raster, region: Rect, dest_x: int, dest_y: int)
        -> bool {
        &&& source.contains_region(region)
        &&& 0 <= dest_x
        &&& 0 <= dest_y
        &&& dest_x + region.width <= self.width
        &&& dest_y + region.height <= self.height
    }

    /// The picture after the part `region` of `source` has been transferred
    /// to `(dest_x, dest_y)` with no clipping.
    pub open spec fn blit_unclipped(
        self,
        source: Raster,
        method: BlitMethod,
        region: Rect,
        dest_x: int,
        dest_y: int,
    ) -> Raster {
        Raster {
            pixels: Seq::new(
                self.pixels.len(),
                |i: int|
                    self.blit_pixel(
                        source,
                        method,
                        region,
                        dest_x,
                        dest_y,
                        self.column_of(i),
                        self.row_of(i),
                    ),
            ),
            ..self
        }
    }

    /// The picture with the content of `region` mirrored inside the region:
    /// left to right where `horizontal` holds, top to bottom where `vertical`
    /// holds, turned by half a turn where both hold.
    pub open spec fn mirrored(self, region: Rect, horizontal: bool, vertical: bool) -> Raster {
        Raster {
            pixels: Seq::new(
                self.pixels.len(),
                |i: int|
                    self.mirrored_pixel(
                        region,
                        horizontal,
                        vertical,
                        self.column_of(i),
                        self.row_of(i),
                    ),
            ),
            ..self
        }
    }

    /// The pixel at `(x, y)` of the picture with the content of `region`
    /// mirrored.
    pub open spec fn mirrored_pixel(
        self,
        region: Rect,
        horizontal: bool,
        vertical: bool,
        x: int,
        y: int,
    ) -> u8 {
        if region.spec_contains_point(x, y) {
            self.pixel(
                if horizontal {
                    region.x + region.spec_right() - x
                } else {
                    x
                },
                if vertical {
                    region.y + region.spec_bottom() - y
                } else {
                    y
                },
            )
        } else {
            self.pixel(x, y)
        }
    }

    /// What is left of a transfer of the part `region` of `source` to
    /// `(dest_x, dest_y)` after the region has been narrowed to the source's
    /// clip rectangle and the transfer has been clipped against this
    /// picture's clip rectangle. `None` means that nothing is left to draw.
    pub open spec fn clip_transfer(self, source: Raster, region: Rect, dest_x: int, dest_y: int)
        -> Option<ClippedBlit> {
        if region.spec_overlaps(&source.clip) {
            clipped_blit(self.clip, region.spec_intersection(&source.clip), dest_x, dest_y)
        } else {
            None
        }
    }

    /// The picture after the part `region` of `source` has been transferred
    /// to `(dest_x, dest_y)` with clipping: what clipping leaves of the
    /// transfer is carried out, and where it leaves nothing the picture stays
    /// as it is.
    pub open spec fn blit(
        self,
        source: Raster,
        method: BlitMethod,
        region: Rect,
        dest_x: int,
        dest_y: int,
    ) -> Raster {
        match self.clip_transfer(source, region, dest_x, dest_y) {
            Some(left) => self.blit_unclipped(
                source,
                method,
                left.src_region,
                left.dest_x,
                left.dest_y,
            ),
            None => self,
        }
    }
}

/// The pixels of an unclipped transfer, position by position.
pub proof fn lemma_blit_unclipped(
    dest: Raster,
    source: Raster,
    method: BlitMethod,
    region: Rect,
    dest_x: int,
    dest_y: int,
)
    requires
        dest.wf(),
    ensures
        dest.blit_unclipped(source, method, region, dest_x, dest_y).wf(),
        dest.blit_unclipped(source, method, region, dest_x, dest_y).same_frame(dest),
        forall|x: int, y: int|
            dest.in_bounds(x, y) ==> #[trigger] dest.blit_unclipped(
                source,
                method,
                region,
                dest_x,
                dest_y,
            ).pixel(x, y) == dest.blit_pixel(source, method, region, dest_x, dest_y, x, y),
{
    let after = dest.blit_unclipped(source, method, region, dest_x, dest_y);
    assert forall|x: int, y: int| dest.in_bounds(x, y) implies #[trigger] after.pixel(x, y)
        == dest.blit_pixel(source, method, region, dest_x, dest_y, x, y) by {
        lemma_index_in_range(dest.width, dest.height, x, y);
        lemma_index_split(dest.width, x, y);
    }
}

/// The pixels of a picture with a region mirrored, position by position.
pub proof fn lemma_mirrored(r: Raster, region: Rect, horizontal: bool, vertical: bool)
    requires
        r.wf(),
    ensures
        r.mirrored(region, horizontal, vertical).wf(),
        r.mirrored(region, horizontal, vertical).same_frame(r),
        forall|x: int, y: int|
            r.in_bounds(x, y) ==> #[trigger] r.mirrored(region, horizontal, vertical).pixel(x, y)
                == r.mirrored_pixel(region, horizontal, vertical, x, y),
{
    let after = r.mirrored(region, horizontal, vertical);
    assert forall|x: int, y: int| r.in_bounds(x, y) implies #[trigger] after.pixel(x, y)
        == r.mirrored_pixel(region, horizontal, vertical, x, y) by {
        lemma_index_in_range(r.width, r.height, x, y);
        lemma_index_split(r.width, x, y);
    }
}

} // verus!
