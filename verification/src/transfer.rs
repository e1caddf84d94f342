//! The routines that carry a transfer out on a bitmap's buffer.

use vstd::prelude::*;
use crate::bitmap::Bitmap;
use crate::arith::directed;
use crate::blit::{BlitMethod, lemma_blit_unclipped, offset_color};
use crate::clip::{ClippedBlit, clip_blit};
use crate::paint::{Ink, Shape, lemma_paint};
use crate::raster::{Raster, lemma_index_in_range, lemma_same_pixels, lemma_with_pixel};
use crate::rect::Rect;

verus! {

impl Bitmap {
    /// How to walk the source buffer for a mirrored transfer: the step from
    /// one source pixel to the next, the column and the row of the first
    /// source pixel, and the step from the end of one source row to the start
    /// of the next.
    pub fn get_flipped_blit_properties(
        &self,
        src: &Bitmap,
        src_region: &Rect,
        horizontal_flip: bool,
        vertical_flip: bool,
    ) -> (walk: (i64, i32, i32, i64))
        requires
            src.wf(),
            src@.contains_region(*src_region),
        ensures
            walk.0 == directed(horizontal_flip, 1),
            walk.1 == (if horizontal_flip { src_region.spec_right() } else { src_region.x as int }),
            walk.2 == (if vertical_flip { src_region.spec_bottom() } else { src_region.y as int }),
            walk.3 == directed(vertical_flip, src@.width) - directed(
                horizontal_flip,
                src_region.width as int,
            ),
    {
        let pitch: i64 = src.width() as i64;
        let row_length: i64 = src_region.width as i64;
        if !horizontal_flip && !vertical_flip {
            (1, src_region.x, src_region.y, pitch - row_length)
        } else if horizontal_flip && !vertical_flip {
            (-1, src_region.right(), src_region.y, pitch + row_length)
        } else if !horizontal_flip && vertical_flip {
            (1, src_region.x, src_region.bottom(), -(pitch + row_length))
        } else {
            (-1, src_region.right(), src_region.bottom(), -(pitch - row_length))
        }
    }
}

/// A position one step outside a grid at most has a buffer offset that an
/// `i64` holds with room to spare.
proof fn lemma_walk_in_range(width: int, height: int, x: int, y: int)
    requires
        0 < width <= i32::MAX,
        0 < height <= i32::MAX,
        -1 <= x <= width,
        -1 <= y <= height,
    ensures
        -0x1_0000_0000 <= y * width + x <= 0x4000_0000_0000_0000,
{
    assert(-width <= y * width <= height * width) by (nonlinear_arith)
        requires
            0 < width,
            -1 <= y <= height,
    ;
    assert(height * width <= 0x7fff_ffff * 0x7fff_ffff) by (nonlinear_arith)
        requires
            0 < width <= 0x7fff_ffff,
            0 < height <= 0x7fff_ffff,
    ;
}

impl Bitmap {
    /// Transfers the part `src_region` of `src` to `(dest_x, dest_y)` pixel
    /// by pixel, walking the source in the direction that the method's
    /// mirroring asks for. The region has to lie in the source and its target
    /// rectangle in this bitmap.
    fn transfer_region(
        &mut self,
        src: &Bitmap,
        src_region: &Rect,
        dest_x: i32,
        dest_y: i32,
        method: BlitMethod,
    )
        requires
            old(self).wf(),
            src.wf(),
            old(self)@.admits_blit(src@, *src_region, dest_x as int, dest_y as int),
        ensures
            final(self).wf(),
            final(self)@ == old(self)@.blit_unclipped(
                src@,
                method,
                *src_region,
                dest_x as int,
                dest_y as int,
            ),
    {
        let ghost before = self@;
        let ghost source = src@;
        let ghost region = *src_region;
        let ghost target = before.blit_unclipped(
            source,
            method,
            region,
            dest_x as int,
            dest_y as int,
        );
        proof {
            lemma_blit_unclipped(before, source, method, region, dest_x as int, dest_y as int);
        }
        if src_region.width == 0 || src_region.height == 0 {
            proof {
                lemma_same_pixels(before, target);
            }
            return ;
        }
        let (x_inc, src_start_x, src_start_y, src_next_row_inc) = self.get_flipped_blit_properties(
            src,
            src_region,
            method.horizontal_flip(),
            method.vertical_flip(),
        );
        let width: u32 = src_region.width;
        let height: u32 = src_region.height;
        let dest_next_row_inc: i64 = self.width() as i64 - width as i64;
        let ghost hflip = method.spec_horizontal_flip();
        let ghost vflip = method.spec_vertical_flip();
        proof {
            lemma_walk_in_range(
                source.width,
                source.height,
                src_start_x as int,
                src_start_y as int,
            );
            lemma_walk_in_range(before.width, before.height, dest_x as int, dest_y as int);
        }
        let mut src_offset: i64 = src.get_offset_to_xy_unchecked(src_start_x, src_start_y) as i64;
        let mut dest_offset: i64 = self.get_offset_to_xy_unchecked(dest_x, dest_y) as i64;
        let mut row: u32 = 0;
        while row < height
            invariant
                before.wf(),
                source.wf(),
                source == src@,
                region == *src_region,
                region.width == width,
                region.height == height,
                width > 0,
                height > 0,
                before.admits_blit(source, region, dest_x as int, dest_y as int),
                self.wf(),
                self@.same_frame(before),
                hflip == method.spec_horizontal_flip(),
                vflip == method.spec_vertical_flip(),
                x_inc == directed(hflip, 1),
                src_start_x == (if hflip { region.spec_right() } else { region.x as int }),
                src_start_y == (if vflip { region.spec_bottom() } else { region.y as int }),
                src_next_row_inc == directed(vflip, source.width) - directed(hflip, width as int),
                dest_next_row_inc == before.width - width,
                row <= height,
                src_offset == source.index(
                    src_start_x as int,
                    src_start_y + directed(vflip, row as int),
                ),
                dest_offset == before.index(dest_x as int, dest_y + row),
                forall|x: int, y: int|
                    before.in_bounds(x, y) ==> #[trigger] self@.pixel(x, y) == (if y < dest_y
                        + row {
                        before.blit_pixel(
                            source,
                            method,
                            region,
                            dest_x as int,
                            dest_y as int,
                            x,
                            y,
                        )
                    } else {
                        before.pixel(x, y)
                    }),
            decreases height - row,
        {
            let ghost src_row: int = src_start_y + directed(vflip, row as int);
            let ghost dest_row: int = dest_y + row;
            let mut col: u32 = 0;
            while col < width
                invariant
                    before.wf(),
                    source.wf(),
                    source == src@,
                    region == *src_region,
                    region.width == width,
                    region.height == height,
                    before.admits_blit(source, region, dest_x as int, dest_y as int),
                    self.wf(),
                    self@.same_frame(before),
                    hflip == method.spec_horizontal_flip(),
                    vflip == method.spec_vertical_flip(),
                    x_inc == directed(hflip, 1),
                    src_start_x == (if hflip { region.spec_right() } else { region.x as int }),
                    src_start_y == (if vflip { region.spec_bottom() } else { region.y as int }),
                    src_row == src_start_y + directed(vflip, row as int),
                    dest_row == dest_y + row,
                    row < height,
                    col <= width,
                    src_offset == source.index(src_start_x + directed(hflip, col as int), src_row),
                    dest_offset == before.index(dest_x + col, dest_row),
                    forall|x: int, y: int|
                        before.in_bounds(x, y) ==> #[trigger] self@.pixel(x, y) == (if y < dest_row
                            || (y == dest_row && x < dest_x + col) {
                            before.blit_pixel(
                                source,
                                method,
                                region,
                                dest_x as int,
                                dest_y as int,
                                x,
                                y,
                            )
                        } else {
                            before.pixel(x, y)
                        }),
                decreases width - col,
            {
                let ghost src_col: int = src_start_x + directed(hflip, col as int);
                let ghost dest_col: int = dest_x + col;
                let ghost current = self@;
                proof {
                    assert(src_col == Raster::blit_source_column(
                        hflip,
                        region,
                        dest_x as int,
                        dest_col,
                    ));
                    assert(src_row == Raster::blit_source_row(
                        vflip,
                        region,
                        dest_y as int,
                        dest_row,
                    ));
                    assert(source.in_bounds(src_col, src_row));
                    assert(before.in_bounds(dest_col, dest_row));
                    src.lemma_buffer_fits();
                    self.lemma_buffer_fits();
                    lemma_index_in_range(source.width, source.height, src_col, src_row);
                    lemma_index_in_range(before.width, before.height, dest_col, dest_row);
                    lemma_walk_in_range(source.width, source.height, src_col + x_inc, src_row);
                    lemma_walk_in_range(before.width, before.height, dest_col + 1, dest_row);
                    assert(current.pixel(dest_col, dest_row) == before.pixel(dest_col, dest_row));
                }
                let pixel: u8 = src.pixel_at_offset(src_offset as usize);
                let existing: u8 = self.pixel_at_offset(dest_offset as usize);
                let color: u8 = method.transfer(pixel, existing);
                self.set_pixel_at_offset(dest_offset as usize, color);
                proof {
                    assert(self@ == current.with_pixel(dest_col, dest_row, color));
                    lemma_with_pixel(current, dest_col, dest_row, color);
                    assert(color == before.blit_pixel(
                        source,
                        method,
                        region,
                        dest_x as int,
                        dest_y as int,
                        dest_col,
                        dest_row,
                    ));
                }
                src_offset = src_offset + x_inc;
                dest_offset = dest_offset + 1;
                col = col + 1;
            }
            proof {
                let next_row: int = src_row + directed(vflip, 1);
                assert((src_row + 1) * source.width == src_row * source.width + source.width)
                    by (nonlinear_arith);
                assert((src_row - 1) * source.width == src_row * source.width - source.width)
                    by (nonlinear_arith);
                assert((dest_row + 1) * before.width == dest_row * before.width + before.width)
                    by (nonlinear_arith);
                lemma_walk_in_range(source.width, source.height, src_start_x as int, next_row);
                lemma_walk_in_range(before.width, before.height, dest_x as int, dest_row + 1);
                lemma_walk_in_range(
                    source.width,
                    source.height,
                    src_start_x + directed(hflip, width as int),
                    src_row,
                );
                lemma_walk_in_range(before.width, before.height, dest_x + width, dest_row);
            }
            src_offset = src_offset + src_next_row_inc;
            dest_offset = dest_offset + dest_next_row_inc;
            row = row + 1;
        }
        proof {
            assert forall|x: int, y: int| before.in_bounds(x, y) implies #[trigger] self@.pixel(
                x,
                y,
            ) == target.pixel(x, y) by {
                assert(target.pixel(x, y) == before.blit_pixel(
                    source,
                    method,
                    region,
                    dest_x as int,
                    dest_y as int,
                    x,
                    y,
                ));
            }
            lemma_same_pixels(self@, target);
        }
    }

    /// Copies the region as it is: every pixel of the target rectangle becomes
    /// the source pixel that faces it, and no other pixel changes.
    pub fn solid_blit(
        &mut self,
        src: &Bitmap,
        src_region: &Rect,
        dest_x: i32,
        dest_y: i32,
    )
        requires
            old(self).wf(),
            src.wf(),
            old(self)@.admits_blit(src@, *src_region, dest_x as int, dest_y as int),
        ensures
            final(self).wf(),
            final(self)@ == old(self)@.blit_unclipped(
                src@,
                BlitMethod::Solid,
                *src_region,
                dest_x as int,
                dest_y as int,
            ),
            forall|x: int, y: int|
                old(self)@.in_bounds(x, y) ==> #[trigger] final(self)@.pixel(x, y) == ({
                    let source = src@.blit_source_pixel(
                        *src_region,
                        dest_x as int,
                        dest_y as int,
                        false,
                        false,
                        x,
                        y,
                    );
                    let existing = old(self)@.pixel(x, y);
                    if Raster::blit_covers(*src_region, dest_x as int, dest_y as int, x, y) {
                        source
                    } else {
                        existing
                    }
                }),
    {
        let method = BlitMethod::Solid;
        proof {
            lemma_blit_unclipped(self@, src@, method, *src_region, dest_x as int, dest_y as int);
        }
        self.transfer_region(src, src_region, dest_x, dest_y, method);
    }

    /// Copies the region mirrored: with `horizontal_flip` the columns of the
    /// region are drawn from the last to the first, with `vertical_flip` the
    /// rows.
    pub fn solid_flipped_blit(
        &mut self,
        src: &Bitmap,
        src_region: &Rect,
        dest_x: i32,
        dest_y: i32,
        horizontal_flip: bool,
        vertical_flip: bool,
    )
        requires
            old(self).wf(),
            src.wf(),
            old(self)@.admits_blit(src@, *src_region, dest_x as int, dest_y as int),
        ensures
            final(self).wf(),
            final(self)@ == old(self)@.blit_unclipped(
                src@,
                BlitMethod::SolidFlipped { horizontal_flip, vertical_flip },
                *src_region,
                dest_x as int,
                dest_y as int,
            ),
            forall|x: int, y: int|
                old(self)@.in_bounds(x, y) ==> #[trigger] final(self)@.pixel(x, y) == ({
                    let source = src@.blit_source_pixel(
                        *src_region,
                        dest_x as int,
                        dest_y as int,
                        horizontal_flip,
                        vertical_flip,
                        x,
                        y,
                    );
                    let existing = old(self)@.pixel(x, y);
                    if Raster::blit_covers(*src_region, dest_x as int, dest_y as int, x, y) {
                        source
                    } else {
                        existing
                    }
                }),
    {
        let method = BlitMethod::SolidFlipped { horizontal_flip, vertical_flip };
        proof {
            lemma_blit_unclipped(self@, src@, method, *src_region, dest_x as int, dest_y as int);
        }
        self.transfer_region(src, src_region, dest_x, dest_y, method);
    }

    /// Copies the region with `offset` added to every palette index, wrapping
    /// round at 256.
    pub fn solid_palette_offset_blit(
        &mut self,
        src: &Bitmap,
        src_region: &Rect,
        dest_x: i32,
        dest_y: i32,
        offset: u8,
    )
        requires
            old(self).wf(),
            src.wf(),
            old(self)@.admits_blit(src@, *src_region, dest_x as int, dest_y as int),
        ensures
            final(self).wf(),
            final(self)@ == old(self)@.blit_unclipped(
                src@,
                BlitMethod::SolidOffset(offset),
                *src_region,
                dest_x as int,
                dest_y as int,
            ),
            forall|x: int, y: int|
                old(self)@.in_bounds(x, y) ==> #[trigger] final(self)@.pixel(x, y) == ({
                    let source = src@.blit_source_pixel(
                        *src_region,
                        dest_x as int,
                        dest_y as int,
                        false,
                        false,
                        x,
                        y,
                    );
                    let existing = old(self)@.pixel(x, y);
                    if Raster::blit_covers(*src_region, dest_x as int, dest_y as int, x, y) {
                        offset_color(source, offset)
                    } else {
                        existing
                    }
                }),
    {
        let method = BlitMethod::SolidOffset(offset);
        proof {
            lemma_blit_unclipped(self@, src@, method, *src_region, dest_x as int, dest_y as int);
        }
        self.transfer_region(src, src_region, dest_x, dest_y, method);
    }

    /// Copies the region mirrored, with `offset` added to every palette index,
    /// wrapping round at 256.
    pub fn solid_flipped_palette_offset_blit(
        &mut self,
        src: &Bitmap,
        src_region: &Rect,
        dest_x: i32,
        dest_y: i32,
        horizontal_flip: bool,
        vertical_flip: bool,
        offset: u8,
    )
        requires
            old(self).wf(),
            src.wf(),
            old(self)@.admits_blit(src@, *src_region, dest_x as int, dest_y as int),
        ensures
            final(self).wf(),
            final(self)@ == old(self)@.blit_unclipped(
                src@,
                BlitMethod::SolidFlippedOffset { horizontal_flip, vertical_flip, offset },
                *src_region,
                dest_x as int,
                dest_y as int,
            ),
            forall|x: int, y: int|
                old(self)@.in_bounds(x, y) ==> #[trigger] final(self)@.pixel(x, y) == ({
                    let source = src@.blit_source_pixel(
                        *src_region,
                        dest_x as int,
                        dest_y as int,
                        horizontal_flip,
                        vertical_flip,
                        x,
                        y,
                    );
                    let existing = old(self)@.pixel(x, y);
                    if Raster::blit_covers(*src_region, dest_x as int, dest_y as int, x, y) {
                        offset_color(source, offset)
                    } else {
                        existing
                    }
                }),
    {
        let method = BlitMethod::SolidFlippedOffset { horizontal_flip, vertical_flip, offset };
        proof {
            lemma_blit_unclipped(self@, src@, method, *src_region, dest_x as int, dest_y as int);
        }
        self.transfer_region(src, src_region, dest_x, dest_y, method);
    }

    /// Copies the region except for the source pixels of the colour
    /// `transparent_color`: where the source holds that colour the
    /// destination pixel stays as it was.
    pub fn transparent_blit(
        &mut self,
        src: &Bitmap,
        src_region: &Rect,
        dest_x: i32,
        dest_y: i32,
        transparent_color: u8,
    )
        requires
            old(self).wf(),
            src.wf(),
            old(self)@.admits_blit(src@, *src_region, dest_x as int, dest_y as int),
        ensures
            final(self).wf(),
            final(self)@ == old(self)@.blit_unclipped(
                src@,
                BlitMethod::Transparent(transparent_color),
                *src_region,
                dest_x as int,
                dest_y as int,
            ),
            forall|x: int, y: int|
                old(self)@.in_bounds(x, y) ==> #[trigger] final(self)@.pixel(x, y) == ({
                    let source = src@.blit_source_pixel(
                        *src_region,
                        dest_x as int,
                        dest_y as int,
                        false,
                        false,
                        x,
                        y,
                    );
                    let existing = old(self)@.pixel(x, y);
                    if Raster::blit_covers(*src_region, dest_x as int, dest_y as int, x, y) {
                        if source == transparent_color {
                            existing
                        } else {
                            source
                        }
                    } else {
                        existing
                    }
                }),
    {
        let method = BlitMethod::Transparent(transparent_color);
        proof {
            lemma_blit_unclipped(self@, src@, method, *src_region, dest_x as int, dest_y as int);
        }
        self.transfer_region(src, src_region, dest_x, dest_y, method);
    }

    /// Copies the region mirrored, except for the source pixels of the colour
    /// `transparent_color`.
    pub fn transparent_flipped_blit(
        &mut self,
        src: &Bitmap,
        src_region: &Rect,
        dest_x: i32,
        dest_y: i32,
        transparent_color: u8,
        horizontal_flip: bool,
        vertical_flip: bool,
    )
        requires
            old(self).wf(),
            src.wf(),
            old(self)@.admits_blit(src@, *src_region, dest_x as int, dest_y as int),
        ensures
            final(self).wf(),
            final(self)@ == old(self)@.blit_unclipped(
                src@,
                BlitMethod::TransparentFlipped {
                    transparent_color,
                    horizontal_flip,
                    vertical_flip,
                },
                *src_region,
                dest_x as int,
                dest_y as int,
            ),
            forall|x: int, y: int|
                old(self)@.in_bounds(x, y) ==> #[trigger] final(self)@.pixel(x, y) == ({
                    let source = src@.blit_source_pixel(
                        *src_region,
                        dest_x as int,
                        dest_y as int,
                        horizontal_flip,
                        vertical_flip,
                        x,
                        y,
                    );
                    let existing = old(self)@.pixel(x, y);
                    if Raster::blit_covers(*src_region, dest_x as int, dest_y as int, x, y) {
                        if source == transparent_color {
                            existing
                        } else {
                            source
                        }
                    } else {
                        existing
                    }
                }),
    {
        let method = BlitMethod::TransparentFlipped {
                transparent_color,
                horizontal_flip,
                vertical_flip,
            };
        proof {
            lemma_blit_unclipped(self@, src@, method, *src_region, dest_x as int, dest_y as int);
        }
        self.transfer_region(src, src_region, dest_x, dest_y, method);
    }

    /// Copies the region except for the source pixels of the colour
    /// `transparent_color`, with `offset` added to every palette index that
    /// is drawn, wrapping round at 256.
    pub fn transparent_palette_offset_blit(
        &mut self,
        src: &Bitmap,
        src_region: &Rect,
        dest_x: i32,
        dest_y: i32,
        transparent_color: u8,
        offset: u8,
    )
        requires
            old(self).wf(),
            src.wf(),
            old(self)@.admits_blit(src@, *src_region, dest_x as int, dest_y as int),
        ensures
            final(self).wf(),
            final(self)@ == old(self)@.blit_unclipped(
                src@,
                BlitMethod::TransparentOffset { transparent_color, offset },
                *src_region,
                dest_x as int,
                dest_y as int,
            ),
            forall|x: int, y: int|
                old(self)@.in_bounds(x, y) ==> #[trigger] final(self)@.pixel(x, y) == ({
                    let source = src@.blit_source_pixel(
                        *src_region,
                        dest_x as int,
                        dest_y as int,
                        false,
                        false,
                        x,
                        y,
                    );
                    let existing = old(self)@.pixel(x, y);
                    if Raster::blit_covers(*src_region, dest_x as int, dest_y as int, x, y) {
                        if source == transparent_color {
                            existing
                        } else {
                            offset_color(source, offset)
                        }
                    } else {
                        existing
                    }
                }),
    {
        let method = BlitMethod::TransparentOffset { transparent_color, offset };
        proof {
            lemma_blit_unclipped(self@, src@, method, *src_region, dest_x as int, dest_y as int);
        }
        self.transfer_region(src, src_region, dest_x, dest_y, method);
    }

    /// Copies the region mirrored, except for the source pixels of the colour
    /// `transparent_color`, with `offset` added to every palette index that
    /// is drawn, wrapping round at 256.
    pub fn transparent_flipped_palette_offset_blit(
        &mut self,
        src: &Bitmap,
        src_region: &Rect,
        dest_x: i32,
        dest_y: i32,
        transparent_color: u8,
        horizontal_flip: bool,
        vertical_flip: bool,
        offset: u8,
    )
        requires
            old(self).wf(),
            src.wf(),
            old(self)@.admits_blit(src@, *src_region, dest_x as int, dest_y as int),
        ensures
            final(self).wf(),
            final(self)@ == old(self)@.blit_unclipped(
                src@,
                BlitMethod::TransparentFlippedOffset {
                    transparent_color,
                    horizontal_flip,
                    vertical_flip,
                    offset,
                },
                *src_region,
                dest_x as int,
                dest_y as int,
            ),
            forall|x: int, y: int|
                old(self)@.in_bounds(x, y) ==> #[trigger] final(self)@.pixel(x, y) == ({
                    let source = src@.blit_source_pixel(
                        *src_region,
                        dest_x as int,
                        dest_y as int,
                        horizontal_flip,
                        vertical_flip,
                        x,
                        y,
                    );
                    let existing = old(self)@.pixel(x, y);
                    if Raster::blit_covers(*src_region, dest_x as int, dest_y as int, x, y) {
                        if source == transparent_color {
                            existing
                        } else {
                            offset_color(source, offset)
                        }
                    } else {
                        existing
                    }
                }),
    {
        let method = BlitMethod::TransparentFlippedOffset {
                transparent_color,
                horizontal_flip,
                vertical_flip,
                offset,
            };
        proof {
            lemma_blit_unclipped(self@, src@, method, *src_region, dest_x as int, dest_y as int);
        }
        self.transfer_region(src, src_region, dest_x, dest_y, method);
    }

    /// Draws the shape of the region in one colour: where the source pixel is
    /// not `transparent_color` the destination pixel becomes `draw_color`.
    pub fn transparent_single_color_blit(
        &mut self,
        src: &Bitmap,
        src_region: &Rect,
        dest_x: i32,
        dest_y: i32,
        transparent_color: u8,
        draw_color: u8,
    )
        requires
            old(self).wf(),
            src.wf(),
            old(self)@.admits_blit(src@, *src_region, dest_x as int, dest_y as int),
        ensures
            final(self).wf(),
            final(self)@ == old(self)@.blit_unclipped(
                src@,
                BlitMethod::TransparentSingle { transparent_color, draw_color },
                *src_region,
                dest_x as int,
                dest_y as int,
            ),
            forall|x: int, y: int|
                old(self)@.in_bounds(x, y) ==> #[trigger] final(self)@.pixel(x, y) == ({
                    let source = src@.blit_source_pixel(
                        *src_region,
                        dest_x as int,
                        dest_y as int,
                        false,
                        false,
                        x,
                        y,
                    );
                    let existing = old(self)@.pixel(x, y);
                    if Raster::blit_covers(*src_region, dest_x as int, dest_y as int, x, y) {
                        if source == transparent_color {
                            existing
                        } else {
                            draw_color
                        }
                    } else {
                        existing
                    }
                }),
    {
        let method = BlitMethod::TransparentSingle { transparent_color, draw_color };
        proof {
            lemma_blit_unclipped(self@, src@, method, *src_region, dest_x as int, dest_y as int);
        }
        self.transfer_region(src, src_region, dest_x, dest_y, method);
    }

    /// Draws the shape of the region mirrored and in one colour.
    pub fn transparent_flipped_single_color_blit(
        &mut self,
        src: &Bitmap,
        src_region: &Rect,
        dest_x: i32,
        dest_y: i32,
        transparent_color: u8,
        horizontal_flip: bool,
        vertical_flip: bool,
        draw_color: u8,
    )
        requires
            old(self).wf(),
            src.wf(),
            old(self)@.admits_blit(src@, *src_region, dest_x as int, dest_y as int),
        ensures
            final(self).wf(),
            final(self)@ == old(self)@.blit_unclipped(
                src@,
                BlitMethod::TransparentFlippedSingle {
                    transparent_color,
                    horizontal_flip,
                    vertical_flip,
                    draw_color,
                },
                *src_region,
                dest_x as int,
                dest_y as int,
            ),
            forall|x: int, y: int|
                old(self)@.in_bounds(x, y) ==> #[trigger] final(self)@.pixel(x, y) == ({
                    let source = src@.blit_source_pixel(
                        *src_region,
                        dest_x as int,
                        dest_y as int,
                        horizontal_flip,
                        vertical_flip,
                        x,
                        y,
                    );
                    let existing = old(self)@.pixel(x, y);
                    if Raster::blit_covers(*src_region, dest_x as int, dest_y as int, x, y) {
                        if source == transparent_color {
                            existing
                        } else {
                            draw_color
                        }
                    } else {
                        existing
                    }
                }),
    {
        let method = BlitMethod::TransparentFlippedSingle {
                transparent_color,
                horizontal_flip,
                vertical_flip,
                draw_color,
            };
        proof {
            lemma_blit_unclipped(self@, src@, method, *src_region, dest_x as int, dest_y as int);
        }
        self.transfer_region(src, src_region, dest_x, dest_y, method);
    }

    /// Carries out the transfer that `method` names, with no clipping. The
    /// region has to lie in the source and its target rectangle in this
    /// bitmap.
    pub fn blit_region_unchecked(
        &mut self,
        method: BlitMethod,
        src: &Bitmap,
        src_region: &Rect,
        dest_x: i32,
        dest_y: i32,
    )
        requires
            old(self).wf(),
            src.wf(),
            old(self)@.admits_blit(src@, *src_region, dest_x as int, dest_y as int),
        ensures
            final(self).wf(),
            final(self)@ == old(self)@.blit_unclipped(
                src@,
                method,
                *src_region,
                dest_x as int,
                dest_y as int,
            ),
    {
        match method {
            BlitMethod::Solid => self.solid_blit(src, src_region, dest_x, dest_y),
            BlitMethod::SolidFlipped { horizontal_flip, vertical_flip } => {
                self.solid_flipped_blit(
                    src,
                    src_region,
                    dest_x,
                    dest_y,
                    horizontal_flip,
                    vertical_flip,
                )
            },
            BlitMethod::SolidOffset(offset) => {
                self.solid_palette_offset_blit(src, src_region, dest_x, dest_y, offset)
            },
            BlitMethod::SolidFlippedOffset { horizontal_flip, vertical_flip, offset } => {
                self.solid_flipped_palette_offset_blit(
                    src,
                    src_region,
                    dest_x,
                    dest_y,
                    horizontal_flip,
                    vertical_flip,
                    offset,
                )
            },
            BlitMethod::Transparent(transparent_color) => {
                self.transparent_blit(src, src_region, dest_x, dest_y, transparent_color)
            },
            BlitMethod::TransparentFlipped {
                transparent_color,
                horizontal_flip,
                vertical_flip,
            } => {
                self.transparent_flipped_blit(
                    src,
                    src_region,
                    dest_x,
                    dest_y,
                    transparent_color,
                    horizontal_flip,
                    vertical_flip,
                )
            },
            BlitMethod::TransparentOffset { transparent_color, offset } => {
                self.transparent_palette_offset_blit(
                    src,
                    src_region,
                    dest_x,
                    dest_y,
                    transparent_color,
                    offset,
                )
            },
            BlitMethod::TransparentFlippedOffset {
                transparent_color,
                horizontal_flip,
                vertical_flip,
                offset,
            } => {
                self.transparent_flipped_palette_offset_blit(
                    src,
                    src_region,
                    dest_x,
                    dest_y,
                    transparent_color,
                    horizontal_flip,
                    vertical_flip,
                    offset,
                )
            },
            BlitMethod::TransparentSingle { transparent_color, draw_color } => {
                self.transparent_single_color_blit(
                    src,
                    src_region,
                    dest_x,
                    dest_y,
                    transparent_color,
                    draw_color,
                )
            },
            BlitMethod::TransparentFlippedSingle {
                transparent_color,
                horizontal_flip,
                vertical_flip,
                draw_color,
            } => {
                self.transparent_flipped_single_color_blit(
                    src,
                    src_region,
                    dest_x,
                    dest_y,
                    transparent_color,
                    horizontal_flip,
                    vertical_flip,
                    draw_color,
                )
            },
        }
    }

    /// Clips a transfer of the part `src_region` of `src` to
    /// `(dest_x, dest_y)`: the region is narrowed to the source's clip
    /// rectangle, and the transfer is clipped against this bitmap's clip
    /// rectangle. What is left, if anything, can be carried out with no
    /// further clipping.
    pub fn clip_blit_region(&self, src: &Bitmap, src_region: &Rect, dest_x: i32, dest_y: i32) -> (left:
        Option<(Rect, i32, i32)>)
        requires
            self.wf(),
            src.wf(),
        ensures
            left is Some == self@.clip_transfer(
                src@,
                *src_region,
                dest_x as int,
                dest_y as int,
            ) is Some,
            left matches Some(l) ==> self@.clip_transfer(
                src@,
                *src_region,
                dest_x as int,
                dest_y as int,
            ) == Some(ClippedBlit { src_region: l.0, dest_x: l.1 as int, dest_y: l.2 as int }),
            left matches Some(l) ==> self@.admits_blit(src@, l.0, l.1 as int, l.2 as int),
    {
        let mut region = *src_region;
        if !region.clamp_to(src.clip_region()) {
            return None;
        }
        let mut x: i32 = dest_x;
        let mut y: i32 = dest_y;
        let clip = *self.clip_region();
        if !clip_blit(&clip, &mut region, &mut x, &mut y) {
            return None;
        }
        Some((region, x, y))
    }

    /// Transfers the part `src_region` of `src` to `(dest_x, dest_y)`, drawing
    /// only what is visible: what clipping leaves of the transfer is carried
    /// out as `method` says. Where it leaves nothing the bitmap stays as it
    /// is.
    pub fn blit_region(
        &mut self,
        method: BlitMethod,
        src: &Bitmap,
        src_region: &Rect,
        dest_x: i32,
        dest_y: i32,
    )
        requires
            old(self).wf(),
            src.wf(),
        ensures
            final(self).wf(),
            final(self)@ == old(self)@.blit(
                src@,
                method,
                *src_region,
                dest_x as int,
                dest_y as int,
            ),
    {
        match self.clip_blit_region(src, src_region, dest_x, dest_y) {
            Some((region, x, y)) => self.blit_region_unchecked(method, src, &region, x, y),
            None => {},
        }
    }

    /// Carries out the transfer of the whole of `src` to `(x, y)` that
    /// `method` names, with no clipping. The target rectangle has to lie in
    /// this bitmap.
    pub fn blit_unchecked(&mut self, method: BlitMethod, src: &Bitmap, x: i32, y: i32)
        requires
            old(self).wf(),
            src.wf(),
            old(self)@.admits_blit(src@, src.spec_full_bounds(), x as int, y as int),
        ensures
            final(self).wf(),
            final(self)@ == old(self)@.blit_unclipped(
                src@,
                method,
                src.spec_full_bounds(),
                x as int,
                y as int,
            ),
    {
        let src_region = Rect::new(0, 0, src.width(), src.height());
        self.blit_region_unchecked(method, src, &src_region, x, y);
    }

    /// Transfers the whole of `src` to `(x, y)`, drawing only what is
    /// visible.
    pub fn blit(&mut self, method: BlitMethod, src: &Bitmap, x: i32, y: i32)
        requires
            old(self).wf(),
            src.wf(),
        ensures
            final(self).wf(),
            final(self)@ == old(self)@.blit(
                src@,
                method,
                src.spec_full_bounds(),
                x as int,
                y as int,
            ),
    {
        let src_region = Rect::new(0, 0, src.width(), src.height());
        self.blit_region(method, src, &src_region, x, y);
    }

    /// Draws one sample of a rotated and scaled transfer: the source pixel
    /// `pixel`, moved on by `offset` in the palette, lands at
    /// `(draw_x, draw_y)` and once more on the pixel to the right of it, as
    /// far as these are visible. A sample of the colour `transparent_color`
    /// is not drawn.
    pub fn rotozoom_plot(
        &mut self,
        draw_x: i32,
        draw_y: i32,
        pixel: u8,
        transparent_color: Option<u8>,
        offset: u8,
    )
        requires
            old(self).wf(),
        ensures
            final(self).wf(),
            final(self)@ == (if transparent_color == Some(pixel) {
                old(self)@
            } else {
                old(self)@.paint(
                    Shape::Area {
                        left: draw_x as int,
                        top: draw_y as int,
                        right: draw_x + 1,
                        bottom: draw_y as int,
                    },
                    Ink::Flat(offset_color(pixel, offset)),
                )
            }),
    {
        let skipped = match transparent_color {
            Some(color) => color == pixel,
            None => false,
        };
        if !skipped {
            let color: u8 = pixel.wrapping_add(offset);
            let ghost before = self@;
            let ghost ink = Ink::Flat(color);
            self.set_pixel(draw_x, draw_y, color);
            let ghost first = self@;
            if draw_x < i32::MAX {
                self.set_pixel(draw_x + 1, draw_y, color);
            }
            proof {
                let pair = Shape::Area {
                    left: draw_x as int,
                    top: draw_y as int,
                    right: draw_x + 1,
                    bottom: draw_y as int,
                };
                let target = before.paint(pair, ink);
                lemma_paint(before, Shape::point(draw_x as int, draw_y as int), ink);
                lemma_paint(first, Shape::point(draw_x + 1, draw_y as int), ink);
                lemma_paint(before, pair, ink);
                assert forall|x: int, y: int| before.in_bounds(x, y) implies #[trigger] self@.pixel(
                    x,
                    y,
                ) == target.pixel(x, y) by {
                    assert(first.pixel(x, y) == before.painted_pixel(
                        Shape::point(draw_x as int, draw_y as int),
                        ink,
                        x,
                        y,
                    ));
                    assert(target.pixel(x, y) == before.painted_pixel(pair, ink, x, y));
                    if draw_x < i32::MAX {
                        assert(self@.pixel(x, y) == first.painted_pixel(
                            Shape::point(draw_x + 1, draw_y as int),
                            ink,
                            x,
                            y,
                        ));
                    }
                }
                lemma_same_pixels(self@, target);
            }
        }
    }
}

} // verus!
