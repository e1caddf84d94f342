//! Drawing on a bitmap: single pixels, lines, rectangles and circles, each
//! in a flat colour or blended through a blend map.

use vstd::prelude::*;
use crate::bitmap::Bitmap;
use crate::blendmap::BlendMap;
use crate::arith::{directed, spec_abs};
use crate::circle::{
    circle_column_covers,
    circle_reaches,
    circle_rise,
    lemma_circle_complete,
    lemma_circle_reaches_next,
    lemma_walk_draws_circle,
    lemma_walk_draws_disc,
    mirrored,
};
use crate::line::{lemma_line_ends, lemma_walk_draws_line, line_point, line_reaches, line_steps};
use crate::paint::{
    Ink,
    Shape,
    lemma_line_extend,
    lemma_paint,
    lemma_paint_confined,
    lemma_painted,
};
use crate::raster::{lemma_index_in_range, lemma_with_pixel};

verus! {

/// The entries of a blend table, where there is one.
pub open spec fn table_entries(table: Option<&[u8; 256]>) -> Option<Seq<u8>> {
    match table {
        Some(entries) => Some(entries@),
        None => None,
    }
}

/// The colour that a pixel holding `existing` is drawn in: through the table
/// where there is one, in `color` where there is none.
fn inked(color: u8, table: Option<&[u8; 256]>, existing: u8) -> (drawn: u8)
    ensures
        drawn == Ink::of(color, table_entries(table)).apply(existing),
{
    match table {
        Some(entries) => entries[existing as usize],
        None => color,
    }
}

impl Bitmap {
    /// Sets the pixel at `(x, y)` to `color` where that position is visible,
    /// and changes nothing where it is not.
    pub fn set_pixel(&mut self, x: i32, y: i32, color: u8)
        requires
            old(self).wf(),
        ensures
            final(self).wf(),
            final(self)@ == (if old(self)@.visible(x as int, y as int) {
                old(self)@.with_pixel(x as int, y as int, color)
            } else {
                old(self)@
            }),
            final(self)@ == old(self)@.paint(Shape::point(x as int, y as int), Ink::Flat(color)),
            forall|px: int, py: int|
                old(self)@.in_bounds(px, py) ==> #[trigger] final(self)@.pixel(px, py) == (
                if px == x && py == y && old(self)@.visible(px, py) {
                    color
                } else {
                    old(self)@.pixel(px, py)
                }),
    {
        proof {
            lemma_paint(self@, Shape::point(x as int, y as int), Ink::Flat(color));
        }
        self.plot(x as i64, y as i64, color, None);
    }

    /// Draws the pixel at `(x, y)` in `color` blended over what the pixel
    /// holds, or in `color` itself where the blend map has no table for it.
    /// Changes nothing where the position is not visible.
    pub fn set_blended_pixel(&mut self, x: i32, y: i32, color: u8, blend_map: &BlendMap)
        requires
            old(self).wf(),
            blend_map.wf(),
        ensures
            final(self).wf(),
            final(self)@ == (if old(self)@.visible(x as int, y as int) {
                old(self)@.with_pixel(
                    x as int,
                    y as int,
                    Ink::blended(color, blend_map@).apply(old(self)@.pixel(x as int, y as int)),
                )
            } else {
                old(self)@
            }),
            final(self)@ == old(self)@.paint(
                Shape::point(x as int, y as int),
                Ink::blended(color, blend_map@),
            ),
            forall|px: int, py: int|
                old(self)@.in_bounds(px, py) ==> #[trigger] final(self)@.pixel(px, py) == (
                if px == x && py == y && old(self)@.visible(px, py) {
                    Ink::blended(color, blend_map@).apply(old(self)@.pixel(px, py))
                } else {
                    old(self)@.pixel(px, py)
                }),
    {
        proof {
            lemma_paint(self@, Shape::point(x as int, y as int), Ink::blended(color, blend_map@));
        }
        self.plot(x as i64, y as i64, color, blend_map.get_mapping(color));
    }

    /// Draws the pixel at `(x, y)` in `color` blended over what the pixel
    /// holds, or in `color` itself where the blend map has no table for it.
    /// The position has to exist in the bitmap.
    pub fn set_blended_pixel_unchecked(&mut self, x: i32, y: i32, color: u8, blend_map: &BlendMap)
        requires
            old(self).wf(),
            blend_map.wf(),
            old(self)@.in_bounds(x as int, y as int),
        ensures
            final(self).wf(),
            final(self)@ == old(self)@.with_pixel(
                x as int,
                y as int,
                Ink::blended(color, blend_map@).apply(old(self)@.pixel(x as int, y as int)),
            ),
    {
        let existing: u8 = self.get_pixel_unchecked(x, y);
        let drawn: u8 = inked(color, blend_map.get_mapping(color), existing);
        self.set_pixel_unchecked(x, y, drawn);
    }

    /// The pixel at `(x, y)` where that position is visible.
    pub fn get_pixel(&self, x: i32, y: i32) -> (color: Option<u8>)
        requires
            self.wf(),
        ensures
            color == (if self@.visible(x as int, y as int) {
                Some(self@.pixel(x as int, y as int))
            } else {
                None
            }),
    {
        match self.get_offset_to_xy(x, y) {
            Some(offset) => Some(self.pixel_at_offset(offset)),
            None => None,
        }
    }

    /// Inks the pixel at `(x, y)` where that position is visible.
    fn plot(&mut self, x: i64, y: i64, color: u8, table: Option<&[u8; 256]>)
        requires
            old(self).wf(),
        ensures
            final(self).wf(),
            final(self)@ == (if old(self)@.visible(x as int, y as int) {
                old(self)@.with_pixel(
                    x as int,
                    y as int,
                    Ink::of(color, table_entries(table)).apply(
                        old(self)@.pixel(x as int, y as int),
                    ),
                )
            } else {
                old(self)@
            }),
            final(self)@ == old(self)@.paint(
                Shape::point(x as int, y as int),
                Ink::of(color, table_entries(table)),
            ),
    {
        let ghost before = self@;
        let ghost ink = Ink::of(color, table_entries(table));
        if x >= -0x8000_0000 && x <= 0x7fff_ffff && y >= -0x8000_0000 && y <= 0x7fff_ffff {
            match self.get_offset_to_xy(x as i32, y as i32) {
                Some(offset) => {
                    let existing: u8 = self.pixel_at_offset(offset);
                    let drawn: u8 = inked(color, table, existing);
                    self.set_pixel_at_offset(offset, drawn);
                    proof {
                        lemma_with_pixel(before, x as int, y as int, drawn);
                    }
                },
                None => {},
            }
        }
        proof {
            lemma_painted(before, self@, Shape::point(x as int, y as int), ink);
        }
    }

    /// Inks every visible pixel from column `left` to column `right` and from
    /// row `top` to row `bottom`, all four included.
    fn fill_area(
        &mut self,
        left: i64,
        top: i64,
        right: i64,
        bottom: i64,
        color: u8,
        table: Option<&[u8; 256]>,
    )
        requires
            old(self).wf(),
        ensures
            final(self).wf(),
            final(self)@ == old(self)@.paint(
                Shape::Area {
                    left: left as int,
                    top: top as int,
                    right: right as int,
                    bottom: bottom as int,
                },
                Ink::of(color, table_entries(table)),
            ),
    {
        let ghost before = self@;
        let ghost ink = Ink::of(color, table_entries(table));
        let ghost shape = Shape::Area {
            left: left as int,
            top: top as int,
            right: right as int,
            bottom: bottom as int,
        };
        let clip = *self.clip_region();
        let clip_end_x: i64 = clip.x as i64 + clip.width as i64;
        let clip_end_y: i64 = clip.y as i64 + clip.height as i64;
        let first_x: i64 = if left > clip.x as i64 { left } else { clip.x as i64 };
        let first_y: i64 = if top > clip.y as i64 { top } else { clip.y as i64 };
        let end_x: i64 = if right < clip_end_x - 1 { right + 1 } else { clip_end_x };
        let end_y: i64 = if bottom < clip_end_y - 1 { bottom + 1 } else { clip_end_y };
        if first_x < end_x && first_y < end_y {
            let mut y: i64 = first_y;
            while y < end_y
                invariant
                    before.wf(),
                    self.wf(),
                    self@.same_frame(before),
                    ink == Ink::of(color, table_entries(table)),
                    0 <= first_x < end_x <= before.width,
                    0 <= first_y <= y <= end_y <= before.height,
                    forall|px: int, py: int|
                        before.in_bounds(px, py) ==> #[trigger] self@.pixel(px, py) == (
                        if first_x <= px < end_x && first_y <= py < y {
                            ink.apply(before.pixel(px, py))
                        } else {
                            before.pixel(px, py)
                        }),
                decreases end_y - y,
            {
                let mut offset: usize = self.get_offset_to_xy_unchecked(first_x as i32, y as i32);
                let mut x: i64 = first_x;
                while x < end_x
                    invariant
                        before.wf(),
                        self.wf(),
                        self@.same_frame(before),
                        ink == Ink::of(color, table_entries(table)),
                        0 <= first_x <= x <= end_x <= before.width,
                        0 <= first_y <= y < end_y <= before.height,
                        offset == before.index(x as int, y as int),
                        forall|px: int, py: int|
                            before.in_bounds(px, py) ==> #[trigger] self@.pixel(px, py) == (
                            if first_x <= px < end_x && (first_y <= py < y || (py == y && px
                                < x)) {
                                ink.apply(before.pixel(px, py))
                            } else {
                                before.pixel(px, py)
                            }),
                    decreases end_x - x,
                {
                    let ghost current = self@;
                    proof {
                        lemma_index_in_range(before.width, before.height, x as int, y as int);
                        self.lemma_buffer_fits();
                        assert(current.pixel(x as int, y as int) == before.pixel(
                            x as int,
                            y as int,
                        ));
                    }
                    let existing: u8 = self.pixel_at_offset(offset);
                    let drawn: u8 = inked(color, table, existing);
                    self.set_pixel_at_offset(offset, drawn);
                    proof {
                        assert(self@ == current.with_pixel(x as int, y as int, drawn));
                        lemma_with_pixel(current, x as int, y as int, drawn);
                    }
                    offset = offset + 1;
                    x = x + 1;
                }
                y = y + 1;
            }
        }
        proof {
            lemma_painted(before, self@, shape, ink);
        }
    }

    /// Inks four areas one after the other in a flat colour. What is drawn
    /// is the same as all four drawn at once.
    fn fill_four_areas(
        &mut self,
        a: (i64, i64, i64, i64),
        b: (i64, i64, i64, i64),
        c: (i64, i64, i64, i64),
        d: (i64, i64, i64, i64),
        color: u8,
    )
        requires
            old(self).wf(),
        ensures
            final(self).wf(),
            final(self)@.same_frame(old(self)@),
            forall|px: int, py: int|
                old(self)@.in_bounds(px, py) ==> #[trigger] final(self)@.pixel(px, py) == old(self)@
                    .inked_pixel(
                    area_of(a).covers(px, py) || area_of(b).covers(px, py) || area_of(c).covers(
                        px,
                        py,
                    ) || area_of(d).covers(px, py),
                    Ink::Flat(color),
                    px,
                    py,
                ),
    {
        let ghost before = self@;
        let ghost ink = Ink::Flat(color);
        self.fill_area(a.0, a.1, a.2, a.3, color, None);
        let ghost with_a = self@;
        self.fill_area(b.0, b.1, b.2, b.3, color, None);
        let ghost with_b = self@;
        self.fill_area(c.0, c.1, c.2, c.3, color, None);
        let ghost with_c = self@;
        self.fill_area(d.0, d.1, d.2, d.3, color, None);
        proof {
            lemma_paint(before, area_of(a), ink);
            lemma_paint(with_a, area_of(b), ink);
            lemma_paint(with_b, area_of(c), ink);
            lemma_paint(with_c, area_of(d), ink);
            assert forall|px: int, py: int| before.in_bounds(px, py) implies
                #[trigger] self@.pixel(px, py) == before.inked_pixel(
                area_of(a).covers(px, py) || area_of(b).covers(px, py) || area_of(c).covers(px, py)
                    || area_of(d).covers(px, py),
                ink,
                px,
                py,
            ) by {
                assert(with_a.pixel(px, py) == before.painted_pixel(area_of(a), ink, px, py));
                assert(with_b.pixel(px, py) == with_a.painted_pixel(area_of(b), ink, px, py));
                assert(with_c.pixel(px, py) == with_b.painted_pixel(area_of(c), ink, px, py));
                assert(self@.pixel(px, py) == with_c.painted_pixel(area_of(d), ink, px, py));
            }
        }
    }

    /// Draws the horizontal line from `(x1, y)` to `(x2, y)`, both ends
    /// included, as far as it is visible.
    pub fn horiz_line(&mut self, x1: i32, x2: i32, y: i32, color: u8)
        requires
            old(self).wf(),
        ensures
            final(self).wf(),
            final(self)@ == old(self)@.paint(
                Shape::span(x1 as int, y as int, x2 as int, y as int),
                Ink::Flat(color),
            ),
    {
        let (left, right): (i32, i32) = if x1 <= x2 { (x1, x2) } else { (x2, x1) };
        self.fill_area(left as i64, y as i64, right as i64, y as i64, color, None);
    }

    /// Draws the horizontal line from `(x1, y)` to `(x2, y)` in `color`
    /// blended over what is there, or in `color` itself where the blend map
    /// has no table for it.
    pub fn blended_horiz_line(&mut self, x1: i32, x2: i32, y: i32, color: u8, blend_map: &BlendMap)
        requires
            old(self).wf(),
            blend_map.wf(),
        ensures
            final(self).wf(),
            final(self)@ == old(self)@.paint(
                Shape::span(x1 as int, y as int, x2 as int, y as int),
                Ink::blended(color, blend_map@),
            ),
    {
        let (left, right): (i32, i32) = if x1 <= x2 { (x1, x2) } else { (x2, x1) };
        let table = blend_map.get_mapping(color);
        self.fill_area(left as i64, y as i64, right as i64, y as i64, color, table);
    }

    /// Draws the vertical line from `(x, y1)` to `(x, y2)`, both ends
    /// included, as far as it is visible.
    pub fn vert_line(&mut self, x: i32, y1: i32, y2: i32, color: u8)
        requires
            old(self).wf(),
        ensures
            final(self).wf(),
            final(self)@ == old(self)@.paint(
                Shape::span(x as int, y1 as int, x as int, y2 as int),
                Ink::Flat(color),
            ),
    {
        let (top, bottom): (i32, i32) = if y1 <= y2 { (y1, y2) } else { (y2, y1) };
        self.fill_area(x as i64, top as i64, x as i64, bottom as i64, color, None);
    }

    /// Draws the vertical line from `(x, y1)` to `(x, y2)` in `color` blended
    /// over what is there, or in `color` itself where the blend map has no
    /// table for it.
    pub fn blended_vert_line(&mut self, x: i32, y1: i32, y2: i32, color: u8, blend_map: &BlendMap)
        requires
            old(self).wf(),
            blend_map.wf(),
        ensures
            final(self).wf(),
            final(self)@ == old(self)@.paint(
                Shape::span(x as int, y1 as int, x as int, y2 as int),
                Ink::blended(color, blend_map@),
            ),
    {
        let (top, bottom): (i32, i32) = if y1 <= y2 { (y1, y2) } else { (y2, y1) };
        let table = blend_map.get_mapping(color);
        self.fill_area(x as i64, top as i64, x as i64, bottom as i64, color, table);
    }

    /// Draws the border of the rectangle with the corners `(x1, y1)` and
    /// `(x2, y2)`, in either order, as far as it is visible. An edge that the
    /// clip rectangle cuts off is not drawn at the place of the cut.
    pub fn rect(&mut self, x1: i32, y1: i32, x2: i32, y2: i32, color: u8)
        requires
            old(self).wf(),
        ensures
            final(self).wf(),
            final(self)@ == old(self)@.paint(
                Shape::Frame { x1: x1 as int, y1: y1 as int, x2: x2 as int, y2: y2 as int },
                Ink::Flat(color),
            ),
            forall|x: int, y: int|
                old(self)@.in_bounds(x, y) && !old(self)@.visible(x, y)
                    ==> #[trigger] final(self)@.pixel(x, y) == old(self)@.pixel(x, y),
            (Shape::Frame { x1: x1 as int, y1: y1 as int, x2: x2 as int, y2: y2 as int }).misses(
                old(self)@.clip,
            ) ==> final(self)@ == old(self)@,
    {
        let ghost before = self@;
        let ghost shape = Shape::Frame {
            x1: x1 as int,
            y1: y1 as int,
            x2: x2 as int,
            y2: y2 as int,
        };
        let (left, right): (i64, i64) = if x1 <= x2 {
            (x1 as i64, x2 as i64)
        } else {
            (x2 as i64, x1 as i64)
        };
        let (top, bottom): (i64, i64) = if y1 <= y2 {
            (y1 as i64, y2 as i64)
        } else {
            (y2 as i64, y1 as i64)
        };
        self.fill_four_areas(
            (left, top, right, top),
            (left, bottom, right, bottom),
            (left, top, left, bottom),
            (right, top, right, bottom),
            color,
        );
        proof {
            lemma_painted(before, self@, shape, Ink::Flat(color));
            lemma_paint_confined(before, shape, Ink::Flat(color));
        }
    }

    /// Draws the border of the rectangle with the corners `(x1, y1)` and
    /// `(x2, y2)` in `color` blended over what is there. The four edges are
    /// blended one after the other, the top and the bottom edge without the
    /// first and the last pixel of their visible parts. Where the blend map
    /// has no table for `color` the border is drawn in `color` itself.
    pub fn blended_rect(
        &mut self,
        x1: i32,
        y1: i32,
        x2: i32,
        y2: i32,
        color: u8,
        blend_map: &BlendMap,
    )
        requires
            old(self).wf(),
            blend_map.wf(),
        ensures
            final(self).wf(),
            final(self)@ == (match blend_map@.mapping(color) {
                Some(table) => old(self)@.paint_frame_by_edges(
                    x1 as int,
                    y1 as int,
                    x2 as int,
                    y2 as int,
                    Ink::Mapped(table),
                ),
                None => old(self)@.paint(
                    Shape::Frame { x1: x1 as int, y1: y1 as int, x2: x2 as int, y2: y2 as int },
                    Ink::Flat(color),
                ),
            }),
    {
        let table = blend_map.get_mapping(color);
        if table.is_none() {
            self.rect(x1, y1, x2, y2, color);
            return ;
        }
        let ghost before = self@;
        let ghost ink = Ink::of(color, table_entries(table));
        let (left, right): (i64, i64) = if x1 <= x2 {
            (x1 as i64, x2 as i64)
        } else {
            (x2 as i64, x1 as i64)
        };
        let (top, bottom): (i64, i64) = if y1 <= y2 {
            (y1 as i64, y2 as i64)
        } else {
            (y2 as i64, y1 as i64)
        };
        let clip = *self.clip_region();
        let clip_right: i64 = clip.x as i64 + clip.width as i64 - 1;
        let inner_left: i64 = (if left > clip.x as i64 { left } else { clip.x as i64 }) + 1;
        let inner_right: i64 = (if right < clip_right { right } else { clip_right }) - 1;
        proof {
            lemma_paint(before, area_of((inner_left, top, inner_right, top)), ink);
        }
        self.fill_area(inner_left, top, inner_right, top, color, table);
        proof {
            lemma_paint(self@, area_of((inner_left, bottom, inner_right, bottom)), ink);
        }
        self.fill_area(inner_left, bottom, inner_right, bottom, color, table);
        self.fill_area(left, top, left, bottom, color, table);
        self.fill_area(right, top, right, bottom, color, table);
    }

    /// Fills the rectangle with the corners `(x1, y1)` and `(x2, y2)`, in
    /// either order, as far as it is visible.
    pub fn filled_rect(&mut self, x1: i32, y1: i32, x2: i32, y2: i32, color: u8)
        requires
            old(self).wf(),
        ensures
            final(self).wf(),
            final(self)@ == old(self)@.paint(
                Shape::span(x1 as int, y1 as int, x2 as int, y2 as int),
                Ink::Flat(color),
            ),
            forall|x: int, y: int|
                old(self)@.in_bounds(x, y) && !old(self)@.visible(x, y)
                    ==> #[trigger] final(self)@.pixel(x, y) == old(self)@.pixel(x, y),
            Shape::span(x1 as int, y1 as int, x2 as int, y2 as int).misses(old(self)@.clip)
                ==> final(self)@ == old(self)@,
    {
        proof {
            lemma_paint_confined(
                self@,
                Shape::span(x1 as int, y1 as int, x2 as int, y2 as int),
                Ink::Flat(color),
            );
        }
        let (left, right): (i32, i32) = if x1 <= x2 { (x1, x2) } else { (x2, x1) };
        let (top, bottom): (i32, i32) = if y1 <= y2 { (y1, y2) } else { (y2, y1) };
        self.fill_area(left as i64, top as i64, right as i64, bottom as i64, color, None);
    }

    /// Fills the rectangle with the corners `(x1, y1)` and `(x2, y2)` in
    /// `color` blended over what is there, or in `color` itself where the
    /// blend map has no table for it.
    pub fn blended_filled_rect(
        &mut self,
        x1: i32,
        y1: i32,
        x2: i32,
        y2: i32,
        color: u8,
        blend_map: &BlendMap,
    )
        requires
            old(self).wf(),
            blend_map.wf(),
        ensures
            final(self).wf(),
            final(self)@ == old(self)@.paint(
                Shape::span(x1 as int, y1 as int, x2 as int, y2 as int),
                Ink::blended(color, blend_map@),
            ),
    {
        let (left, right): (i32, i32) = if x1 <= x2 { (x1, x2) } else { (x2, x1) };
        let (top, bottom): (i32, i32) = if y1 <= y2 { (y1, y2) } else { (y2, y1) };
        let table = blend_map.get_mapping(color);
        self.fill_area(left as i64, top as i64, right as i64, bottom as i64, color, table);
    }

    /// Draws the line from `(x1, y1)` to `(x2, y2)`, both ends included, as
    /// far as it is visible.
    pub fn line(&mut self, x1: i32, y1: i32, x2: i32, y2: i32, color: u8)
        requires
            old(self).wf(),
        ensures
            final(self).wf(),
            final(self)@ == old(self)@.paint(
                Shape::Line { x1: x1 as int, y1: y1 as int, x2: x2 as int, y2: y2 as int },
                Ink::Flat(color),
            ),
    {
        self.draw_line(x1, y1, x2, y2, color, None);
    }

    /// Draws the line from `(x1, y1)` to `(x2, y2)` in `color` blended over
    /// what is there, or in `color` itself where the blend map has no table
    /// for it.
    pub fn blended_line(
        &mut self,
        x1: i32,
        y1: i32,
        x2: i32,
        y2: i32,
        color: u8,
        blend_map: &BlendMap,
    )
        requires
            old(self).wf(),
            blend_map.wf(),
        ensures
            final(self).wf(),
            final(self)@ == old(self)@.paint(
                Shape::Line { x1: x1 as int, y1: y1 as int, x2: x2 as int, y2: y2 as int },
                Ink::blended(color, blend_map@),
            ),
    {
        let table = blend_map.get_mapping(color);
        self.draw_line(x1, y1, x2, y2, color, table);
    }

    /// Inks the pixels of the line from `(x1, y1)` to `(x2, y2)` one by one.
    /// The line advances along the axis on which its ends lie further apart;
    /// an error term says when to move along the other axis.
    fn draw_line(
        &mut self,
        x1: i32,
        y1: i32,
        x2: i32,
        y2: i32,
        color: u8,
        table: Option<&[u8; 256]>,
    )
        requires
            old(self).wf(),
        ensures
            final(self).wf(),
            final(self)@ == old(self)@.paint(
                Shape::Line { x1: x1 as int, y1: y1 as int, x2: x2 as int, y2: y2 as int },
                Ink::of(color, table_entries(table)),
            ),
    {
        let ghost before = self@;
        let ghost ink = Ink::of(color, table_entries(table));
        let ghost (ax, ay, bx, by) = (x1 as int, y1 as int, x2 as int, y2 as int);
        let delta_x: i64 = x2 as i64 - x1 as i64;
        let delta_y: i64 = y2 as i64 - y1 as i64;
        let run: i64 = if delta_x < 0 { -delta_x } else { delta_x };
        let rise: i64 = if delta_y < 0 { -delta_y } else { delta_y };
        let x_inc: i64 = if delta_x < 0 { -1 } else if delta_x > 0 { 1 } else { 0 };
        let y_inc: i64 = if delta_y < 0 { -1 } else if delta_y > 0 { 1 } else { 0 };
        let mut x: i64 = x1 as i64;
        let mut y: i64 = y1 as i64;
        let mut step: i64 = 0;
        let ghost mut moved: int = 0;

        proof {
            lemma_line_ends(ax, ay, bx, by);
            lemma_line_extend(before, before, ink, ax, ay, bx, by, 0);
        }
        self.plot(x, y, color, table);
        if run >= rise {
            let mut error: i64 = rise / 2;
            while step < run
                invariant
                    before.wf(),
                    self.wf(),
                    self@.same_frame(before),
                    ink == Ink::of(color, table_entries(table)),
                    (ax, ay, bx, by) == (x1 as int, y1 as int, x2 as int, y2 as int),
                    run == spec_abs(bx - ax),
                    rise == spec_abs(by - ay),
                    x_inc == (if bx < ax { -1int } else if bx > ax { 1 } else { 0 }),
                    y_inc == (if by < ay { -1int } else if by > ay { 1 } else { 0 }),
                    rise <= run,
                    0 <= step <= run,
                    0 <= error,
                    run > 0 ==> error < run,
                    0 <= moved <= step,
                    error + moved * run == rise / 2 + step * rise,
                    x == ax + directed(bx < ax, step as int),
                    y == ay + directed(by < ay, moved),
                    forall|px: int, py: int|
                        before.in_bounds(px, py) ==> #[trigger] self@.pixel(px, py)
                            == before.inked_pixel(
                            line_reaches(ax, ay, bx, by, step + 1, px, py),
                            ink,
                            px,
                            py,
                        ),
                decreases run - step,
            {
                let ghost old_moved = moved;
                error = error + rise;
                if error >= run {
                    error = error - run;
                    y = y + y_inc;
                    proof {
                        moved = moved + 1;
                    }
                }
                x = x + x_inc;
                step = step + 1;
                proof {
                    assert((old_moved + 1) * run == old_moved * run + run) by (nonlinear_arith);
                    assert(step * rise == (step - 1) * rise + rise) by (nonlinear_arith);
                    vstd::arithmetic::div_mod::lemma_fundamental_div_mod_converse(
                        rise / 2 + step * rise,
                        run as int,
                        moved,
                        error as int,
                    );
                    assert(line_point(ax, ay, bx, by, step as int) == (x as int, y as int));
                    lemma_line_extend(before, self@, ink, ax, ay, bx, by, step as int);
                }
                self.plot(x, y, color, table);
            }
        } else {
            let mut error: i64 = run / 2;
            while step < rise
                invariant
                    before.wf(),
                    self.wf(),
                    self@.same_frame(before),
                    ink == Ink::of(color, table_entries(table)),
                    (ax, ay, bx, by) == (x1 as int, y1 as int, x2 as int, y2 as int),
                    run == spec_abs(bx - ax),
                    rise == spec_abs(by - ay),
                    x_inc == (if bx < ax { -1int } else if bx > ax { 1 } else { 0 }),
                    y_inc == (if by < ay { -1int } else if by > ay { 1 } else { 0 }),
                    run < rise,
                    0 <= step <= rise,
                    0 <= error < rise,
                    0 <= moved <= step,
                    error + moved * rise == run / 2 + step * run,
                    x == ax + directed(bx < ax, moved),
                    y == ay + directed(by < ay, step as int),
                    forall|px: int, py: int|
                        before.in_bounds(px, py) ==> #[trigger] self@.pixel(px, py)
                            == before.inked_pixel(
                            line_reaches(ax, ay, bx, by, step + 1, px, py),
                            ink,
                            px,
                            py,
                        ),
                decreases rise - step,
            {
                let ghost old_moved = moved;
                error = error + run;
                if error >= rise {
                    error = error - rise;
                    x = x + x_inc;
                    proof {
                        moved = moved + 1;
                    }
                }
                y = y + y_inc;
                step = step + 1;
                proof {
                    assert((old_moved + 1) * rise == old_moved * rise + rise) by (nonlinear_arith);
                    assert(step * run == (step - 1) * run + run) by (nonlinear_arith);
                    vstd::arithmetic::div_mod::lemma_fundamental_div_mod_converse(
                        run / 2 + step * run,
                        rise as int,
                        moved,
                        error as int,
                    );
                    assert(line_point(ax, ay, bx, by, step as int) == (x as int, y as int));
                    lemma_line_extend(before, self@, ink, ax, ay, bx, by, step as int);
                }
                self.plot(x, y, color, table);
            }
        }
        proof {
            assert(step == line_steps(ax, ay, bx, by));
            assert forall|px: int, py: int|
                line_reaches(ax, ay, bx, by, step + 1, px, py) == (Shape::Line {
                    x1: ax,
                    y1: ay,
                    x2: bx,
                    y2: by,
                }).covers(px, py) by {
                lemma_walk_draws_line(ax, ay, bx, by, px, py);
            }
            lemma_painted(before, self@, Shape::Line { x1: ax, y1: ay, x2: bx, y2: by }, ink);
        }
    }

    /// Draws the outline of the circle round `(center_x, center_y)` with the
    /// given radius, as far as it is visible.
    pub fn circle(&mut self, center_x: i32, center_y: i32, radius: u32, color: u8)
        requires
            old(self).wf(),
        ensures
            final(self).wf(),
            final(self)@ == old(self)@.paint(
                Shape::Circle {
                    center_x: center_x as int,
                    center_y: center_y as int,
                    radius: radius as int,
                },
                Ink::Flat(color),
            ),
            forall|x: int, y: int|
                old(self)@.in_bounds(x, y) && !old(self)@.visible(x, y)
                    ==> #[trigger] final(self)@.pixel(x, y) == old(self)@.pixel(x, y),
            (Shape::Circle {
                center_x: center_x as int,
                center_y: center_y as int,
                radius: radius as int,
            }).misses(old(self)@.clip) ==> final(self)@ == old(self)@,
    {
        proof {
            lemma_paint_confined(
                self@,
                Shape::Circle {
                    center_x: center_x as int,
                    center_y: center_y as int,
                    radius: radius as int,
                },
                Ink::Flat(color),
            );
        }
        self.trace_circle(center_x, center_y, radius, color, false);
    }

    /// Draws the circle round `(center_x, center_y)` with the given radius
    /// and fills it, as far as it is visible.
    pub fn filled_circle(&mut self, center_x: i32, center_y: i32, radius: u32, color: u8)
        requires
            old(self).wf(),
        ensures
            final(self).wf(),
            final(self)@ == old(self)@.paint(
                Shape::Disc {
                    center_x: center_x as int,
                    center_y: center_y as int,
                    radius: radius as int,
                },
                Ink::Flat(color),
            ),
            forall|x: int, y: int|
                old(self)@.in_bounds(x, y) && !old(self)@.visible(x, y)
                    ==> #[trigger] final(self)@.pixel(x, y) == old(self)@.pixel(x, y),
            (Shape::Disc {
                center_x: center_x as int,
                center_y: center_y as int,
                radius: radius as int,
            }).misses(old(self)@.clip) ==> final(self)@ == old(self)@,
    {
        proof {
            lemma_paint_confined(
                self@,
                Shape::Disc {
                    center_x: center_x as int,
                    center_y: center_y as int,
                    radius: radius as int,
                },
                Ink::Flat(color),
            );
        }
        self.trace_circle(center_x, center_y, radius, color, true);
    }

    /// Draws what belongs to one outline pixel, `x` columns and `y` rows from
    /// the centre: its eight mirror images, or the four spans between them.
    fn draw_circle_column(
        &mut self,
        center_x: i64,
        center_y: i64,
        x: i64,
        y: i64,
        color: u8,
        filled: bool,
    )
        requires
            old(self).wf(),
            -0x8000_0000 <= center_x <= 0x7fff_ffff,
            -0x8000_0000 <= center_y <= 0x7fff_ffff,
            0 <= x <= y <= 0xffff_ffff,
        ensures
            final(self).wf(),
            final(self)@.same_frame(old(self)@),
            forall|px: int, py: int|
                old(self)@.in_bounds(px, py) ==> #[trigger] final(self)@.pixel(px, py) == old(self)@
                    .inked_pixel(
                    mirrored(x as int, y as int, filled, px - center_x, py - center_y),
                    Ink::Flat(color),
                    px,
                    py,
                ),
    {
        if filled {
            self.fill_four_areas(
                (center_x - x, center_y - y, center_x + x, center_y - y),
                (center_x - y, center_y - x, center_x + y, center_y - x),
                (center_x - y, center_y + x, center_x + y, center_y + x),
                (center_x - x, center_y + y, center_x + x, center_y + y),
                color,
            );
        } else {
            let ghost before = self@;
            let ghost ink = Ink::Flat(color);
            self.plot(center_x + x, center_y + y, color, None);
            let ghost with_a = self@;
            self.plot(center_x + x, center_y - y, color, None);
            let ghost with_b = self@;
            self.plot(center_x - x, center_y + y, color, None);
            let ghost with_c = self@;
            self.plot(center_x - x, center_y - y, color, None);
            let ghost with_d = self@;
            self.plot(center_x + y, center_y + x, color, None);
            let ghost with_e = self@;
            self.plot(center_x + y, center_y - x, color, None);
            let ghost with_f = self@;
            self.plot(center_x - y, center_y + x, color, None);
            let ghost with_g = self@;
            self.plot(center_x - y, center_y - x, color, None);
            proof {
                let a = Shape::point(center_x + x, center_y + y);
                let b = Shape::point(center_x + x, center_y - y);
                let c = Shape::point(center_x - x, center_y + y);
                let d = Shape::point(center_x - x, center_y - y);
                let e = Shape::point(center_x + y, center_y + x);
                let f = Shape::point(center_x + y, center_y - x);
                let g = Shape::point(center_x - y, center_y + x);
                let h = Shape::point(center_x - y, center_y - x);
                lemma_paint(before, a, ink);
                lemma_paint(with_a, b, ink);
                lemma_paint(with_b, c, ink);
                lemma_paint(with_c, d, ink);
                lemma_paint(with_d, e, ink);
                lemma_paint(with_e, f, ink);
                lemma_paint(with_f, g, ink);
                lemma_paint(with_g, h, ink);
                assert forall|px: int, py: int| before.in_bounds(px, py) implies
                    #[trigger] self@.pixel(px, py) == before.inked_pixel(
                    mirrored(x as int, y as int, filled, px - center_x, py - center_y),
                    ink,
                    px,
                    py,
                ) by {
                    assert(with_a.pixel(px, py) == before.painted_pixel(a, ink, px, py));
                    assert(with_b.pixel(px, py) == with_a.painted_pixel(b, ink, px, py));
                    assert(with_c.pixel(px, py) == with_b.painted_pixel(c, ink, px, py));
                    assert(with_d.pixel(px, py) == with_c.painted_pixel(d, ink, px, py));
                    assert(with_e.pixel(px, py) == with_d.painted_pixel(e, ink, px, py));
                    assert(with_f.pixel(px, py) == with_e.painted_pixel(f, ink, px, py));
                    assert(with_g.pixel(px, py) == with_f.painted_pixel(g, ink, px, py));
                    assert(self@.pixel(px, py) == with_g.painted_pixel(h, ink, px, py));
                }
            }
        }
    }

    /// Walks the outline of a circle from its top through one eighth of the
    /// circle, column by column, and draws what belongs to each outline
    /// pixel. A decision value says when the outline drops by a row.
    fn trace_circle(&mut self, center_x: i32, center_y: i32, radius: u32, color: u8, filled: bool)
        requires
            old(self).wf(),
        ensures
            final(self).wf(),
            final(self)@ == old(self)@.paint(
                if filled {
                    Shape::Disc {
                        center_x: center_x as int,
                        center_y: center_y as int,
                        radius: radius as int,
                    }
                } else {
                    Shape::Circle {
                        center_x: center_x as int,
                        center_y: center_y as int,
                        radius: radius as int,
                    }
                },
                Ink::Flat(color),
            ),
    {
        let ghost before = self@;
        let ghost ink = Ink::Flat(color);
        let ghost (cx, cy, r) = (center_x as int, center_y as int, radius as int);
        let ghost shape = if filled {
            Shape::Disc { center_x: cx, center_y: cy, radius: r }
        } else {
            Shape::Circle { center_x: cx, center_y: cy, radius: r }
        };
        let mut x: i64 = 0;
        let mut y: i64 = radius as i64;
        let mut m: i128 = 5 - 4 * (radius as i128);
        proof {
            assert((2 * r - 1) * (2 * r - 1) == 4 * (r * r) - 4 * r + 1) by (nonlinear_arith);
        }
        while x <= y
            invariant
                before.wf(),
                self.wf(),
                self@.same_frame(before),
                ink == Ink::Flat(color),
                (cx, cy, r) == (center_x as int, center_y as int, radius as int),
                0 <= x <= r + 1,
                -1 <= y <= r,
                y == circle_rise(r, x as int),
                m == 4 * ((x + 1) * (x + 1)) + (2 * y - 1) * (2 * y - 1) - 4 * (r * r),
                forall|px: int, py: int|
                    before.in_bounds(px, py) ==> #[trigger] self@.pixel(px, py)
                        == before.inked_pixel(
                        circle_reaches(r, x as int, filled, px - cx, py - cy),
                        ink,
                        px,
                        py,
                    ),
            decreases r + 1 - x,
        {
            let ghost current = self@;
            self.draw_circle_column(center_x as i64, center_y as i64, x, y, color, filled);
            proof {
                assert forall|px: int, py: int| before.in_bounds(px, py) implies
                    #[trigger] self@.pixel(px, py) == before.inked_pixel(
                    circle_reaches(r, x + 1, filled, px - cx, py - cy),
                    ink,
                    px,
                    py,
                ) by {
                    lemma_circle_reaches_next(r, x as int, filled, px - cx, py - cy);
                    assert(circle_column_covers(r, x as int, filled, px - cx, py - cy) == mirrored(
                        x as int,
                        y as int,
                        filled,
                        px - cx,
                        py - cy,
                    ));
                    assert(current.pixel(px, py) == before.inked_pixel(
                        circle_reaches(r, x as int, filled, px - cx, py - cy),
                        ink,
                        px,
                        py,
                    ));
                }
                lemma_decision_in_range(r, x as int, y as int);
                lemma_decision_in_range(r, x as int, y - 1);
                lemma_decision_in_range(r, x + 1, y as int);
                lemma_decision_in_range(r, x + 1, y - 1);
                lemma_decision_steps(r, x as int, y as int);
                assert(circle_rise(r, x + 1) == (if 4 * (x + 1) * (x + 1) + (2 * y - 1) * (2 * y
                    - 1) > 4 * r * r {
                    y - 1
                } else {
                    y as int
                }));
            }
            if m > 0 {
                y = y - 1;
                m = m - 8 * (y as i128);
            }
            x = x + 1;
            m = m + 8 * (x as i128) + 4;
        }
        proof {
            assert forall|px: int, py: int| before.in_bounds(px, py) implies
                #[trigger] self@.pixel(px, py) == before.inked_pixel(
                shape.covers(px, py),
                ink,
                px,
                py,
            ) by {
                lemma_circle_complete(r, x as int, filled, px - cx, py - cy);
                if filled {
                    lemma_walk_draws_disc(r, px - cx, py - cy);
                } else {
                    lemma_walk_draws_circle(r, px - cx, py - cy);
                }
            }
            lemma_painted(before, self@, shape, ink);
        }
    }
}

/// The area between the corners `(corners.0, corners.1)` and
/// `(corners.2, corners.3)`, taken as its left, top, right and bottom.
pub open spec fn area_of(corners: (i64, i64, i64, i64)) -> Shape {
    Shape::Area {
        left: corners.0 as int,
        top: corners.1 as int,
        right: corners.2 as int,
        bottom: corners.3 as int,
    }
}

/// The decision value of the circle walk stays far inside the range of an
/// `i128`.
proof fn lemma_decision_in_range(radius: int, x: int, y: int)
    requires
        0 <= radius <= 0xffff_ffff,
        0 <= x <= radius + 2,
        -2 <= y <= radius,
    ensures
        -0x100_0000_0000_0000_0000 <= 4 * ((x + 1) * (x + 1)) + (2 * y - 1) * (2 * y - 1) - 4 * (
        radius * radius) <= 0x100_0000_0000_0000_0000,
{
    assert(0 <= (x + 1) * (x + 1) <= 0x1_0000_0002 * 0x1_0000_0002) by (nonlinear_arith)
        requires
            0 <= x + 1 <= 0x1_0000_0002,
    ;
    assert(0 <= (2 * y - 1) * (2 * y - 1) <= 0x2_0000_0000 * 0x2_0000_0000) by (nonlinear_arith)
        requires
            -5 <= 2 * y - 1 <= 0x2_0000_0000,
    ;
    assert(0 <= radius * radius <= 0xffff_ffff * 0xffff_ffff) by (nonlinear_arith)
        requires
            0 <= radius <= 0xffff_ffff,
    ;
}

/// How the decision value changes when the walk drops a row and when it
/// moves on a column.
proof fn lemma_decision_steps(radius: int, x: int, y: int)
    ensures
        (2 * (y - 1) - 1) * (2 * (y - 1) - 1) == (2 * y - 1) * (2 * y - 1) - 8 * (y - 1),
        (x + 2) * (x + 2) == (x + 1) * (x + 1) + 2 * (x + 1) + 1,
        4 * (x + 1) * (x + 1) == 4 * ((x + 1) * (x + 1)),
        4 * radius * radius == 4 * (radius * radius),
{
    assert((2 * (y - 1) - 1) * (2 * (y - 1) - 1) == (2 * y - 1) * (2 * y - 1) - 8 * (y - 1))
        by (nonlinear_arith);
    assert((x + 2) * (x + 2) == (x + 1) * (x + 1) + 2 * (x + 1) + 1) by (nonlinear_arith);
    assert(4 * (x + 1) * (x + 1) == 4 * ((x + 1) * (x + 1))) by (nonlinear_arith);
    assert(4 * radius * radius == 4 * (radius * radius)) by (nonlinear_arith);
}

} // verus!
