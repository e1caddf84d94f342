//! What the drawing routines draw: the shapes, as sets of pixel positions,
//! and the inks that colour them.

use vstd::prelude::*;
use crate::arith::{spec_max, spec_min};
use crate::circle::{in_disc, lemma_circle_within_radius, on_circle};
use crate::line::{
    lemma_line_point_fresh,
    lemma_line_reaches_next,
    lemma_line_within_ends,
    line_point,
    line_reaches,
    on_line,
};
use crate::blendmap::BlendTables;
use crate::raster::{Raster, lemma_index_in_range, lemma_index_split, lemma_same_pixels};
use crate::rect::Rect;

verus! {

/// How a drawn pixel gets its colour.
pub enum Ink {
    /// The pixel becomes this colour.
    Flat(u8),
    /// The pixel becomes the entry of this table at the colour that it had.
    Mapped(Seq<u8>),
}

impl Ink {
    /// The colour of a drawn pixel that held `existing` before.
    pub open spec fn apply(self, existing: u8) -> u8 {
        match self {
            Ink::Flat(color) => color,
            Ink::Mapped(table) => table[existing as int],
        }
    }

    /// The ink that drawing in `color` through a table uses: the table where
    /// there is one, the flat colour where there is none.
    pub open spec fn of(color: u8, table: Option<Seq<u8>>) -> Ink {
        match table {
            Some(entries) => Ink::Mapped(entries),
            None => Ink::Flat(color),
        }
    }

    /// The ink that blended drawing in `color` uses with the given tables.
    pub open spec fn blended(color: u8, tables: BlendTables) -> Ink {
        Ink::of(color, tables.mapping(color))
    }
}

/// A set of pixel positions.
pub enum Shape {
    /// The positions from `left` to `right` and from `top` to `bottom`, all
    /// four included. Empty where `left > right` or `top > bottom`.
    Area { left: int, top: int, right: int, bottom: int },
    /// The border of the rectangle with the corners `(x1, y1)` and
    /// `(x2, y2)`, in either order.
    Frame { x1: int, y1: int, x2: int, y2: int },
    /// The pixels of the line from `(x1, y1)` to `(x2, y2)`.
    Line { x1: int, y1: int, x2: int, y2: int },
    /// The outline of the circle round `(center_x, center_y)`.
    Circle { center_x: int, center_y: int, radius: int },
    /// The circle round `(center_x, center_y)` with its inside.
    Disc { center_x: int, center_y: int, radius: int },
}

impl Shape {
    /// The single position `(x, y)`.
    pub open spec fn point(x: int, y: int) -> Shape {
        Shape::Area { left: x, top: y, right: x, bottom: y }
    }

    /// The positions between two corners, both included, in either order.
    pub open spec fn span(x1: int, y1: int, x2: int, y2: int) -> Shape {
        Shape::Area {
            left: spec_min(x1, x2),
            top: spec_min(y1, y2),
            right: spec_max(x1, x2),
            bottom: spec_max(y1, y2),
        }
    }

    /// The smallest area that holds the whole shape.
    pub open spec fn bounds(self) -> Shape {
        match self {
            Shape::Area { .. } => self,
            Shape::Frame { x1, y1, x2, y2 } => Shape::span(x1, y1, x2, y2),
            Shape::Line { x1, y1, x2, y2 } => Shape::span(x1, y1, x2, y2),
            Shape::Circle { center_x, center_y, radius } => Shape::Area {
                left: center_x - radius,
                top: center_y - radius,
                right: center_x + radius,
                bottom: center_y + radius,
            },
            Shape::Disc { center_x, center_y, radius } => Shape::Area {
                left: center_x - radius,
                top: center_y - radius,
                right: center_x + radius,
                bottom: center_y + radius,
            },
        }
    }

    /// The shape lies wholly outside the rectangle `clip`: to its left, to
    /// its right, above it or below it.
    pub open spec fn misses(self, clip: Rect) -> bool {
        match self.bounds() {
            Shape::Area { left, top, right, bottom } => {
                ||| right < clip.x
                ||| left > clip.spec_right()
                ||| bottom < clip.y
                ||| top > clip.spec_bottom()
            },
            _ => false,
        }
    }

    /// The position `(x, y)` belongs to the shape.
    pub open spec fn covers(self, x: int, y: int) -> bool {
        match self {
            Shape::Area { left, top, right, bottom } => left <= x <= right && top <= y <= bottom,
            Shape::Frame { x1, y1, x2, y2 } => {
                &&& spec_min(x1, x2) <= x <= spec_max(x1, x2)
                &&& spec_min(y1, y2) <= y <= spec_max(y1, y2)
                &&& (x == x1 || x == x2 || y == y1 || y == y2)
            },
            Shape::Line { x1, y1, x2, y2 } => on_line(x1, y1, x2, y2, x, y),
            Shape::Circle { center_x, center_y, radius } => on_circle(
                radius,
                x - center_x,
                y - center_y,
            ),
            Shape::Disc { center_x, center_y, radius } => in_disc(
                radius,
                x - center_x,
                y - center_y,
            ),
        }
    }
}

impl Raster {
    /// The pixel at `(x, y)` after `shape` has been drawn in `ink`: inked
    /// where the position is visible and belongs to the shape, as it was
    /// elsewhere.
    pub open spec fn painted_pixel(self, shape: Shape, ink: Ink, x: int, y: int) -> u8 {
        self.inked_pixel(shape.covers(x, y), ink, x, y)
    }

    /// The pixel at `(x, y)` after drawing in `ink`, where `covered` says
    /// whether the position belongs to what is drawn.
    pub open spec fn inked_pixel(self, covered: bool, ink: Ink, x: int, y: int) -> u8 {
        if covered && self.visible(x, y) {
            ink.apply(self.pixel(x, y))
        } else {
            self.pixel(x, y)
        }
    }

    /// The picture after `shape` has been drawn in `ink`, confined to the clip
    /// rectangle.
    pub open spec fn paint(self, shape: Shape, ink: Ink) -> Raster {
        Raster {
            pixels: Seq::new(
                self.pixels.len(),
                |i: int| self.painted_pixel(shape, ink, self.column_of(i), self.row_of(i)),
            ),
            ..self
        }
    }

    /// The picture after the border of the rectangle with the corners
    /// `(x1, y1)` and `(x2, y2)` has been drawn edge by edge in `ink`: the top
    /// and the bottom edge first, each without the first and the last pixel of
    /// its visible part, then the left and the right edge in full. A pixel
    /// that two of these edges share is inked twice.
    pub open spec fn paint_frame_by_edges(self, x1: int, y1: int, x2: int, y2: int, ink: Ink)
        -> Raster {
        let left = spec_min(x1, x2);
        let right = spec_max(x1, x2);
        let top = spec_min(y1, y2);
        let bottom = spec_max(y1, y2);
        let inner_left = spec_max(left, self.clip.x as int) + 1;
        let inner_right = spec_min(right, self.clip.spec_right()) - 1;
        let top_edge = Shape::Area { left: inner_left, top, right: inner_right, bottom: top };
        let bottom_edge = Shape::Area { left: inner_left, top: bottom, right: inner_right, bottom };
        let left_edge = Shape::Area { left, top, right: left, bottom };
        let right_edge = Shape::Area { left: right, top, right, bottom };
        self.paint(top_edge, ink).paint(bottom_edge, ink).paint(left_edge, ink).paint(
            right_edge,
            ink,
        )
    }
}

/// The pixels of a painted picture, position by position.
pub proof fn lemma_paint(r: Raster, shape: Shape, ink: Ink)
    requires
        r.wf(),
    ensures
        r.paint(shape, ink).wf(),
        r.paint(shape, ink).same_frame(r),
        forall|x: int, y: int|
            r.in_bounds(x, y) ==> #[trigger] r.paint(shape, ink).pixel(x, y) == r.painted_pixel(
                shape,
                ink,
                x,
                y,
            ),
{
    let after = r.paint(shape, ink);
    assert forall|x: int, y: int| r.in_bounds(x, y) implies #[trigger] after.pixel(x, y)
        == r.painted_pixel(shape, ink, x, y) by {
        lemma_index_in_range(r.width, r.height, x, y);
        lemma_index_split(r.width, x, y);
    }
}

/// Every position of a shape lies in the shape's bounds.
pub proof fn lemma_shape_within_bounds(shape: Shape, x: int, y: int)
    requires
        shape.covers(x, y),
    ensures
        shape.bounds().covers(x, y),
{
    match shape {
        Shape::Area { .. } => {},
        Shape::Frame { .. } => {},
        Shape::Line { x1, y1, x2, y2 } => {
            lemma_line_within_ends(x1, y1, x2, y2, x, y);
        },
        Shape::Circle { center_x, center_y, radius } => {
            lemma_circle_within_radius(radius, x - center_x, y - center_y);
        },
        Shape::Disc { center_x, center_y, radius } => {
            lemma_circle_within_radius(radius, x - center_x, y - center_y);
        },
    }
}

/// Drawing is confined to the clip rectangle: no pixel outside it changes,
/// and a shape that lies wholly outside it leaves the picture as it was.
pub proof fn lemma_paint_confined(r: Raster, shape: Shape, ink: Ink)
    requires
        r.wf(),
    ensures
        forall|x: int, y: int|
            r.in_bounds(x, y) && !r.visible(x, y) ==> #[trigger] r.paint(shape, ink).pixel(x, y)
                == r.pixel(x, y),
        shape.misses(r.clip) ==> r.paint(shape, ink) == r,
{
    lemma_paint(r, shape, ink);
    if shape.misses(r.clip) {
        assert forall|x: int, y: int| r.in_bounds(x, y) implies #[trigger] r.pixel(x, y) == r.paint(
            shape,
            ink,
        ).pixel(x, y) by {
            if shape.covers(x, y) {
                lemma_shape_within_bounds(shape, x, y);
            }
        }
        lemma_same_pixels(r, r.paint(shape, ink));
    }
}

/// A picture that holds, position by position, what `before` holds with
/// `shape` drawn in `ink` is `before.paint(shape, ink)`.
pub proof fn lemma_painted(before: Raster, after: Raster, shape: Shape, ink: Ink)
    requires
        before.wf(),
        after.wf(),
        after.same_frame(before),
        forall|x: int, y: int|
            before.in_bounds(x, y) ==> #[trigger] after.pixel(x, y) == before.inked_pixel(
                shape.covers(x, y),
                ink,
                x,
                y,
            ),
    ensures
        after == before.paint(shape, ink),
{
    lemma_paint(before, shape, ink);
    lemma_same_pixels(after, before.paint(shape, ink));
}

/// Drawing the next pixel of a line: on a picture that holds the first
/// `steps` pixels of the line, inking the pixel at step `steps` gives the
/// picture that holds the first `steps + 1`.
pub proof fn lemma_line_extend(
    before: Raster,
    current: Raster,
    ink: Ink,
    x1: int,
    y1: int,
    x2: int,
    y2: int,
    steps: int,
)
    requires
        before.wf(),
        current.wf(),
        current.same_frame(before),
        0 <= steps,
        forall|x: int, y: int|
            before.in_bounds(x, y) ==> #[trigger] current.pixel(x, y) == before.inked_pixel(
                line_reaches(x1, y1, x2, y2, steps, x, y),
                ink,
                x,
                y,
            ),
    ensures
        ({
            let next = line_point(x1, y1, x2, y2, steps);
            let after = current.paint(Shape::point(next.0, next.1), ink);
            &&& after.wf()
            &&& after.same_frame(before)
            &&& forall|x: int, y: int|
                before.in_bounds(x, y) ==> #[trigger] after.pixel(x, y) == before.inked_pixel(
                    line_reaches(x1, y1, x2, y2, steps + 1, x, y),
                    ink,
                    x,
                    y,
                )
        }),
{
    let next = line_point(x1, y1, x2, y2, steps);
    let after = current.paint(Shape::point(next.0, next.1), ink);
    lemma_paint(current, Shape::point(next.0, next.1), ink);
    lemma_line_point_fresh(x1, y1, x2, y2, steps);
    assert forall|x: int, y: int| before.in_bounds(x, y) implies #[trigger] after.pixel(x, y)
        == before.inked_pixel(line_reaches(x1, y1, x2, y2, steps + 1, x, y), ink, x, y) by {
        lemma_line_reaches_next(x1, y1, x2, y2, steps, x, y);
        assert(after.pixel(x, y) == current.painted_pixel(
            Shape::point(next.0, next.1),
            ink,
            x,
            y,
        ));
    }
}

} // verus!
