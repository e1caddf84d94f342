//! Circles on the pixel grid: which pixels make up an outline and a filled
//! circle, and how the walk that draws them column by column reaches exactly
//! these.

use vstd::prelude::*;
use crate::arith::{spec_abs, spec_max, spec_min};

verus! {

/// The pixel at `(dx, dy)` from the centre belongs to the outline of the
/// circle of the given radius. Take the pixel's distance from the centre
/// along each axis, and call the smaller one `short` and the larger one
/// `long`: the pixel belongs to the outline where `long` is the whole number
/// nearest to the circle's extent at `short`, the square root of
/// `radius * radius - short * short`. A circle of radius zero is its centre.
pub open spec fn on_circle(radius: int, dx: int, dy: int) -> bool {
    let short = spec_min(spec_abs(dx), spec_abs(dy));
    let long = spec_max(spec_abs(dx), spec_abs(dy));
    if radius <= 0 {
        radius == 0 && long == 0
    } else {
        let extent_squared = 4 * (radius * radius - short * short);
        (2 * long - 1) * (2 * long - 1) <= extent_squared < (2 * long + 1) * (2 * long + 1)
    }
}

/// The pixel at `(dx, dy)` from the centre belongs to the filled circle of
/// the given radius: it is the centre, or the point half a pixel nearer to
/// the centre along the pixel's longer axis lies inside the circle.
pub open spec fn in_disc(radius: int, dx: int, dy: int) -> bool {
    let short = spec_min(spec_abs(dx), spec_abs(dy));
    let long = spec_max(spec_abs(dx), spec_abs(dy));
    radius >= 0 && (long == 0 || (2 * long - 1) * (2 * long - 1) + 4 * (short * short) <= 4 * (
    radius * radius))
}

/// How far from the centre row the walk round a circle stands at `column`
/// columns from the centre. The walk starts `radius` rows up; with each
/// column it stays in its row, or drops by one where the point midway
/// between the two rows lies outside the circle.
pub open spec fn circle_rise(radius: int, column: int) -> int
    decreases column,
{
    if column <= 0 {
        radius
    } else {
        let before = circle_rise(radius, column - 1);
        if 4 * (column * column) + (2 * before - 1) * (2 * before - 1) > 4 * (radius * radius) {
            before - 1
        } else {
            before
        }
    }
}

/// The pixel at `(dx, dy)` from the centre is drawn for the position `x`
/// columns and `y` rows from the centre: for the outline, it is one of the
/// eight mirror images of that position; for the filled circle, it lies on
/// one of the four spans between them.
pub open spec fn mirrored(x: int, y: int, filled: bool, dx: int, dy: int) -> bool {
    if filled {
        (spec_abs(dx) <= x && spec_abs(dy) == y) || (spec_abs(dx) <= y && spec_abs(dy) == x)
    } else {
        (spec_abs(dx) == x && spec_abs(dy) == y) || (spec_abs(dx) == y && spec_abs(dy) == x)
    }
}

/// The pixel at `(dx, dy)` from the centre is drawn when the walk stands at
/// `column`. The walk draws as long as it has not passed the diagonal.
pub open spec fn circle_column_covers(radius: int, column: int, filled: bool, dx: int, dy: int)
    -> bool {
    let rise = circle_rise(radius, column);
    0 <= column <= rise && mirrored(column, rise, filled, dx, dy)
}

/// The pixel at `(dx, dy)` from the centre is drawn at one of the first
/// `columns` columns of the walk.
pub open spec fn circle_reaches(radius: int, columns: int, filled: bool, dx: int, dy: int)
    -> bool {
    exists|column: int|
        0 <= column < columns && #[trigger] circle_column_covers(radius, column, filled, dx, dy)
}

/// The walk never rises from one column to a later one.
pub proof fn lemma_circle_rise_falls(radius: int, column: int, later: int)
    requires
        column <= later,
    ensures
        circle_rise(radius, later) <= circle_rise(radius, column),
    decreases later - column,
{
    if column < later {
        lemma_circle_rise_falls(radius, column, later - 1);
        if later <= 0 {
            assert(circle_rise(radius, later) == radius);
            assert(circle_rise(radius, later - 1) == radius);
        }
    }
}

/// The walk drops by one row per column at most.
pub proof fn lemma_circle_rise_slow(radius: int, column: int)
    requires
        0 <= column,
    ensures
        circle_rise(radius, column) >= radius - column,
    decreases column,
{
    if column > 0 {
        lemma_circle_rise_slow(radius, column - 1);
    }
}

/// On its way down the walk stands in every row that it passes: between a
/// column and a later one there is a column at which it stands in `row`,
/// where `row` lies between its rows at the two.
pub proof fn lemma_circle_rise_meets(radius: int, column: int, later: int, row: int) -> (at: int)
    requires
        0 <= column <= later,
        circle_rise(radius, later) <= row <= circle_rise(radius, column),
    ensures
        column <= at <= later,
        circle_rise(radius, at) == row,
    decreases later - column,
{
    if circle_rise(radius, later) == row {
        later
    } else {
        assert(column < later);
        lemma_circle_rise_meets(radius, column, later - 1, row)
    }
}

/// The point half a pixel above the walk's position lies outside the circle.
pub proof fn lemma_circle_rise_upper(radius: int, column: int)
    requires
        0 <= radius,
        0 <= column,
    ensures
        4 * (column * column) + (2 * circle_rise(radius, column) + 1) * (2 * circle_rise(
            radius,
            column,
        ) + 1) > 4 * (radius * radius),
    decreases column,
{
    if column == 0 {
        assert((2 * radius + 1) * (2 * radius + 1) == 4 * (radius * radius) + 4 * radius + 1)
            by (nonlinear_arith);
        assert(0 * 0 == 0);
    } else {
        lemma_circle_rise_upper(radius, column - 1);
        let before = circle_rise(radius, column - 1);
        assert(column * column == (column - 1) * (column - 1) + 2 * column - 1)
            by (nonlinear_arith);
        assert(2 * (before - 1) + 1 == 2 * before - 1);
    }
}

/// Until the walk has passed the diagonal, the point half a pixel below its
/// position lies inside the circle.
pub proof fn lemma_circle_rise_lower(radius: int, column: int)
    requires
        1 <= radius,
        0 <= column <= circle_rise(radius, column),
    ensures
        4 * (column * column) + (2 * circle_rise(radius, column) - 1) * (2 * circle_rise(
            radius,
            column,
        ) - 1) <= 4 * (radius * radius),
    decreases column,
{
    if column == 0 {
        assert((2 * radius - 1) * (2 * radius - 1) == 4 * (radius * radius) - 4 * radius + 1)
            by (nonlinear_arith);
        assert(0 * 0 == 0);
    } else {
        let before = circle_rise(radius, column - 1);
        lemma_circle_rise_falls(radius, column - 1, column);
        lemma_circle_rise_lower(radius, column - 1);
        if circle_rise(radius, column) == before - 1 {
            assert(column * column == (column - 1) * (column - 1) + 2 * column - 1)
                by (nonlinear_arith);
            assert((2 * (before - 1) - 1) * (2 * (before - 1) - 1) == (2 * before - 1) * (2
                * before - 1) - 8 * before + 8) by (nonlinear_arith);
        }
    }
}

/// A whole number whose square is no more than the square of a positive one
/// lies between that number and its negative; so one that does not has the
/// larger square.
proof fn lemma_square_order(small: int, large: int)
    requires
        0 <= large,
    ensures
        -large <= small <= large ==> small * small <= large * large,
        small > large || small < -large ==> small * small > large * large,
{
    if -large <= small <= large {
        assert(small * small <= large * large) by (nonlinear_arith)
            requires
                -large <= small <= large,
        ;
    } else {
        assert(small * small > large * large) by (nonlinear_arith)
            requires
                small > large || small < -large,
                0 <= large,
        ;
    }
}

/// Where the walk stands at a column short of the diagonal is where the
/// circle's outline lies: the walk's row at column `short` is `long` just
/// when `long` is the whole number nearest to the circle's extent there.
pub proof fn lemma_circle_rise_is_nearest(radius: int, short: int, long: int)
    requires
        1 <= radius,
        0 <= short,
        0 <= long,
    ensures
        (short <= circle_rise(radius, short) && long == circle_rise(radius, short)) <==> (short
            <= long && (2 * long - 1) * (2 * long - 1) <= 4 * (radius * radius - short * short) < (2
            * long + 1) * (2 * long + 1)),
{
    let rise = circle_rise(radius, short);
    let extent_squared = 4 * (radius * radius - short * short);
    assert(extent_squared == 4 * (radius * radius) - 4 * (short * short)) by (nonlinear_arith)
        requires
            extent_squared == 4 * (radius * radius - short * short),
    ;
    lemma_circle_rise_upper(radius, short);
    if short <= rise && long == rise {
        lemma_circle_rise_lower(radius, short);
    }
    if short <= long && (2 * long - 1) * (2 * long - 1) <= extent_squared < (2 * long + 1) * (2
        * long + 1) {
        lemma_circle_rise_slow(radius, short);
        if rise < long {
            lemma_square_order(2 * rise + 1, 2 * long - 1);
            assert(false);
        }
        lemma_circle_rise_lower(radius, short);
        if rise > long {
            lemma_square_order(2 * long + 1, 2 * rise - 1);
            assert(false);
        }
    }
}

/// The walk round a circle draws the circle's outline: a pixel is drawn at
/// one of the walk's columns just when it belongs to the outline.
pub proof fn lemma_walk_draws_circle(radius: int, dx: int, dy: int)
    requires
        0 <= radius,
    ensures
        circle_reaches(radius, radius + 1, false, dx, dy) == on_circle(radius, dx, dy),
{
    let short = spec_min(spec_abs(dx), spec_abs(dy));
    let long = spec_max(spec_abs(dx), spec_abs(dy));
    if circle_reaches(radius, radius + 1, false, dx, dy) {
        let column = choose|column: int|
            0 <= column < radius + 1 && #[trigger] circle_column_covers(
                radius,
                column,
                false,
                dx,
                dy,
            );
        assert(short == column && long == circle_rise(radius, column));
        if radius >= 1 {
            lemma_circle_rise_is_nearest(radius, short, long);
        } else {
            lemma_circle_rise_falls(radius, 0, column);
        }
    }
    if on_circle(radius, dx, dy) {
        if radius >= 1 {
            lemma_circle_rise_is_nearest(radius, short, long);
            lemma_circle_rise_falls(radius, 0, short);
        }
        assert(circle_column_covers(radius, short, false, dx, dy));
    }
}

/// The walk round a circle fills the circle: a pixel lies on one of the
/// spans drawn at the walk's columns just when it belongs to the filled
/// circle.
pub proof fn lemma_walk_draws_disc(radius: int, dx: int, dy: int)
    requires
        0 <= radius,
    ensures
        circle_reaches(radius, radius + 1, true, dx, dy) == in_disc(radius, dx, dy),
{
    let short = spec_min(spec_abs(dx), spec_abs(dy));
    let long = spec_max(spec_abs(dx), spec_abs(dy));
    if circle_reaches(radius, radius + 1, true, dx, dy) {
        let column = choose|column: int|
            0 <= column < radius + 1 && #[trigger] circle_column_covers(
                radius,
                column,
                true,
                dx,
                dy,
            );
        let rise = circle_rise(radius, column);
        if radius >= 1 {
            lemma_circle_rise_lower(radius, column);
            if long >= 1 {
                assert(short <= column && long <= rise);
                lemma_square_order(short, column);
                lemma_square_order(2 * long - 1, 2 * rise - 1);
            }
        } else {
            lemma_circle_rise_falls(radius, 0, column);
        }
    }
    if in_disc(radius, dx, dy) {
        if long == 0 {
            assert(circle_column_covers(radius, 0, true, dx, dy));
        } else {
            assert(radius >= 1) by (nonlinear_arith)
                requires
                    (2 * long - 1) * (2 * long - 1) + 4 * (short * short) <= 4 * (radius * radius),
                    long >= 1,
                    radius >= 0,
            ;
            let rise = circle_rise(radius, short);
            lemma_circle_rise_upper(radius, short);
            lemma_circle_rise_slow(radius, short);
            if rise < long {
                lemma_square_order(2 * rise + 1, 2 * long - 1);
                assert(false);
            }
            lemma_circle_rise_falls(radius, 0, short);
            if spec_abs(dy) <= spec_abs(dx) {
                assert(circle_column_covers(radius, short, true, dx, dy));
            } else if long <= circle_rise(radius, long) {
                lemma_circle_rise_falls(radius, 0, long);
                lemma_circle_rise_falls(radius, short, long);
                assert(circle_column_covers(radius, long, true, dx, dy));
            } else {
                let at = lemma_circle_rise_meets(radius, short, long, long);
                lemma_circle_rise_falls(radius, 0, at);
                assert(circle_column_covers(radius, at, true, dx, dy));
            }
        }
    }
}

/// No pixel of a circle, outline or filled, lies further from the centre
/// than the radius along either axis.
pub proof fn lemma_circle_within_radius(radius: int, dx: int, dy: int)
    requires
        on_circle(radius, dx, dy) || in_disc(radius, dx, dy),
    ensures
        spec_abs(dx) <= radius,
        spec_abs(dy) <= radius,
{
    let short = spec_min(spec_abs(dx), spec_abs(dy));
    let long = spec_max(spec_abs(dx), spec_abs(dy));
    if long > radius {
        assert(radius >= 0);
        lemma_square_order(2 * long - 1, 2 * radius);
        assert((2 * radius) * (2 * radius) == 4 * (radius * radius)) by (nonlinear_arith);
        assert(0 <= short * short) by (nonlinear_arith);
        assert(false);
    }
}

/// What is drawn at the first `columns + 1` columns of the walk is what is
/// drawn at the first `columns` and at column `columns`.
pub proof fn lemma_circle_reaches_next(
    radius: int,
    columns: int,
    filled: bool,
    dx: int,
    dy: int,
)
    requires
        0 <= columns,
    ensures
        circle_reaches(radius, columns + 1, filled, dx, dy) == (circle_reaches(
            radius,
            columns,
            filled,
            dx,
            dy,
        ) || circle_column_covers(radius, columns, filled, dx, dy)),
{
    if circle_reaches(radius, columns + 1, filled, dx, dy) {
        let found = choose|column: int|
            0 <= column < columns + 1 && #[trigger] circle_column_covers(
                radius,
                column,
                filled,
                dx,
                dy,
            );
        if found < columns {
            assert(circle_reaches(radius, columns, filled, dx, dy));
        }
    }
    if circle_reaches(radius, columns, filled, dx, dy) {
        let found = choose|column: int|
            0 <= column < columns && #[trigger] circle_column_covers(
                radius,
                column,
                filled,
                dx,
                dy,
            );
        assert(0 <= found < columns + 1 && circle_column_covers(radius, found, filled, dx, dy));
    }
    if circle_column_covers(radius, columns, filled, dx, dy) {
        assert(circle_reaches(radius, columns + 1, filled, dx, dy));
    }
}

/// Once the walk has passed the diagonal nothing more is drawn: what is
/// drawn at the first `columns` columns is all that the walk draws.
pub proof fn lemma_circle_complete(radius: int, columns: int, filled: bool, dx: int, dy: int)
    requires
        0 <= columns <= radius + 1,
        circle_rise(radius, columns) < columns,
    ensures
        circle_reaches(radius, columns, filled, dx, dy) == circle_reaches(
            radius,
            radius + 1,
            filled,
            dx,
            dy,
        ),
{
    if circle_reaches(radius, columns, filled, dx, dy) {
        let found = choose|column: int|
            0 <= column < columns && #[trigger] circle_column_covers(
                radius,
                column,
                filled,
                dx,
                dy,
            );
        assert(0 <= found < radius + 1 && circle_column_covers(radius, found, filled, dx, dy));
    }
    if circle_reaches(radius, radius + 1, filled, dx, dy) {
        let found = choose|column: int|
            0 <= column < radius + 1 && #[trigger] circle_column_covers(
                radius,
                column,
                filled,
                dx,
                dy,
            );
        if found >= columns {
            lemma_circle_rise_falls(radius, columns, found);
        }
        assert(circle_reaches(radius, columns, filled, dx, dy));
    }
}

} // verus!
