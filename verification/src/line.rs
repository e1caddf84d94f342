//! Lines on the pixel grid: which pixels make up the line between two
//! points, and how the walk that draws them step by step reaches exactly
//! these.

use vstd::prelude::*;
use crate::arith::{directed, spec_abs, spec_max, spec_min};

verus! {

/// The pixel of the line from `(x1, y1)` to `(x2, y2)` at step `step`, where
/// step zero is the first end. The line advances one pixel per step along the
/// axis on which its ends lie further apart, the long axis. Along the short
/// axis it has by then moved `step` times the short distance, and half the
/// short distance more, divided by the long distance and rounded down.
pub open spec fn line_point(x1: int, y1: int, x2: int, y2: int, step: int) -> (int, int) {
    let run = spec_abs(x2 - x1);
    let rise = spec_abs(y2 - y1);
    if run >= rise {
        let lift = if run == 0 {
            0
        } else {
            (rise / 2 + step * rise) / run
        };
        (x1 + directed(x2 < x1, step), y1 + directed(y2 < y1, lift))
    } else {
        let shift = (run / 2 + step * run) / rise;
        (x1 + directed(x2 < x1, shift), y1 + directed(y2 < y1, step))
    }
}

/// The number of steps from the first pixel of a line to its last.
pub open spec fn line_steps(x1: int, y1: int, x2: int, y2: int) -> int {
    spec_max(spec_abs(x2 - x1), spec_abs(y2 - y1))
}

/// One of the first `steps` pixels of the line is `(x, y)`.
pub open spec fn line_reaches(x1: int, y1: int, x2: int, y2: int, steps: int, x: int, y: int)
    -> bool {
    exists|step: int| 0 <= step < steps && #[trigger] line_point(x1, y1, x2, y2, step) == (x, y)
}

/// The pixel `(x, y)` belongs to the line from `(x1, y1)` to `(x2, y2)`: it
/// is the line's pixel at the step that its distance from the first end
/// along the long axis gives.
pub open spec fn on_line(x1: int, y1: int, x2: int, y2: int, x: int, y: int) -> bool {
    let step = if spec_abs(x2 - x1) >= spec_abs(y2 - y1) {
        spec_abs(x - x1)
    } else {
        spec_abs(y - y1)
    };
    step <= line_steps(x1, y1, x2, y2) && line_point(x1, y1, x2, y2, step) == (x, y)
}

/// A line starts at its first end and, after `line_steps` steps, stands at its
/// second end.
pub proof fn lemma_line_ends(x1: int, y1: int, x2: int, y2: int)
    ensures
        line_point(x1, y1, x2, y2, 0) == (x1, y1),
        line_point(x1, y1, x2, y2, line_steps(x1, y1, x2, y2)) == (x2, y2),
{
    let run = spec_abs(x2 - x1);
    let rise = spec_abs(y2 - y1);
    if run >= rise {
        if run > 0 {
            assert(0 * rise == 0);
            assert(rise * run == run * rise) by (nonlinear_arith);
            vstd::arithmetic::div_mod::lemma_fundamental_div_mod_converse(
                rise / 2 + 0 * rise,
                run,
                0,
                rise / 2,
            );
            vstd::arithmetic::div_mod::lemma_fundamental_div_mod_converse(
                rise / 2 + run * rise,
                run,
                rise,
                rise / 2,
            );
        }
    } else {
        assert(0 * run == 0);
        assert(run * rise == rise * run) by (nonlinear_arith);
        vstd::arithmetic::div_mod::lemma_fundamental_div_mod_converse(
            run / 2 + 0 * run,
            rise,
            0,
            run / 2,
        );
        vstd::arithmetic::div_mod::lemma_fundamental_div_mod_converse(
            run / 2 + rise * run,
            rise,
            run,
            run / 2,
        );
    }
}

/// The first `steps + 1` pixels of a line are its first `steps` pixels and
/// the pixel at step `steps`.
pub proof fn lemma_line_reaches_next(
    x1: int,
    y1: int,
    x2: int,
    y2: int,
    steps: int,
    x: int,
    y: int,
)
    requires
        0 <= steps,
    ensures
        line_reaches(x1, y1, x2, y2, steps + 1, x, y) == (line_reaches(x1, y1, x2, y2, steps, x, y)
            || line_point(x1, y1, x2, y2, steps) == (x, y)),
{
    if line_reaches(x1, y1, x2, y2, steps + 1, x, y) {
        let found = choose|step: int|
            0 <= step < steps + 1 && #[trigger] line_point(x1, y1, x2, y2, step) == (x, y);
        if found < steps {
            assert(line_reaches(x1, y1, x2, y2, steps, x, y));
        }
    }
    if line_reaches(x1, y1, x2, y2, steps, x, y) {
        let found = choose|step: int|
            0 <= step < steps && #[trigger] line_point(x1, y1, x2, y2, step) == (x, y);
        assert(0 <= found < steps + 1 && line_point(x1, y1, x2, y2, found) == (x, y));
    }
    if line_point(x1, y1, x2, y2, steps) == (x, y) {
        assert(line_reaches(x1, y1, x2, y2, steps + 1, x, y));
    }
}

/// No pixel of a line is reached twice: the pixel at step `step` is none of
/// the pixels before it.
pub proof fn lemma_line_point_fresh(x1: int, y1: int, x2: int, y2: int, step: int)
    requires
        0 <= step,
    ensures
        !line_reaches(
            x1,
            y1,
            x2,
            y2,
            step,
            line_point(x1, y1, x2, y2, step).0,
            line_point(x1, y1, x2, y2, step).1,
        ),
{
    let here = line_point(x1, y1, x2, y2, step);
    if line_reaches(x1, y1, x2, y2, step, here.0, here.1) {
        let earlier = choose|earlier: int|
            0 <= earlier < step && #[trigger] line_point(x1, y1, x2, y2, earlier) == (
                here.0,
                here.1,
            );
        assert(false);
    }
}

/// The walk along a line draws the line: a pixel is reached at one of the
/// walk's steps just when it belongs to the line.
pub proof fn lemma_walk_draws_line(x1: int, y1: int, x2: int, y2: int, x: int, y: int)
    ensures
        line_reaches(x1, y1, x2, y2, line_steps(x1, y1, x2, y2) + 1, x, y) == on_line(
            x1,
            y1,
            x2,
            y2,
            x,
            y,
        ),
{
    let steps = line_steps(x1, y1, x2, y2);
    if line_reaches(x1, y1, x2, y2, steps + 1, x, y) {
        let step = choose|step: int|
            0 <= step < steps + 1 && #[trigger] line_point(x1, y1, x2, y2, step) == (x, y);
        assert(on_line(x1, y1, x2, y2, x, y));
    }
    if on_line(x1, y1, x2, y2, x, y) {
        let step = if spec_abs(x2 - x1) >= spec_abs(y2 - y1) {
            spec_abs(x - x1)
        } else {
            spec_abs(y - y1)
        };
        assert(0 <= step < steps + 1 && line_point(x1, y1, x2, y2, step) == (x, y));
    }
}

/// Every pixel of a line lies between the line's ends, on both axes.
pub proof fn lemma_line_within_ends(x1: int, y1: int, x2: int, y2: int, x: int, y: int)
    requires
        on_line(x1, y1, x2, y2, x, y),
    ensures
        spec_min(x1, x2) <= x <= spec_max(x1, x2),
        spec_min(y1, y2) <= y <= spec_max(y1, y2),
{
    let run = spec_abs(x2 - x1);
    let rise = spec_abs(y2 - y1);
    if run >= rise {
        if run > 0 {
            lemma_proportion_in_range(rise, run, spec_abs(x - x1));
        }
    } else {
        lemma_proportion_in_range(run, rise, spec_abs(y - y1));
    }
}

/// How far a line has moved along its short axis after `step` of its `long`
/// steps lies between nothing and the short distance.
proof fn lemma_proportion_in_range(short: int, long: int, step: int)
    requires
        0 <= short <= long,
        0 < long,
        0 <= step <= long,
    ensures
        0 <= (short / 2 + step * short) / long <= short,
{
    let total = short / 2 + step * short;
    let moved = total / long;
    vstd::arithmetic::div_mod::lemma_fundamental_div_mod(total, long);
    assert(0 <= step * short <= long * short) by (nonlinear_arith)
        requires
            0 <= step <= long,
            0 <= short,
    ;
    assert(moved >= 0) by (nonlinear_arith)
        requires
            total == long * moved + total % long,
            0 <= total % long < long,
            0 <= total,
    ;
    assert(moved <= short) by (nonlinear_arith)
        requires
            total == long * moved + total % long,
            0 <= total % long < long,
            total <= short / 2 + long * short,
            short / 2 < long,
            0 < long,
    ;
}

} // verus!
