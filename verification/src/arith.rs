//! Small integer functions that the contracts share.

use vstd::prelude::*;

verus! {

/// The larger of two integers.
pub open spec fn spec_max(a: int, b: int) -> int {
    if a >= b {
        a
    } else {
        b
    }
}

/// The smaller of two integers.
pub open spec fn spec_min(a: int, b: int) -> int {
    if a <= b {
        a
    } else {
        b
    }
}

/// The distance of an integer from zero.
pub open spec fn spec_abs(v: int) -> int {
    if v < 0 {
        -v
    } else {
        v
    }
}

/// A distance of `steps`, taken backwards where `flip` holds.
pub open spec fn directed(flip: bool, steps: int) -> int {
    if flip {
        -steps
    } else {
        steps
    }
}

} // verus!
