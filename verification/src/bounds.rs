//! Clamping, and the box of cells that a triangle can touch.

use vstd::prelude::*;
use vstd::std_specs::cmp::PartialOrdSpec;
use vstd::std_specs::cmp::PartialOrdIs;

verus! {

/// What `clamp` returns where the order of `T` is the specified one: `max`
/// for a value above `max`, else `min` for a value below `min`, else the
/// value itself.
pub open spec fn clamped<T: PartialOrd>(val: T, min: T, max: T) -> T {
    if val.is_gt(&max) {
        max
    } else if val.is_lt(&min) {
        min
    } else {
        val
    }
}

/// Bounds a value to the range from `min` to `max`.
pub fn clamp<T: PartialOrd>(val: T, min: T, max: T) -> (r: T)
    ensures
        r == val || r == min || r == max,
        T::obeys_partial_cmp_spec() ==> r == clamped(val, min, max),
{
    if val > max {
        return max;
    } else if val < min {
        return min;
    }
    return val;
}

/// The smallest of three integers.
pub open spec fn min3(x: int, y: int, z: int) -> int {
    if x <= y && x <= z {
        x
    } else if y <= z {
        y
    } else {
        z
    }
}

/// The largest of three integers.
pub open spec fn max3(x: int, y: int, z: int) -> int {
    if x >= y && x >= z {
        x
    } else if y >= z {
        y
    } else {
        z
    }
}

/// The cells of an axis with `extent` cells that lie between the smallest and
/// the largest of three coordinates, the ends pulled into the axis: the first
/// and the last of them. An axis without cells has none.
pub open spec fn span_of(x0: int, x1: int, x2: int, extent: int) -> Option<(int, int)> {
    if extent <= 0 {
        None
    } else {
        Some(
            (
                if min3(x0, x1, x2) > extent - 1 {
                    extent - 1
                } else {
                    min3(x0, x1, x2)
                },
                if max3(x0, x1, x2) > extent - 1 {
                    extent - 1
                } else {
                    max3(x0, x1, x2)
                },
            ),
        )
    }
}

/// Clips the range that three coordinates span to an axis of `extent` cells.
pub fn clipped_span(x0: usize, x1: usize, x2: usize, extent: usize) -> (span: Option<(usize, usize)>)
    ensures
        span is Some <==> extent > 0,
        span matches Some(s) ==> span_of(x0 as int, x1 as int, x2 as int, extent as int) == Some(
            (s.0 as int, s.1 as int),
        ) && s.0 <= s.1 < extent,
{
    if extent == 0 {
        return None;
    }
    let lo: usize = if x0 <= x1 && x0 <= x2 { x0 } else if x1 <= x2 { x1 } else { x2 };
    let hi: usize = if x0 >= x1 && x0 >= x2 { x0 } else if x1 >= x2 { x1 } else { x2 };
    Some((clamp(lo, 0, extent - 1), clamp(hi, 0, extent - 1)))
}

} // verus!
