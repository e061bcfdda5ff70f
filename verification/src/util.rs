//! The precise collision test that follows a broad-phase query.

use vstd::prelude::*;
use crate::fixed::{sat64, spec_dist2, dist2, fp_add};

verus! {

/// Two circles overlap: the Euclidean distance between their centers is
/// strictly less than the sum of their radii.  Stated over squares, which
/// is exact in integers: for a positive radius sum `s`, `dist < s` holds
/// exactly when `dist^2 < s^2`.
pub open spec fn spec_circular_collision(
    p1x: i64,
    p1y: i64,
    radius1: i64,
    p2x: i64,
    p2y: i64,
    radius2: i64,
) -> bool {
    let s = sat64(radius1 + radius2);
    s > 0 && spec_dist2(sat64(p1x as int), sat64(p1y as int), sat64(p2x as int), sat64(p2y as int))
        < s * s
}

/// The precise circular-overlap test on two centers and radii, in
/// fixed-point coordinates.
pub fn test_circular_collision(p1x: i64, p1y: i64, radius1: i64, p2x: i64, p2y: i64, radius2: i64)
    -> (r: bool)
    ensures
        r == spec_circular_collision(p1x, p1y, radius1, p2x, p2y, radius2),
{
    let ssum = fp_add(radius1, radius2);
    if ssum <= 0 {
        return false;
    }
    let d2: u128 = dist2(p1x, p1y, p2x, p2y);
    let rs: u128 = ssum as u128;
    proof {
        assert(rs * rs <= u128::MAX) by (nonlinear_arith)
            requires
                0 <= rs <= u64::MAX,
        ;
    }
    d2 < rs * rs
}

} // verus!
