use vstd::prelude::*;
use crate::components::{Dimensions, Point};

verus! {

pub open spec fn clamp_i64(v: int) -> i64 {
    if v > i64::MAX { i64::MAX } else if v < i64::MIN { i64::MIN } else { v as i64 }
}

/// Sum of two coordinates, clamped to the range of `i64`.
pub fn sat_add(a: i64, b: i64) -> (r: i64)
    ensures
        r == clamp_i64(a + b),
{
    if b > 0 && a > i64::MAX - b {
        i64::MAX
    } else if b < 0 && a < i64::MIN - b {
        i64::MIN
    } else {
        a + b
    }
}

/// Distance from the centre at which a body of size `dim` has fully left a
/// viewport of size `extent` on one axis: half of `extent + dim`, rounded down.
pub open spec fn wrap_edge(extent: u32, dim: u32) -> int {
    (extent + dim) / 2
}

/// One axis of the screen wrap, in centred coordinates.
pub open spec fn wrap_axis_spec(pos: i64, extent: u32, dim: u32) -> i64 {
    let edge = wrap_edge(extent, dim);
    if 2 * pos > extent + dim {
        (-edge) as i64
    } else if 2 * pos < -(extent + dim) {
        edge as i64
    } else {
        pos
    }
}

/// Wraps one coordinate: a body whose far edge has crossed the viewport's
/// border (`pos > (extent + dim) / 2`, or the same on the negative side) is
/// moved to the opposite border, just outside the view. The target is
/// rounded toward the centre when `extent + dim` is odd.
pub fn wrap_axis(pos: i64, extent: u32, dim: u32) -> (r: i64)
    ensures
        r == wrap_axis_spec(pos, extent, dim),
{
    let sum: i64 = extent as i64 + dim as i64;
    let edge: i64 = sum / 2;
    if pos > edge {
        proof {
            assert(2 * pos > sum) by (nonlinear_arith)
                requires pos > edge, edge == sum / 2, sum >= 0;
        }
        -edge
    } else if pos < -edge {
        proof {
            assert(2 * pos < -sum) by (nonlinear_arith)
                requires pos < -edge, edge == sum / 2, sum >= 0;
        }
        edge
    } else {
        proof {
            assert(-sum <= 2 * pos <= sum) by (nonlinear_arith)
                requires -edge <= pos <= edge, edge == sum / 2, sum >= 0;
        }
        pos
    }
}

pub open spec fn wrap_position_spec(p: Point, viewport: Dimensions, dims: Dimensions) -> Point {
    Point {
        x: wrap_axis_spec(p.x, viewport.width, dims.width),
        y: wrap_axis_spec(p.y, viewport.height, dims.height),
    }
}

/// Wraps a position in centred coordinates, each axis on its own.
pub fn wrap_position(p: Point, viewport: Dimensions, dims: Dimensions) -> (r: Point)
    ensures
        r == wrap_position_spec(p, viewport, dims),
{
    Point {
        x: wrap_axis(p.x, viewport.width, dims.width),
        y: wrap_axis(p.y, viewport.height, dims.height),
    }
}

/// A position is left alone by the wrap exactly when it lies within the
/// borders; a position past a border goes to the far side, and wrapping that
/// again leaves it where it is.
pub proof fn lemma_wrap_settles(pos: i64, extent: u32, dim: u32)
    ensures
        (wrap_axis_spec(pos, extent, dim) == pos) <==> (-(extent + dim) <= 2 * pos <= extent + dim),
        wrap_axis_spec(wrap_axis_spec(pos, extent, dim), extent, dim) == wrap_axis_spec(pos, extent, dim),
{
}

pub open spec fn laser_out_of_bounds_spec(p: Point, dims: Dimensions, viewport: Dimensions) -> bool {
    p.x < -(dims.width as int) || p.x > viewport.width + dims.width
        || p.y < -(dims.height as int) || p.y > viewport.height + dims.height
}

/// Whether a projectile has left the play area, whose corner is the origin:
/// it is outside `[-width, viewport width + width]` on x or outside
/// `[-height, viewport height + height]` on y, with its own size as margin.
pub fn laser_out_of_bounds(p: Point, dims: Dimensions, viewport: Dimensions) -> (r: bool)
    ensures
        r == laser_out_of_bounds_spec(p, dims, viewport),
{
    p.x < -(dims.width as i64) || p.x > viewport.width as i64 + dims.width as i64
        || p.y < -(dims.height as i64) || p.y > viewport.height as i64 + dims.height as i64
}

} // verus!
