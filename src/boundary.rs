//! The toroidal arena: wrapping positions back inside after a move, and the
//! shortest displacement between two points across the wrap.
use vstd::prelude::*;
use crate::fixed::MAX_EXTENT;

verus! {

/// One wrap correction on an axis of extent `w`: below zero moves up by one
/// extent, at or beyond the extent moves down by one.
pub open spec fn wrap_spec(p: int, w: int) -> int {
    if p < 0 {
        p + w
    } else if p >= w {
        p - w
    } else {
        p
    }
}

/// The nearest periodic image of a displacement `d` on an axis of extent `w`.
pub open spec fn min_image_spec(d: int, w: int) -> int {
    if 2 * d > w {
        d - w
    } else if 2 * d < -w {
        d + w
    } else {
        d
    }
}

pub open spec fn in_extent(p: int, w: int) -> bool {
    0 <= p < w
}

/// Wraps coordinate `p` on an axis of extent `w`. A coordinate less than one
/// extent outside the arena lands inside it.
pub fn wrap_axis(p: i64, w: i64) -> (r: i64)
    requires
        0 < w <= MAX_EXTENT,
        -w <= p < 2 * w,
    ensures
        r == wrap_spec(p as int, w as int),
        in_extent(r as int, w as int),
{
    if p < 0 {
        p + w
    } else if p >= w {
        p - w
    } else {
        p
    }
}

/// Wrapping twice is wrapping once: a coordinate inside the arena is left
/// where it is.
pub proof fn lemma_wrap_idempotent(p: int, w: int)
    requires
        w > 0,
        -w <= p < 2 * w,
    ensures
        in_extent(wrap_spec(p, w), w),
        wrap_spec(wrap_spec(p, w), w) == wrap_spec(p, w),
        in_extent(p, w) ==> wrap_spec(p, w) == p,
{
}

/// The wrap sends the far edge to zero and a point just below zero to just
/// below the far edge.
pub proof fn lemma_wrap_edges(w: int, eps: int)
    requires
        0 < eps <= w,
    ensures
        wrap_spec(w, w) == 0,
        wrap_spec(-eps, w) == w - eps,
{
}

/// The displacement from coordinate `a` to coordinate `b` through the
/// nearest periodic image.
pub fn min_image(a: i64, b: i64, w: i64) -> (d: i64)
    requires
        0 < w <= MAX_EXTENT,
        in_extent(a as int, w as int),
        in_extent(b as int, w as int),
    ensures
        d == min_image_spec(b - a, w as int),
        2 * d <= w,
        2 * d >= -w,
{
    let d = b - a;
    if 2 * d > w {
        d - w
    } else if 2 * d < -w {
        d + w
    } else {
        d
    }
}

} // verus!
