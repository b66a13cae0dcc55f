//! Planar geometry on integer coordinates: points, cross products, and
//! segment/segment and segment/box intersection tests.
//!
//! Coordinates are integers.  Stroke coordinates are whole design units and
//! stay within [`COORD_LIMIT`]; intermediate computations (such as the probe
//! points of the stroke analysis, which work in thousandths of a unit) stay
//! within [`CROSS_LIMIT`], the widest range on which the intersection tests
//! are free of overflow.

use vstd::prelude::*;

verus! {

/// Every coordinate a glyph description can carry, after parsing, lies in
/// `[-COORD_LIMIT, COORD_LIMIT]`.  Values outside are clamped when produced.
pub const COORD_LIMIT: i64 = 1_000_000;

/// The widest coordinate range accepted by the intersection tests.
pub const CROSS_LIMIT: i64 = 1_100_000_000;

/// A point of the design space.  `off_curve` marks a quadratic-Bezier control
/// point; `None` or `Some(false)` is an on-curve vertex.
#[derive(Clone, Copy, Debug, PartialEq, Eq)]
pub struct Point {
    pub x: i64,
    pub y: i64,
    pub off_curve: Option<bool>,
}

impl Point {
    pub fn new(x: i64, y: i64, off_curve: Option<bool>) -> (r: Point)
        ensures
            r == (Point { x, y, off_curve }),
    {
        Point { x, y, off_curve }
    }

    /// Both coordinates lie in the parsed-coordinate range.
    pub open spec fn in_range(self) -> bool {
        -COORD_LIMIT <= self.x <= COORD_LIMIT && -COORD_LIMIT <= self.y <= COORD_LIMIT
    }

    /// Both coordinates lie in the range the intersection tests accept.
    pub open spec fn in_cross_range(self) -> bool {
        -CROSS_LIMIT <= self.x <= CROSS_LIMIT && -CROSS_LIMIT <= self.y <= CROSS_LIMIT
    }
}

/// The z-component of the cross product of the vectors `a` and `b`.
pub open spec fn spec_cross(ax: int, ay: int, bx: int, by: int) -> int {
    ax * by - ay * bx
}

/// Whether the closed segment `a1 a2` crosses the closed segment `b1 b2`.
///
/// Parallel segments (including collinear overlapping ones) do not count as
/// crossing.  Otherwise the segments cross exactly when each straddles the
/// line through the other.
pub open spec fn spec_is_cross(a1: Point, a2: Point, b1: Point, b2: Point) -> bool {
    let d = spec_cross(
        a2.x - a1.x,
        a2.y - a1.y,
        b2.x - b1.x,
        b2.y - b1.y,
    );
    if d == 0 {
        false
    } else {
        let c1 = spec_cross(a2.x - a1.x, a2.y - a1.y, b1.x - a1.x, b1.y - a1.y);
        let c2 = spec_cross(a2.x - a1.x, a2.y - a1.y, b2.x - a1.x, b2.y - a1.y);
        let c3 = spec_cross(b2.x - b1.x, b2.y - b1.y, a1.x - b1.x, a1.y - b1.y);
        let c4 = spec_cross(b2.x - b1.x, b2.y - b1.y, a2.x - b1.x, a2.y - b1.y);
        c1 * c2 <= 0 && c3 * c4 <= 0
    }
}

/// Whether the segment crosses one of the four edges of the axis-aligned box
/// with diagonal corners `d1` and `d2`.
pub open spec fn spec_is_cross_box(a1: Point, a2: Point, d1: Point, d2: Point) -> bool {
    let top_right = Point { x: d2.x, y: d1.y, off_curve: None };
    let bottom_left = Point { x: d1.x, y: d2.y, off_curve: None };
    ||| spec_is_cross(a1, a2, d1, top_right)
    ||| spec_is_cross(a1, a2, top_right, d2)
    ||| spec_is_cross(a1, a2, bottom_left, d2)
    ||| spec_is_cross(a1, a2, d1, bottom_left)
}

/// The cross product of two difference vectors, exactly.
fn cross_diff(ax: i64, ay: i64, bx: i64, by: i64) -> (r: i128)
    requires
        -2 * CROSS_LIMIT <= ax <= 2 * CROSS_LIMIT,
        -2 * CROSS_LIMIT <= ay <= 2 * CROSS_LIMIT,
        -2 * CROSS_LIMIT <= bx <= 2 * CROSS_LIMIT,
        -2 * CROSS_LIMIT <= by <= 2 * CROSS_LIMIT,
    ensures
        r == spec_cross(ax as int, ay as int, bx as int, by as int),
        -10_000_000_000_000_000_000 <= r <= 10_000_000_000_000_000_000,
{
    proof {
        assert((ax as i128) * (by as i128) <= 4_840_000_000_000_000_000 && (ax as i128) * (by
            as i128) >= -4_840_000_000_000_000_000) by (nonlinear_arith)
            requires
                -2_200_000_000 <= ax <= 2_200_000_000,
                -2_200_000_000 <= by <= 2_200_000_000,
        ;
        assert((ay as i128) * (bx as i128) <= 4_840_000_000_000_000_000 && (ay as i128) * (bx
            as i128) >= -4_840_000_000_000_000_000) by (nonlinear_arith)
            requires
                -2_200_000_000 <= ay <= 2_200_000_000,
                -2_200_000_000 <= bx <= 2_200_000_000,
        ;
    }
    (ax as i128) * (by as i128) - (ay as i128) * (bx as i128)
}

/// The product of two cross products does not overflow `i128` and keeps the
/// sign of the mathematical product.
fn cross_product_sign(c1: i128, c2: i128) -> (r: bool)
    requires
        -10_000_000_000_000_000_000 <= c1 <= 10_000_000_000_000_000_000,
        -10_000_000_000_000_000_000 <= c2 <= 10_000_000_000_000_000_000,
    ensures
        r == (c1 * c2 <= 0),
{
    proof {
        assert(c1 * c2 <= 100_000_000_000_000_000_000_000_000_000_000_000_000 && c1 * c2
            >= -100_000_000_000_000_000_000_000_000_000_000_000_000) by (nonlinear_arith)
            requires
                -10_000_000_000_000_000_000 <= c1 <= 10_000_000_000_000_000_000,
                -10_000_000_000_000_000_000 <= c2 <= 10_000_000_000_000_000_000,
        ;
    }
    c1 * c2 <= 0
}

/// Whether the closed segment `a1 a2` crosses the closed segment `b1 b2`.
pub fn is_cross(a1: Point, a2: Point, b1: Point, b2: Point) -> (r: bool)
    requires
        a1.in_cross_range(),
        a2.in_cross_range(),
        b1.in_cross_range(),
        b2.in_cross_range(),
    ensures
        r == spec_is_cross(a1, a2, b1, b2),
{
    let d = cross_diff(a2.x - a1.x, a2.y - a1.y, b2.x - b1.x, b2.y - b1.y);
    if d == 0 {
        return false;
    }
    let c1 = cross_diff(a2.x - a1.x, a2.y - a1.y, b1.x - a1.x, b1.y - a1.y);
    let c2 = cross_diff(a2.x - a1.x, a2.y - a1.y, b2.x - a1.x, b2.y - a1.y);
    let c3 = cross_diff(b2.x - b1.x, b2.y - b1.y, a1.x - b1.x, a1.y - b1.y);
    let c4 = cross_diff(b2.x - b1.x, b2.y - b1.y, a2.x - b1.x, a2.y - b1.y);
    cross_product_sign(c1, c2) && cross_product_sign(c3, c4)
}

/// Whether the segment crosses one of the four edges of the axis-aligned box
/// with diagonal corners `d1` and `d2`.
pub fn is_cross_box(a1: Point, a2: Point, d1: Point, d2: Point) -> (r: bool)
    requires
        a1.in_cross_range(),
        a2.in_cross_range(),
        d1.in_cross_range(),
        d2.in_cross_range(),
    ensures
        r == spec_is_cross_box(a1, a2, d1, d2),
{
    let top_right = Point { x: d2.x, y: d1.y, off_curve: None };
    let bottom_left = Point { x: d1.x, y: d2.y, off_curve: None };
    if is_cross(a1, a2, d1, top_right) {
        true
    } else if is_cross(a1, a2, top_right, d2) {
        true
    } else if is_cross(a1, a2, bottom_left, d2) {
        true
    } else {
        is_cross(a1, a2, d1, bottom_left)
    }
}

/// Segment intersection is symmetric: swapping the two segments, or swapping
/// the endpoints of the first, does not change the answer.
pub proof fn lemma_is_cross_symmetric(a1: Point, a2: Point, b1: Point, b2: Point)
    ensures
        spec_is_cross(a1, a2, b1, b2) == spec_is_cross(b1, b2, a1, a2),
        spec_is_cross(a1, a2, b1, b2) == spec_is_cross(a2, a1, b1, b2),
{
    let ax = a2.x - a1.x;
    let ay = a2.y - a1.y;
    let bx = b2.x - b1.x;
    let by = b2.y - b1.y;
    assert(spec_cross(bx, by, ax, ay) == -spec_cross(ax, ay, bx, by)) by (nonlinear_arith);
    assert(spec_cross(-ax, -ay, bx, by) == -spec_cross(ax, ay, bx, by)) by (nonlinear_arith);
    if spec_cross(ax, ay, bx, by) != 0 {
        lemma_is_cross_swap_segments(a1, a2, b1, b2);
        lemma_is_cross_swap_endpoints(a1, a2, b1, b2);
    }
}

/// The straddling test is invariant under exchanging the two segments.
proof fn lemma_is_cross_swap_segments(a1: Point, a2: Point, b1: Point, b2: Point)
    requires
        spec_cross(a2.x - a1.x, a2.y - a1.y, b2.x - b1.x, b2.y - b1.y) != 0,
    ensures
        spec_is_cross(a1, a2, b1, b2) == spec_is_cross(b1, b2, a1, a2),
{
    assert(spec_is_cross(a1, a2, b1, b2) == spec_is_cross(b1, b2, a1, a2)) by (nonlinear_arith)
        requires
            spec_cross(a2.x - a1.x, a2.y - a1.y, b2.x - b1.x, b2.y - b1.y) != 0,
    ;
}

/// The straddling test is invariant under reversing the first segment.
proof fn lemma_is_cross_swap_endpoints(a1: Point, a2: Point, b1: Point, b2: Point)
    requires
        spec_cross(a2.x - a1.x, a2.y - a1.y, b2.x - b1.x, b2.y - b1.y) != 0,
    ensures
        spec_is_cross(a1, a2, b1, b2) == spec_is_cross(a2, a1, b1, b2),
{
    let ax = a2.x - a1.x;
    let ay = a2.y - a1.y;
    let bx = b2.x - b1.x;
    let by = b2.y - b1.y;
    let c1 = spec_cross(ax, ay, b1.x - a1.x, b1.y - a1.y);
    let c2 = spec_cross(ax, ay, b2.x - a1.x, b2.y - a1.y);
    let c3 = spec_cross(bx, by, a1.x - b1.x, a1.y - b1.y);
    let c4 = spec_cross(bx, by, a2.x - b1.x, a2.y - b1.y);
    // Reversing the first segment negates its direction vector, so the
    // straddling cross products against it only change sign, while those of
    // the first segment's endpoints against the second exchange roles.
    assert(spec_cross(a1.x - a2.x, a1.y - a2.y, bx, by) == -spec_cross(ax, ay, bx, by))
        by (nonlinear_arith)
        requires
            ax == a2.x - a1.x,
            ay == a2.y - a1.y,
    ;
    assert((a1.x - a2.x) * (b1.y - a2.y) - (a1.y - a2.y) * (b1.x - a2.x) == -((a2.x - a1.x) * (
    b1.y - a1.y) - (a2.y - a1.y) * (b1.x - a1.x))) by (nonlinear_arith);
    assert((a1.x - a2.x) * (b2.y - a2.y) - (a1.y - a2.y) * (b2.x - a2.x) == -((a2.x - a1.x) * (
    b2.y - a1.y) - (a2.y - a1.y) * (b2.x - a1.x))) by (nonlinear_arith);
    assert(spec_cross(a1.x - a2.x, a1.y - a2.y, b1.x - a2.x, b1.y - a2.y) == -c1);
    assert(spec_cross(a1.x - a2.x, a1.y - a2.y, b2.x - a2.x, b2.y - a2.y) == -c2);
    assert((-c1) * (-c2) == c1 * c2) by (nonlinear_arith);
    assert(c4 * c3 <= 0 <==> c3 * c4 <= 0) by (nonlinear_arith);
}

} // verus!
