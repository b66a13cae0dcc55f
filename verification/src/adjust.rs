//! The Ming stroke analysis: a global pass over all strokes of one glyph
//! that computes per-stroke decoration parameters from the geometry of the
//! other strokes.
//!
//! Every parameter is a pure function of the stroke list: the analysis reads
//! the strokes and the results of earlier passes, and never mutates the
//! strokes themselves.

use crate::geom::{is_cross, spec_is_cross, spec_is_cross_box, Point};
use crate::line::stroke_line::{spec_floor_div, StrokeLineType};
use vstd::arithmetic::div_mod::lemma_fundamental_div_mod;
use vstd::prelude::*;

verus! {

/// Half of the width of a Ming vertical stroke; the unit of the proximity
/// thresholds.
pub const MIN_WIDTH_VERTICAL: i64 = 6;

/// The number of curve-thinning levels.
pub const CURVE_STEP: i64 = 5;

/// The number of vertical-thinning levels.
pub const VERTICAL_STEP: i64 = 4;

/// The number of foot-shortening levels.
pub const FOOT_STEP: usize = 3;

/// The width of the collision box probed below a foot.
pub const FOOT_RANGE_X: i64 = 20;

/// The number of triangle-shrinking levels by length and collision.
pub const TRIANGLE_STEP: usize = 3;

/// The reach of the density pressure on a triangle ornament.
pub const TRIANGLE2_LENGTH: i64 = 40;

/// The number of triangle-shrinking levels by stroke density.
pub const TRIANGLE2_STEP: i64 = 3;

/// The per-stroke decoration parameters computed by the analysis.
#[derive(Clone, Copy, Debug, PartialEq, Eq)]
pub struct AdjustedStroke {
    /// The beveled-entry correction of a left-falling stroke.
    pub slash_adjustment: i64,
    /// The thinning of a vertical stroke crowded by others.
    pub vertical_adjustment: i64,
    /// The enlargement of the flick at a crowded tail.
    pub flick_adjustment: i64,
    /// The shrinking level of the triangle ornament at an open tail.
    pub triangle_adjustment: usize,
    /// The shortening level of the foot at a cornered tail.
    pub foot_adjustment: usize,
    /// The thinning of the latter half of a bend.
    pub curve_adjustment: i64,
}

/// The parameters a stroke starts from: the option digits of its own head
/// and tail shapes.
pub open spec fn spec_init_adjustment(s: StrokeLineType) -> AdjustedStroke {
    AdjustedStroke {
        slash_adjustment: s.head_shape.opt_1 as i64,
        vertical_adjustment: (s.head_shape.opt_2 + s.head_shape.opt_3 * 10) as i64,
        flick_adjustment: s.tail_shape.opt_1 as i64,
        triangle_adjustment: s.tail_shape.opt as usize,
        foot_adjustment: s.tail_shape.opt as usize,
        curve_adjustment: s.tail_shape.opt_2 as i64,
    }
}

/// Whether a stroke contributes a vertical segment to the flick pass: a
/// plain straight stroke with equal x endpoints.
pub open spec fn spec_is_vertical_1(s: StrokeLineType) -> bool {
    s.stroke_type.base == 1 && s.stroke_type.opt == 0 && s.point_1.x == s.point_2.x
}

/// Whether the flick pass adjusts this stroke: a straight, curving or cubic
/// stroke whose tail is a plain leftward flick.
pub open spec fn spec_flick_shape(s: StrokeLineType) -> bool {
    (s.stroke_type.base == 1 || s.stroke_type.base == 2 || s.stroke_type.base == 6)
        && s.stroke_type.opt == 0 && s.tail_shape.base == 4 && s.tail_shape.opt == 0
}

/// The last control point of a stroke, by its base.
pub open spec fn spec_last_point(s: StrokeLineType) -> Point {
    if s.stroke_type.base == 1 {
        s.point_2
    } else if s.stroke_type.base == 2 {
        s.point_3
    } else {
        s.point_4
    }
}

/// The smaller of an optional bound and a new candidate.
pub open spec fn spec_opt_min(r: Option<int>, v: int) -> Option<int> {
    match r {
        Some(w) => if v < w {
            Some(v)
        } else {
            Some(w)
        },
        None => Some(v),
    }
}

/// The nearest obstruction to the left of the flick at the tail of stroke
/// `i`, among the left wall and the vertical strokes before index `j`.
pub open spec fn spec_flick_nearest(strokes: Seq<StrokeLineType>, i: int, j: int) -> Option<int>
    decreases j,
{
    let lp = spec_last_point(strokes[i]);
    if j <= 0 {
        if lp.x + 18 < 100 {
            Some(lp.x + 18)
        } else {
            None
        }
    } else {
        let r = spec_flick_nearest(strokes, i, j - 1);
        let o = strokes[j - 1];
        if j - 1 != i && spec_is_vertical_1(o) && lp.x - o.point_1.x < 100 && o.point_1.x < lp.x
            && o.point_1.y <= lp.y && o.point_2.y >= lp.y {
            spec_opt_min(r, lp.x - o.point_1.x)
        } else {
            r
        }
    }
}

/// The flick adjustment of stroke `i`.
pub open spec fn spec_flick_adj(strokes: Seq<StrokeLineType>, i: int) -> i64 {
    let init = strokes[i].tail_shape.opt_1 as i64;
    if spec_flick_shape(strokes[i]) {
        match spec_flick_nearest(strokes, i, strokes.len() as int) {
            Some(nv) => (init + 7 - spec_floor_div(nv, 15)) as i64,
            None => init,
        }
    } else {
        init
    }
}

/// A horizontal segment of the curve and density passes.
#[derive(Clone, Copy, Debug, PartialEq, Eq)]
pub struct HSeg {
    pub idx: usize,
    pub is_target: bool,
    pub y: i64,
    pub x1: i64,
    pub x2: i64,
}

/// The horizontal-segment entry a stroke contributes: a horizontal straight
/// stroke, or the horizontal second part of a bend (the target kind).
pub open spec fn spec_hseg_of(s: StrokeLineType, idx: int) -> Seq<HSeg> {
    if s.stroke_type.base == 1 && s.stroke_type.opt == 0 && s.point_1.y == s.point_2.y {
        seq![
            HSeg {
                idx: idx as usize,
                is_target: false,
                y: s.point_2.y,
                x1: s.point_1.x,
                x2: s.point_2.x,
            },
        ]
    } else if s.stroke_type.base == 3 && s.stroke_type.opt == 0 && s.point_2.y == s.point_3.y {
        seq![
            HSeg {
                idx: idx as usize,
                is_target: true,
                y: s.point_2.y,
                x1: s.point_2.x,
                x2: s.point_3.x,
            },
        ]
    } else {
        Seq::empty()
    }
}

/// The horizontal segments of all strokes, in order.
pub open spec fn spec_hsegs(strokes: Seq<StrokeLineType>) -> Seq<HSeg>
    decreases strokes.len(),
{
    if strokes.len() == 0 {
        Seq::empty()
    } else {
        spec_hsegs(strokes.drop_last()) + spec_hseg_of(strokes.last(), strokes.len() - 1)
    }
}

/// One step of the curve-thinning accumulation: another horizontal segment
/// that overlaps in x and runs close in y adds a thinning term, capped at
/// the number of levels.
pub open spec fn spec_curve_step(v: i64, t: HSeg, o: HSeg) -> i64 {
    if o.idx != t.idx && !(t.x1 + 1 > o.x2 || t.x2 - 1 < o.x1) && spec_abs(t.y - o.y)
        < MIN_WIDTH_VERTICAL * CURVE_STEP {
        let w = v + CURVE_STEP - spec_floor_div(spec_abs(t.y - o.y), MIN_WIDTH_VERTICAL as int);
        if w > CURVE_STEP {
            CURVE_STEP as i64
        } else {
            w as i64
        }
    } else {
        v
    }
}

pub open spec fn spec_abs(v: int) -> int {
    if v < 0 {
        -v
    } else {
        v
    }
}

/// The curve-thinning accumulation over the first `j` horizontal segments.
pub open spec fn spec_curve_fold(hsegs: Seq<HSeg>, t: HSeg, init: i64, j: int) -> i64
    decreases j,
{
    if j <= 0 {
        init
    } else {
        spec_curve_step(spec_curve_fold(hsegs, t, init, j - 1), t, hsegs[j - 1])
    }
}

/// The target entry of a bend stroke in the curve pass.
pub open spec fn spec_curve_target(s: StrokeLineType, idx: int) -> HSeg {
    HSeg { idx: idx as usize, is_target: true, y: s.point_2.y, x1: s.point_2.x, x2: s.point_3.x }
}

/// The curve adjustment of stroke `i`.
pub open spec fn spec_curve_adj(strokes: Seq<StrokeLineType>, i: int) -> i64 {
    let s = strokes[i];
    let init = s.tail_shape.opt_2 as i64;
    if s.stroke_type.base == 3 && s.stroke_type.opt == 0 && s.point_2.y == s.point_3.y {
        let hsegs = spec_hsegs(strokes);
        spec_curve_fold(hsegs, spec_curve_target(s, i), init, hsegs.len() as int)
    } else {
        init
    }
}

/// Whether a stroke contributes a vertical segment to the vertical pass: a
/// straight stroke, bend or vertical slash with equal x endpoints.
pub open spec fn spec_is_vertical_137(s: StrokeLineType) -> bool {
    (s.stroke_type.base == 1 || s.stroke_type.base == 3 || s.stroke_type.base == 7)
        && s.stroke_type.opt == 0 && s.point_1.x == s.point_2.x
}

/// A vertical segment of the vertical pass.
#[derive(Clone, Copy, Debug, PartialEq, Eq)]
pub struct VSeg {
    pub idx: usize,
    pub x: i64,
    pub y1: i64,
    pub y2: i64,
}

pub open spec fn spec_vseg_of(s: StrokeLineType, idx: int) -> Seq<VSeg> {
    if spec_is_vertical_137(s) {
        seq![VSeg { idx: idx as usize, x: s.point_1.x, y1: s.point_1.y, y2: s.point_2.y }]
    } else {
        Seq::empty()
    }
}

pub open spec fn spec_vsegs(strokes: Seq<StrokeLineType>) -> Seq<VSeg>
    decreases strokes.len(),
{
    if strokes.len() == 0 {
        Seq::empty()
    } else {
        spec_vsegs(strokes.drop_last()) + spec_vseg_of(strokes.last(), strokes.len() - 1)
    }
}

/// One step of the vertical-thinning accumulation: another vertical segment
/// that overlaps in y and runs close in x adds a thinning term.  The value
/// is capped at the number of levels; it is also pinned there when it just
/// reaches the cap on a stroke whose head carries an option digit or a
/// nonzero base.
pub open spec fn spec_vertical_step(v: i64, t: VSeg, o: VSeg, head_opt_1: u32, head_base: u32) -> i64 {
    if o.idx != t.idx && !(t.y1 + 1 > o.y2 || t.y2 - 1 < o.y1) && spec_abs(t.x - o.x)
        < MIN_WIDTH_VERTICAL * VERTICAL_STEP {
        let w = v + VERTICAL_STEP - spec_floor_div(spec_abs(t.x - o.x), MIN_WIDTH_VERTICAL as int);
        if w > VERTICAL_STEP || (w == VERTICAL_STEP && (head_opt_1 != 0 || head_base != 0)) {
            VERTICAL_STEP as i64
        } else {
            w as i64
        }
    } else {
        v
    }
}

pub open spec fn spec_vertical_fold(
    vsegs: Seq<VSeg>,
    t: VSeg,
    head_opt_1: u32,
    head_base: u32,
    init: i64,
    j: int,
) -> i64
    decreases j,
{
    if j <= 0 {
        init
    } else {
        spec_vertical_step(
            spec_vertical_fold(vsegs, t, head_opt_1, head_base, init, j - 1),
            t,
            vsegs[j - 1],
            head_opt_1,
            head_base,
        )
    }
}

/// The vertical adjustment of stroke `i`.
pub open spec fn spec_vertical_adj(strokes: Seq<StrokeLineType>, i: int) -> i64 {
    let s = strokes[i];
    let init = (s.head_shape.opt_2 + s.head_shape.opt_3 * 10) as i64;
    if spec_is_vertical_137(s) {
        let vsegs = spec_vsegs(strokes);
        let t = VSeg { idx: i as usize, x: s.point_1.x, y1: s.point_1.y, y2: s.point_2.y };
        spec_vertical_fold(
            vsegs,
            t,
            s.head_shape.opt_1,
            s.head_shape.base,
            init,
            vsegs.len() as int,
        )
    } else {
        init
    }
}

/// Whether some horizontal straight stroke runs through the head of stroke
/// `i` at exactly its height.
pub open spec fn spec_slash_hit(strokes: Seq<StrokeLineType>, i: int) -> bool {
    exists|j: int|
        0 <= j < strokes.len() && (#[trigger] strokes[j]).stroke_type.base == 1
            && strokes[j].stroke_type.opt == 0 && strokes[j].point_1.y == strokes[j].point_2.y
            && strokes[j].point_1.x < strokes[i].point_1.x && strokes[j].point_2.x
            > strokes[i].point_1.x && strokes[j].point_1.y == strokes[i].point_1.y
}

/// The slash adjustment of stroke `i`: set when a left-falling curving
/// stroke with a vertical-connection head starts on a horizontal stroke.
pub open spec fn spec_slash_adj(strokes: Seq<StrokeLineType>, i: int) -> i64 {
    let s = strokes[i];
    let init = s.head_shape.opt_1 as i64;
    if s.stroke_type.base == 2 && s.stroke_type.opt == 0 && s.head_shape.base == 32
        && s.head_shape.opt == 0 && s.point_1.x > s.point_2.x && s.point_1.y < s.point_2.y
        && spec_slash_hit(strokes, i) {
        1
    } else {
        init
    }
}


/// The foot collision bands: the y offsets below the stroke tail that bound
/// each probe box.
pub open spec fn spec_foot_range_y(k: int) -> int {
    if k == 0 {
        1
    } else if k == 1 {
        19
    } else if k == 2 {
        24
    } else {
        30
    }
}

fn foot_range_y(k: usize) -> (r: i64)
    requires
        k <= 3,
    ensures
        r == spec_foot_range_y(k as int),
{
    match k {
        0 => 1,
        1 => 19,
        2 => 24,
        _ => 30,
    }
}

/// The probe distances along an open-ended stroke for each triangle level.
pub open spec fn spec_tri_line(k: int) -> int {
    if k == 0 {
        22
    } else if k == 1 {
        26
    } else {
        30
    }
}

fn tri_line(k: usize) -> (r: i64)
    requires
        k <= 2,
    ensures
        r == spec_tri_line(k as int),
{
    match k {
        0 => 22,
        1 => 26,
        _ => 30,
    }
}

/// The stroke-length thresholds for each triangle level.
pub open spec fn spec_tri_length(k: int) -> int {
    if k == 0 {
        22
    } else if k == 1 {
        36
    } else {
        50
    }
}

fn tri_length(k: usize) -> (r: i64)
    requires
        k <= 2,
    ensures
        r == spec_tri_length(k as int),
{
    match k {
        0 => 22,
        1 => 36,
        _ => 50,
    }
}

/// The density pressure of one neighboring segment: the distance shortfall
/// raised to the power 1.1, evaluated in fixed point with twenty fractional
/// bits.
pub open spec fn spec_pow11_scaled(d: int) -> int {
    if d == 1 {
        1048576
    } else if d == 2 {
        2247672
    } else if d == 3 {
        3511020
    } else if d == 4 {
        4817990
    } else if d == 5 {
        6158386
    } else if d == 6 {
        7526036
    } else if d == 7 {
        8916774
    } else if d == 8 {
        10327588
    } else if d == 9 {
        11756192
    } else if d == 10 {
        13200790
    } else if d == 11 {
        14659929
    } else if d == 12 {
        16132411
    } else if d == 13 {
        17617229
    } else if d == 14 {
        19113523
    } else if d == 15 {
        20620553
    } else if d == 16 {
        22137669
    } else if d == 17 {
        23664304
    } else if d == 18 {
        25199949
    } else if d == 19 {
        26744155
    } else if d == 20 {
        28296512
    } else if d == 21 {
        29856654
    } else if d == 22 {
        31424246
    } else if d == 23 {
        32998981
    } else if d == 24 {
        34580580
    } else if d == 25 {
        36168785
    } else if d == 26 {
        37763357
    } else if d == 27 {
        39364075
    } else if d == 28 {
        40970734
    } else if d == 29 {
        42583143
    } else if d == 30 {
        44201122
    } else if d == 31 {
        45824504
    } else if d == 32 {
        47453133
    } else if d == 33 {
        49086859
    } else if d == 34 {
        50725545
    } else if d == 35 {
        52369058
    } else if d == 36 {
        54017274
    } else if d == 37 {
        55670075
    } else if d == 38 {
        57327350
    } else if d == 39 {
        58988993
    } else if d == 40 {
        60654902
    } else {
        0
    }
}

fn pow11_scaled(d: i64) -> (r: i64)
    ensures
        r == spec_pow11_scaled(d as int),
{
    match d {
        1 => 1048576,
        2 => 2247672,
        3 => 3511020,
        4 => 4817990,
        5 => 6158386,
        6 => 7526036,
        7 => 8916774,
        8 => 10327588,
        9 => 11756192,
        10 => 13200790,
        11 => 14659929,
        12 => 16132411,
        13 => 17617229,
        14 => 19113523,
        15 => 20620553,
        16 => 22137669,
        17 => 23664304,
        18 => 25199949,
        19 => 26744155,
        20 => 28296512,
        21 => 29856654,
        22 => 31424246,
        23 => 32998981,
        24 => 34580580,
        25 => 36168785,
        26 => 37763357,
        27 => 39364075,
        28 => 40970734,
        29 => 42583143,
        30 => 44201122,
        31 => 45824504,
        32 => 47453133,
        33 => 49086859,
        34 => 50725545,
        35 => 52369058,
        36 => 54017274,
        37 => 55670075,
        38 => 57327350,
        39 => 58988993,
        40 => 60654902,
        _ => 0,
    }
}


/// The integer square root: the largest `r` with `r * r <= n`.
pub open spec fn spec_isqrt(n: int) -> int
    decreases n,
{
    if n <= 0 {
        0
    } else {
        let r = spec_isqrt(n - 1);
        if (r + 1) * (r + 1) <= n {
            r + 1
        } else {
            r
        }
    }
}

/// The integer square root is characterized by its two bounding squares.
pub proof fn lemma_isqrt_bounds(n: int)
    requires
        n >= 0,
    ensures
        spec_isqrt(n) >= 0,
        spec_isqrt(n) * spec_isqrt(n) <= n,
        (spec_isqrt(n) + 1) * (spec_isqrt(n) + 1) > n,
    decreases n,
{
    if n > 0 {
        lemma_isqrt_bounds(n - 1);
        let r = spec_isqrt(n - 1);
        if (r + 1) * (r + 1) <= n {
            assert((r + 2) * (r + 2) > n) by (nonlinear_arith)
                requires
                    r >= 0,
                    (r + 1) * (r + 1) > n - 1,
            ;
        }
    }
}

/// Any nonnegative `r` whose square bounds `n` on both sides is the integer
/// square root.
pub proof fn lemma_isqrt_unique(n: int, r: int)
    requires
        n >= 0,
        r >= 0,
        r * r <= n,
        (r + 1) * (r + 1) > n,
    ensures
        r == spec_isqrt(n),
{
    lemma_isqrt_bounds(n);
    let s = spec_isqrt(n);
    assert(r == s) by (nonlinear_arith)
        requires
            r >= 0,
            s >= 0,
            r * r <= n,
            (r + 1) * (r + 1) > n,
            s * s <= n,
            (s + 1) * (s + 1) > n,
    ;
}

/// The integer square root, by binary search.
fn isqrt(n: u64) -> (r: u64)
    ensures
        r == spec_isqrt(n as int),
{
    let mut lo: u64 = 0;
    let mut hi: u64 = 4_294_967_296;
    let mut bound: u64 = n;
    if bound > 18_446_744_065_119_617_024 {
        bound = 18_446_744_065_119_617_024;
    }
    // hi * hi exceeds every value `n` can take, so the search brackets the
    // root; `bound` only guards the squaring against overflow.
    while lo + 1 < hi
        invariant
            lo < hi <= 4_294_967_296,
            lo * lo <= n,
            hi * hi > n,
        decreases hi - lo,
    {
        let mid = lo + (hi - lo) / 2;
        proof {
            assert(mid * mid <= 4_294_967_296 * 4_294_967_296) by (nonlinear_arith)
                requires
                    0 <= mid <= 4_294_967_296,
            ;
        }
        if mid as u128 * mid as u128 <= n as u128 {
            lo = mid;
        } else {
            hi = mid;
        }
    }
    proof {
        lemma_isqrt_unique(n as int, lo as int);
    }
    lo
}

/// Whether the foot pass adjusts this stroke: a plain straight stroke with
/// a plain cornered tail.
pub open spec fn spec_foot_shape(s: StrokeLineType) -> bool {
    s.stroke_type.base == 1 && s.stroke_type.opt == 0 && (s.tail_shape.base == 13
        || s.tail_shape.base == 23) && s.tail_shape.opt == 0
}

/// Whether some other stroke crosses the probe box of level `k` below the
/// tail of stroke `i`.
pub open spec fn spec_foot_collide(strokes: Seq<StrokeLineType>, i: int, k: int) -> bool {
    let s = strokes[i];
    let d1 = Point {
        x: (s.point_2.x - FOOT_RANGE_X / 2) as i64,
        y: (s.point_2.y + spec_foot_range_y(k)) as i64,
        off_curve: None,
    };
    let d2 = Point {
        x: (s.point_2.x + FOOT_RANGE_X / 2) as i64,
        y: (s.point_2.y + spec_foot_range_y(k + 1)) as i64,
        off_curve: None,
    };
    exists|j: int|
        0 <= j < strokes.len() && j != i && (#[trigger] strokes[j]).spec_is_cross_box(d1, d2)
}

/// Whether the foot probe of level `k` stops the search: a collision, a box
/// leaving the design space, or a stroke shorter than the band.
pub open spec fn spec_foot_cond(strokes: Seq<StrokeLineType>, i: int, k: int) -> bool {
    let s = strokes[i];
    ||| spec_foot_collide(strokes, i, k)
    ||| s.point_2.y + spec_foot_range_y(k + 1) > 200
    ||| s.point_2.y - s.point_1.y < spec_foot_range_y(k + 1)
}

/// The first foot level at or after `k` whose probe stops the search.
pub open spec fn spec_foot_first(strokes: Seq<StrokeLineType>, i: int, k: int) -> Option<int>
    decreases FOOT_STEP - k,
{
    if k < 0 || k >= FOOT_STEP {
        None
    } else if spec_foot_cond(strokes, i, k) {
        Some(k)
    } else {
        spec_foot_first(strokes, i, k + 1)
    }
}

/// The foot adjustment of stroke `i`.
pub open spec fn spec_foot_adj(strokes: Seq<StrokeLineType>, i: int) -> usize {
    let init = strokes[i].tail_shape.opt as usize;
    if spec_foot_shape(strokes[i]) {
        match spec_foot_first(strokes, i, 0) {
            Some(k) => (3 - k) as usize,
            None => init,
        }
    } else {
        init
    }
}

/// Whether the triangle passes adjust this stroke: a plain straight stroke
/// with a plain open tail.
pub open spec fn spec_tri_shape(s: StrokeLineType) -> bool {
    s.stroke_type.base == 1 && s.stroke_type.opt == 0 && s.tail_shape.base == 0
        && s.tail_shape.opt == 0
}

/// The direction numbers of the probe along the stroke: the endpoint
/// difference, reversed for a leftward stroke.
pub open spec fn spec_tri_dir(s: StrokeLineType) -> (int, int) {
    if s.point_2.x - s.point_1.x < 0 {
        (s.point_1.x - s.point_2.x, s.point_1.y - s.point_2.y)
    } else {
        (s.point_2.x - s.point_1.x, s.point_2.y - s.point_1.y)
    }
}

/// The rounded length of the stroke: the signed x span when it is exactly
/// horizontal, else its euclidean length to the nearest unit.
pub open spec fn spec_tri_len_round(s: StrokeLineType) -> int {
    if s.point_1.y == s.point_2.y {
        s.point_2.x - s.point_1.x
    } else {
        let dx = s.point_2.x - s.point_1.x;
        let dy = s.point_2.y - s.point_1.y;
        let n = dx * dx + dy * dy;
        let r = spec_isqrt(n);
        if 4 * n < (2 * r + 1) * (2 * r + 1) {
            r
        } else {
            r + 1
        }
    }
}

/// The probe point of triangle level `k`, in thousandths of a unit: the
/// stroke tail moved back along the unit direction and half a unit to the
/// side.  On a slanted stroke the direction is normalized with an integer
/// square root, so the probe is exact to the thousandth.
pub open spec fn spec_tri_probe(s: StrokeLineType, k: int) -> Point {
    if s.point_1.y == s.point_2.y {
        Point {
            x: (1000 * (s.point_2.x - spec_tri_line(k))) as i64,
            y: (1000 * s.point_2.y - 500) as i64,
            off_curve: None,
        }
    } else {
        let d = spec_tri_dir(s);
        let n = d.0 * d.0 + d.1 * d.1;
        let den = spec_isqrt(4 * n);
        let offx = spec_clamp_off(spec_floor_div(1000 * (2 * spec_tri_line(k) * d.0 + d.1), den));
        let offy = spec_clamp_off(spec_floor_div(1000 * (2 * spec_tri_line(k) * d.1 + d.0), den));
        Point {
            x: (1000 * s.point_2.x - offx) as i64,
            y: (1000 * s.point_2.y - offy) as i64,
            off_curve: None,
        }
    }
}

/// A probe offset guarded to a tenth of a unit times a thousand; the true
/// offset of a probe never comes near the guard.
pub open spec fn spec_clamp_off(v: int) -> int {
    if v < -100_000 {
        -100_000
    } else if v > 100_000 {
        100_000
    } else {
        v
    }
}

/// A point scaled to thousandths of a unit.
pub open spec fn spec_milli(p: Point) -> Point {
    Point { x: (1000 * p.x) as i64, y: (1000 * p.y) as i64, off_curve: p.off_curve }
}

/// Whether some control segment of the stroke, read in thousandths, crosses
/// the segment `a b` given in thousandths.
pub open spec fn spec_crosses_milli(o: StrokeLineType, a: Point, b: Point) -> bool {
    exists|q: int|
        0 <= q < o.spec_control_segments().len() && spec_is_cross(
            spec_milli((#[trigger] o.spec_control_segments()[q]).0),
            spec_milli(o.spec_control_segments()[q].1),
            a,
            b,
        )
}

/// Whether some other stroke crosses the probe segment of level `k`.
pub open spec fn spec_tri_hit(strokes: Seq<StrokeLineType>, i: int, k: int) -> bool {
    exists|j: int|
        0 <= j < strokes.len() && j != i && spec_crosses_milli(
            #[trigger] strokes[j],
            spec_tri_probe(strokes[i], k),
            spec_milli(strokes[i].point_2),
        )
}

/// The first triangle level at or after `k` that stops the search: a stroke
/// shorter than the level's threshold, or a collision on the probe.
pub open spec fn spec_tri_first(strokes: Seq<StrokeLineType>, i: int, k: int) -> Option<int>
    decreases TRIANGLE_STEP - k,
{
    if k < 0 || k >= TRIANGLE_STEP {
        None
    } else if spec_tri_len_round(strokes[i]) < spec_tri_length(k) || spec_tri_hit(strokes, i, k) {
        Some(k)
    } else {
        spec_tri_first(strokes, i, k + 1)
    }
}

/// The triangle adjustment after the length-and-collision pass.
pub open spec fn spec_triangle_e(strokes: Seq<StrokeLineType>, i: int) -> usize {
    let init = strokes[i].tail_shape.opt as usize;
    if spec_tri_shape(strokes[i]) {
        match spec_tri_first(strokes, i, 0) {
            Some(k) => (3 - k) as usize,
            None => init,
        }
    } else {
        init
    }
}

/// The density pressure on stroke `i` accumulated over the first `j`
/// horizontal segments, in fixed point.
pub open spec fn spec_pressure_fold(hsegs: Seq<HSeg>, t: HSeg, j: int) -> int
    decreases j,
{
    if j <= 0 {
        0
    } else {
        let o = hsegs[j - 1];
        spec_pressure_fold(hsegs, t, j - 1) + if o.idx != t.idx && !(t.x1 + 1 > o.x2 || t.x2 - 1
            < o.x1) && spec_abs(t.y - o.y) < TRIANGLE2_LENGTH {
            spec_pow11_scaled(TRIANGLE2_LENGTH - spec_abs(t.y - o.y))
        } else {
            0
        }
    }
}

/// The triangle adjustment of stroke `i`: the density pass overrides the
/// length pass on a horizontal open-ended stroke it left untouched.
pub open spec fn spec_triangle_adj(strokes: Seq<StrokeLineType>, i: int) -> usize {
    let e = spec_triangle_e(strokes, i);
    let s = strokes[i];
    if spec_tri_shape(s) && s.point_1.y == s.point_2.y && e == 0 {
        let t = HSeg { idx: i as usize, is_target: true, y: s.point_1.y, x1: s.point_1.x, x2: s.point_2.x };
        let hsegs = spec_hsegs(strokes);
        let pressure = spec_pressure_fold(hsegs, t, hsegs.len() as int);
        let v = spec_floor_div(pressure, TRIANGLE2_LENGTH * 1048576);
        if v > TRIANGLE2_STEP {
            TRIANGLE2_STEP as usize
        } else {
            v as usize
        }
    } else {
        e
    }
}

/// All decoration parameters of stroke `i`.
pub open spec fn spec_adjusted(strokes: Seq<StrokeLineType>, i: int) -> AdjustedStroke {
    AdjustedStroke {
        slash_adjustment: spec_slash_adj(strokes, i),
        vertical_adjustment: spec_vertical_adj(strokes, i),
        flick_adjustment: spec_flick_adj(strokes, i),
        triangle_adjustment: spec_triangle_adj(strokes, i),
        foot_adjustment: spec_foot_adj(strokes, i),
        curve_adjustment: spec_curve_adj(strokes, i),
    }
}

/// Running the analysis twice on the same strokes yields the same result:
/// every parameter is a function of the stroke list alone.
pub proof fn lemma_adjust_deterministic(
    strokes: Seq<StrokeLineType>,
    r1: Seq<AdjustedStroke>,
    r2: Seq<AdjustedStroke>,
)
    requires
        r1.len() == strokes.len(),
        r2.len() == strokes.len(),
        forall|i: int| 0 <= i < strokes.len() ==> #[trigger] r1[i] == spec_adjusted(strokes, i),
        forall|i: int| 0 <= i < strokes.len() ==> #[trigger] r2[i] == spec_adjusted(strokes, i),
    ensures
        r1 == r2,
{
    assert(r1 =~= r2);
}


/// The horizontal segments of all strokes.
fn hsegs_of(strokes: &Vec<StrokeLineType>) -> (r: Vec<HSeg>)
    ensures
        r@ == spec_hsegs(strokes@),
{
    let mut r: Vec<HSeg> = Vec::new();
    let n = strokes.len();
    let mut i: usize = 0;
    while i < n
        invariant
            i <= n,
            n == strokes@.len(),
            r@ == spec_hsegs(strokes@.take(i as int)),
        decreases n - i,
    {
        let s = &strokes[i];
        proof {
            assert(strokes@.take(i + 1).drop_last() =~= strokes@.take(i as int));
            assert(strokes@.take(i + 1).last() == strokes@[i as int]);
        }
        if s.stroke_type.base == 1 && s.stroke_type.opt == 0 && s.point_1.y == s.point_2.y {
            r.push(HSeg { idx: i, is_target: false, y: s.point_2.y, x1: s.point_1.x, x2: s.point_2.x });
        } else if s.stroke_type.base == 3 && s.stroke_type.opt == 0 && s.point_2.y == s.point_3.y {
            r.push(HSeg { idx: i, is_target: true, y: s.point_2.y, x1: s.point_2.x, x2: s.point_3.x });
        }
        proof {
            assert(r@ =~= spec_hsegs(strokes@.take(i + 1)));
        }
        i += 1;
    }
    proof {
        assert(strokes@.take(n as int) =~= strokes@);
    }
    r
}

/// The vertical segments of all strokes.
fn vsegs_of(strokes: &Vec<StrokeLineType>) -> (r: Vec<VSeg>)
    ensures
        r@ == spec_vsegs(strokes@),
{
    let mut r: Vec<VSeg> = Vec::new();
    let n = strokes.len();
    let mut i: usize = 0;
    while i < n
        invariant
            i <= n,
            n == strokes@.len(),
            r@ == spec_vsegs(strokes@.take(i as int)),
        decreases n - i,
    {
        let s = &strokes[i];
        proof {
            assert(strokes@.take(i + 1).drop_last() =~= strokes@.take(i as int));
            assert(strokes@.take(i + 1).last() == strokes@[i as int]);
        }
        if (s.stroke_type.base == 1 || s.stroke_type.base == 3 || s.stroke_type.base == 7)
            && s.stroke_type.opt == 0 && s.point_1.x == s.point_2.x {
            r.push(VSeg { idx: i, x: s.point_1.x, y1: s.point_1.y, y2: s.point_2.y });
        }
        proof {
            assert(r@ =~= spec_vsegs(strokes@.take(i + 1)));
        }
        i += 1;
    }
    proof {
        assert(strokes@.take(n as int) =~= strokes@);
    }
    r
}

/// All strokes lie in the parsed-coordinate range.
pub open spec fn spec_all_in_range(strokes: Seq<StrokeLineType>) -> bool {
    forall|k: int| 0 <= k < strokes.len() ==> (#[trigger] strokes[k]).points_in_range()
}

/// Every horizontal segment inherits the coordinate range of its stroke.
proof fn lemma_hsegs_in_range(strokes: Seq<StrokeLineType>)
    requires
        spec_all_in_range(strokes),
    ensures
        forall|q: int|
            0 <= q < spec_hsegs(strokes).len() ==> -2_000_000 <= (#[trigger] spec_hsegs(
                strokes,
            )[q]).y <= 2_000_000 && -2_000_000 <= spec_hsegs(strokes)[q].x1 <= 2_000_000
                && -2_000_000 <= spec_hsegs(strokes)[q].x2 <= 2_000_000,
    decreases strokes.len(),
{
    if strokes.len() > 0 {
        assert(spec_all_in_range(strokes.drop_last())) by {
            assert(forall|k: int|
                0 <= k < strokes.drop_last().len() ==> strokes.drop_last()[k] == strokes[k]);
        }
        lemma_hsegs_in_range(strokes.drop_last());
        assert(strokes.last() == strokes[strokes.len() - 1]);
        let all = spec_hsegs(strokes);
        let pre = spec_hsegs(strokes.drop_last());
        let ext = spec_hseg_of(strokes.last(), strokes.len() - 1);
        assert forall|q: int|
            0 <= q < all.len() implies -2_000_000 <= (#[trigger] all[q]).y <= 2_000_000
            && -2_000_000 <= all[q].x1 <= 2_000_000 && -2_000_000 <= all[q].x2 <= 2_000_000 by {
            if q < pre.len() {
                assert(all[q] == pre[q]);
            } else {
                assert(all[q] == ext[q - pre.len()]);
                assert(strokes.last().points_in_range());
            }
        }
    }
}

/// Every vertical segment inherits the coordinate range of its stroke.
proof fn lemma_vsegs_in_range(strokes: Seq<StrokeLineType>)
    requires
        spec_all_in_range(strokes),
    ensures
        forall|q: int|
            0 <= q < spec_vsegs(strokes).len() ==> -2_000_000 <= (#[trigger] spec_vsegs(
                strokes,
            )[q]).x <= 2_000_000 && -2_000_000 <= spec_vsegs(strokes)[q].y1 <= 2_000_000
                && -2_000_000 <= spec_vsegs(strokes)[q].y2 <= 2_000_000,
    decreases strokes.len(),
{
    if strokes.len() > 0 {
        assert(spec_all_in_range(strokes.drop_last())) by {
            assert(forall|k: int|
                0 <= k < strokes.drop_last().len() ==> strokes.drop_last()[k] == strokes[k]);
        }
        lemma_vsegs_in_range(strokes.drop_last());
        assert(strokes.last() == strokes[strokes.len() - 1]);
        let all = spec_vsegs(strokes);
        let pre = spec_vsegs(strokes.drop_last());
        let ext = spec_vseg_of(strokes.last(), strokes.len() - 1);
        assert forall|q: int|
            0 <= q < all.len() implies -2_000_000 <= (#[trigger] all[q]).x <= 2_000_000
            && -2_000_000 <= all[q].y1 <= 2_000_000 && -2_000_000 <= all[q].y2 <= 2_000_000 by {
            if q < pre.len() {
                assert(all[q] == pre[q]);
            } else {
                assert(all[q] == ext[q - pre.len()]);
                assert(strokes.last().points_in_range());
            }
        }
    }
}

/// The flick adjustment of stroke `i`.
fn flick_adj_at(strokes: &Vec<StrokeLineType>, i: usize) -> (r: i64)
    requires
        i < strokes@.len(),
        spec_all_in_range(strokes@),
    ensures
        r == spec_flick_adj(strokes@, i as int),
{
    let s = &strokes[i];
    let init = s.tail_shape.opt_1 as i64;
    let shaped = (s.stroke_type.base == 1 || s.stroke_type.base == 2 || s.stroke_type.base == 6)
        && s.stroke_type.opt == 0 && s.tail_shape.base == 4 && s.tail_shape.opt == 0;
    if !shaped {
        return init;
    }
    let lp = if s.stroke_type.base == 1 {
        s.point_2
    } else if s.stroke_type.base == 2 {
        s.point_3
    } else {
        s.point_4
    };
    let mut nearest: Option<i64> = if lp.x + 18 < 100 {
        Some(lp.x + 18)
    } else {
        None
    };
    let n = strokes.len();
    let mut j: usize = 0;
    while j < n
        invariant
            j <= n,
            n == strokes@.len(),
            i < n,
            spec_all_in_range(strokes@),
            lp == spec_last_point(strokes@[i as int]),
            match spec_flick_nearest(strokes@, i as int, j as int) {
                Some(v) => nearest == Some(v as i64) && -2_000_000 <= v <= 2_000_000,
                None => nearest is None,
            },
        decreases n - j,
    {
        let o = &strokes[j];
        if j != i && o.stroke_type.base == 1 && o.stroke_type.opt == 0 && o.point_1.x
            == o.point_2.x && lp.x - o.point_1.x < 100 && o.point_1.x < lp.x && o.point_1.y
            <= lp.y && o.point_2.y >= lp.y {
            let diff = lp.x - o.point_1.x;
            nearest = match nearest {
                Some(w) => if diff < w {
                    Some(diff)
                } else {
                    Some(w)
                },
                None => Some(diff),
            };
        }
        j += 1;
    }
    match nearest {
        Some(nv) => {
            proof {
                crate::line::stroke_line::lemma_floor_div_in_range(nv as int, 15, 2_000_000);
            }
            let q = crate::line::stroke_line::floor_div(nv as i128, 15);
            init + 7 - (q as i64)
        },
        None => init,
    }
}

/// The curve adjustment of stroke `i`.
fn curve_adj_at(strokes: &Vec<StrokeLineType>, hsegs: &Vec<HSeg>, i: usize) -> (r: i64)
    requires
        i < strokes@.len(),
        spec_all_in_range(strokes@),
        hsegs@ == spec_hsegs(strokes@),
    ensures
        r == spec_curve_adj(strokes@, i as int),
{
    let s = &strokes[i];
    let init = s.tail_shape.opt_2 as i64;
    if !(s.stroke_type.base == 3 && s.stroke_type.opt == 0 && s.point_2.y == s.point_3.y) {
        return init;
    }
    let t = HSeg { idx: i, is_target: true, y: s.point_2.y, x1: s.point_2.x, x2: s.point_3.x };
    proof {
        lemma_hsegs_in_range(strokes@);
    }
    let mut v: i64 = init;
    let ghost vmax: int = if init > CURVE_STEP {
        init as int
    } else {
        CURVE_STEP as int
    };
    let n = hsegs.len();
    let mut j: usize = 0;
    while j < n
        invariant
            j <= n,
            n == hsegs@.len(),
            vmax == if init > CURVE_STEP {
                init as int
            } else {
                CURVE_STEP as int
            },
            0 <= init <= 4_294_967_295,
            t == spec_curve_target(strokes@[i as int], i as int),
            forall|q: int|
                0 <= q < n ==> -2_000_000 <= (#[trigger] hsegs@[q]).y <= 2_000_000
                    && -2_000_000 <= hsegs@[q].x1 <= 2_000_000 && -2_000_000 <= hsegs@[q].x2
                    <= 2_000_000,
            -2_000_000 <= t.y <= 2_000_000,
            -2_000_000 <= t.x1 <= 2_000_000,
            -2_000_000 <= t.x2 <= 2_000_000,
            v == spec_curve_fold(hsegs@, t, init as i64, j as int),
            0 <= v <= vmax,
        decreases n - j,
    {
        let o = hsegs[j];
        if o.idx != t.idx && !(t.x1 + 1 > o.x2 || t.x2 - 1 < o.x1) {
            let dy = if t.y >= o.y {
                t.y - o.y
            } else {
                o.y - t.y
            };
            if dy < MIN_WIDTH_VERTICAL * CURVE_STEP {
                proof {
                    lemma_fundamental_div_mod(dy as int, 6);
                    assert(0 <= spec_floor_div(dy as int, 6) <= 4) by (nonlinear_arith)
                        requires
                            0 <= dy < 30,
                            dy as int == 6 * ((dy as int) / 6) + (dy as int) % 6,
                            0 <= (dy as int) % 6 < 6,
                    ;
                }
                let q = crate::line::stroke_line::floor_div(dy as i128, 6) as i64;
                v = v + CURVE_STEP - q;
                if v > CURVE_STEP {
                    v = CURVE_STEP;
                }
            }
        }
        j += 1;
    }
    v
}

/// The vertical adjustment of stroke `i`.
fn vertical_adj_at(strokes: &Vec<StrokeLineType>, vsegs: &Vec<VSeg>, i: usize) -> (r: i64)
    requires
        i < strokes@.len(),
        spec_all_in_range(strokes@),
        vsegs@ == spec_vsegs(strokes@),
    ensures
        r == spec_vertical_adj(strokes@, i as int),
{
    let s = &strokes[i];
    let init = (s.head_shape.opt_2 as i64) + (s.head_shape.opt_3 as i64) * 10;
    if !((s.stroke_type.base == 1 || s.stroke_type.base == 3 || s.stroke_type.base == 7)
        && s.stroke_type.opt == 0 && s.point_1.x == s.point_2.x) {
        return init;
    }
    let t = VSeg { idx: i, x: s.point_1.x, y1: s.point_1.y, y2: s.point_2.y };
    proof {
        lemma_vsegs_in_range(strokes@);
    }
    let head_opt_1 = s.head_shape.opt_1;
    let head_base = s.head_shape.base;
    let mut v: i64 = init;
    let ghost vmax: int = if init > VERTICAL_STEP {
        init as int
    } else {
        VERTICAL_STEP as int
    };
    let n = vsegs.len();
    let mut j: usize = 0;
    while j < n
        invariant
            j <= n,
            n == vsegs@.len(),
            i < strokes@.len(),
            vmax == if init > VERTICAL_STEP {
                init as int
            } else {
                VERTICAL_STEP as int
            },
            0 <= init <= 47_244_640_245,
            t == (VSeg {
                idx: i,
                x: strokes@[i as int].point_1.x,
                y1: strokes@[i as int].point_1.y,
                y2: strokes@[i as int].point_2.y,
            }),
            head_opt_1 == strokes@[i as int].head_shape.opt_1,
            head_base == strokes@[i as int].head_shape.base,
            forall|q: int|
                0 <= q < n ==> -2_000_000 <= (#[trigger] vsegs@[q]).x <= 2_000_000
                    && -2_000_000 <= vsegs@[q].y1 <= 2_000_000 && -2_000_000 <= vsegs@[q].y2
                    <= 2_000_000,
            -2_000_000 <= t.x <= 2_000_000,
            -2_000_000 <= t.y1 <= 2_000_000,
            -2_000_000 <= t.y2 <= 2_000_000,
            v == spec_vertical_fold(vsegs@, t, head_opt_1, head_base, init as i64, j as int),
            0 <= v <= vmax,
        decreases n - j,
    {
        let o = vsegs[j];
        if o.idx != t.idx && !(t.y1 + 1 > o.y2 || t.y2 - 1 < o.y1) {
            let dx = if t.x >= o.x {
                t.x - o.x
            } else {
                o.x - t.x
            };
            if dx < MIN_WIDTH_VERTICAL * VERTICAL_STEP {
                proof {
                    lemma_fundamental_div_mod(dx as int, 6);
                    assert(0 <= spec_floor_div(dx as int, 6) <= 3) by (nonlinear_arith)
                        requires
                            0 <= dx < 24,
                            dx as int == 6 * ((dx as int) / 6) + (dx as int) % 6,
                            0 <= (dx as int) % 6 < 6,
                    ;
                }
                let q = crate::line::stroke_line::floor_div(dx as i128, 6) as i64;
                v = v + VERTICAL_STEP - q;
                if v > VERTICAL_STEP || (v == VERTICAL_STEP && (head_opt_1 != 0 || head_base
                    != 0)) {
                    v = VERTICAL_STEP;
                }
            }
        }
        j += 1;
    }
    v
}

/// The slash adjustment of stroke `i`.
fn slash_adj_at(strokes: &Vec<StrokeLineType>, i: usize) -> (r: i64)
    requires
        i < strokes@.len(),
    ensures
        r == spec_slash_adj(strokes@, i as int),
{
    let s = &strokes[i];
    let init = s.head_shape.opt_1 as i64;
    if !(s.stroke_type.base == 2 && s.stroke_type.opt == 0 && s.head_shape.base == 32
        && s.head_shape.opt == 0 && s.point_1.x > s.point_2.x && s.point_1.y < s.point_2.y) {
        return init;
    }
    let p1x = s.point_1.x;
    let p1y = s.point_1.y;
    let n = strokes.len();
    let mut j: usize = 0;
    while j < n
        invariant
            j <= n,
            n == strokes@.len(),
            i < n,
            p1x == strokes@[i as int].point_1.x,
            p1y == strokes@[i as int].point_1.y,
            init == strokes@[i as int].head_shape.opt_1 as i64,
            strokes@[i as int].stroke_type.base == 2,
            strokes@[i as int].stroke_type.opt == 0,
            strokes@[i as int].head_shape.base == 32,
            strokes@[i as int].head_shape.opt == 0,
            strokes@[i as int].point_1.x > strokes@[i as int].point_2.x,
            strokes@[i as int].point_1.y < strokes@[i as int].point_2.y,
            forall|q: int|
                0 <= q < j ==> !((#[trigger] strokes@[q]).stroke_type.base == 1
                    && strokes@[q].stroke_type.opt == 0 && strokes@[q].point_1.y
                    == strokes@[q].point_2.y && strokes@[q].point_1.x
                    < strokes@[i as int].point_1.x && strokes@[q].point_2.x
                    > strokes@[i as int].point_1.x && strokes@[q].point_1.y
                    == strokes@[i as int].point_1.y),
        decreases n - j,
    {
        let o = &strokes[j];
        if o.stroke_type.base == 1 && o.stroke_type.opt == 0 && o.point_1.y == o.point_2.y
            && o.point_1.x < p1x && o.point_2.x > p1x && o.point_1.y == p1y {
            proof {
                assert(spec_slash_hit(strokes@, i as int));
            }
            return 1;
        }
        j += 1;
    }
    proof {
        assert(!spec_slash_hit(strokes@, i as int));
    }
    init
}


/// Whether some other stroke crosses the foot probe box of level `k`.
fn foot_collide_at(strokes: &Vec<StrokeLineType>, i: usize, k: usize) -> (r: bool)
    requires
        i < strokes@.len(),
        k <= 2,
        spec_all_in_range(strokes@),
    ensures
        r == spec_foot_collide(strokes@, i as int, k as int),
{
    let s = &strokes[i];
    let d1 = Point {
        x: s.point_2.x - FOOT_RANGE_X / 2,
        y: s.point_2.y + foot_range_y(k),
        off_curve: None,
    };
    let d2 = Point {
        x: s.point_2.x + FOOT_RANGE_X / 2,
        y: s.point_2.y + foot_range_y(k + 1),
        off_curve: None,
    };
    let n = strokes.len();
    let mut j: usize = 0;
    while j < n
        invariant
            j <= n,
            n == strokes@.len(),
            i < n,
            spec_all_in_range(strokes@),
            d1 == (Point {
                x: (strokes@[i as int].point_2.x - FOOT_RANGE_X / 2) as i64,
                y: (strokes@[i as int].point_2.y + spec_foot_range_y(k as int)) as i64,
                off_curve: None,
            }),
            d2 == (Point {
                x: (strokes@[i as int].point_2.x + FOOT_RANGE_X / 2) as i64,
                y: (strokes@[i as int].point_2.y + spec_foot_range_y(k as int + 1)) as i64,
                off_curve: None,
            }),
            d1.in_cross_range(),
            d2.in_cross_range(),
            forall|q: int|
                0 <= q < j ==> !(q != i && (#[trigger] strokes@[q]).spec_is_cross_box(d1, d2)),
        decreases n - j,
    {
        if j != i && strokes[j].is_cross_box(d1, d2) {
            proof {
                assert(spec_foot_collide(strokes@, i as int, k as int));
            }
            return true;
        }
        j += 1;
    }
    proof {
        assert(!spec_foot_collide(strokes@, i as int, k as int));
    }
    false
}

/// The first foot level at or after `k` whose probe stops the search.
fn foot_first_at(strokes: &Vec<StrokeLineType>, i: usize, k: usize) -> (r: Option<usize>)
    requires
        i < strokes@.len(),
        spec_all_in_range(strokes@),
    ensures
        match spec_foot_first(strokes@, i as int, k as int) {
            Some(v) => 0 <= v < FOOT_STEP && r == Some(v as usize),
            None => r is None,
        },
    decreases FOOT_STEP - k,
{
    if k >= FOOT_STEP {
        return None;
    }
    let s = &strokes[i];
    let band = foot_range_y(k + 1);
    let collide = foot_collide_at(strokes, i, k);
    if collide || s.point_2.y + band > 200 || s.point_2.y - s.point_1.y < band {
        Some(k)
    } else {
        foot_first_at(strokes, i, k + 1)
    }
}

/// The foot adjustment of stroke `i`.
fn foot_adj_at(strokes: &Vec<StrokeLineType>, i: usize) -> (r: usize)
    requires
        i < strokes@.len(),
        spec_all_in_range(strokes@),
    ensures
        r == spec_foot_adj(strokes@, i as int),
{
    let s = &strokes[i];
    let init = s.tail_shape.opt as usize;
    if !(s.stroke_type.base == 1 && s.stroke_type.opt == 0 && (s.tail_shape.base == 13
        || s.tail_shape.base == 23) && s.tail_shape.opt == 0) {
        return init;
    }
    match foot_first_at(strokes, i, 0) {
        Some(k) => 3 - k,
        None => init,
    }
}

/// A point scaled to thousandths of a unit.
fn milli_point(p: Point) -> (r: Point)
    requires
        p.in_range(),
    ensures
        r == spec_milli(p),
        r.in_cross_range(),
{
    Point { x: p.x * 1000, y: p.y * 1000, off_curve: p.off_curve }
}

/// Whether some control segment of the stroke, read in thousandths, crosses
/// the segment `a b` given in thousandths.
fn crosses_milli_at(o: &StrokeLineType, a: Point, b: Point) -> (r: bool)
    requires
        o.points_in_range(),
        a.in_cross_range(),
        b.in_cross_range(),
    ensures
        r == spec_crosses_milli(*o, a, b),
{
    let segments = o.get_control_segments();
    let n = segments.len();
    let mut q: usize = 0;
    while q < n
        invariant
            q <= n,
            n == segments@.len(),
            segments@ == o.spec_control_segments(),
            o.points_in_range(),
            a.in_cross_range(),
            b.in_cross_range(),
            forall|w: int|
                0 <= w < q ==> !spec_is_cross(
                    spec_milli((#[trigger] segments@[w]).0),
                    spec_milli(segments@[w].1),
                    a,
                    b,
                ),
        decreases n - q,
    {
        let (s1, s2) = segments[q];
        proof {
            o.lemma_segments_in_range();
        }
        let m1 = milli_point(s1);
        let m2 = milli_point(s2);
        if is_cross(m1, m2, a, b) {
            return true;
        }
        q += 1;
    }
    false
}

/// The probe point of triangle level `k` at the tail of the stroke, in
/// thousandths of a unit.
fn tri_probe_at(s: &StrokeLineType, k: usize) -> (r: Point)
    requires
        s.points_in_range(),
        k <= 2,
    ensures
        r == spec_tri_probe(*s, k as int),
        r.in_cross_range(),
{
    let c = tri_line(k);
    if s.point_1.y == s.point_2.y {
        let r = Point { x: 1000 * (s.point_2.x - c), y: 1000 * s.point_2.y - 500, off_curve: None };
        proof {
            assert(r == spec_tri_probe(*s, k as int));
        }
        return r;
    }
    {
        let (dx, dy) = if s.point_2.x - s.point_1.x < 0 {
            (s.point_1.x - s.point_2.x, s.point_1.y - s.point_2.y)
        } else {
            (s.point_2.x - s.point_1.x, s.point_2.y - s.point_1.y)
        };
        proof {
            assert(0 <= dx * dx <= 4_000_000_000_000 && 0 <= dy * dy <= 4_000_000_000_000
                && dx * dx + dy * dy >= 1) by (nonlinear_arith)
                requires
                    -2_000_000 <= dx <= 2_000_000,
                    -2_000_000 <= dy <= 2_000_000,
                    dy != 0,
            ;
        }
        let n: i64 = dx * dx + dy * dy;
        let den = isqrt((4 * n) as u64);
        proof {
            lemma_isqrt_bounds(4 * n as int);
            assert(den >= 1) by (nonlinear_arith)
                requires
                    4 * (n as int) >= 4,
                    den as int == spec_isqrt(4 * (n as int)),
                    (den as int + 1) * (den as int + 1) > 4 * (n as int),
                    den as int >= 0,
            ;
        }
        proof {
            assert(-100_000_000 <= (c as int) * (dx as int) <= 100_000_000 && -100_000_000 <= (
            c as int) * (dy as int) <= 100_000_000) by (nonlinear_arith)
                requires
                    0 <= c <= 30,
                    -2_000_000 <= dx <= 2_000_000,
                    -2_000_000 <= dy <= 2_000_000,
            ;
        }
        let cdx: i128 = (c as i128) * (dx as i128);
        let cdy: i128 = (c as i128) * (dy as i128);
        let numx: i128 = 1000 * (2 * cdx + (dy as i128));
        let numy: i128 = 1000 * (2 * cdy + (dx as i128));
        let qx = crate::line::stroke_line::floor_div(numx, den as i128);
        let qy = crate::line::stroke_line::floor_div(numy, den as i128);
        let offx: i64 = if qx < -100_000 {
            -100_000
        } else if qx > 100_000 {
            100_000
        } else {
            qx as i64
        };
        let offy: i64 = if qy < -100_000 {
            -100_000
        } else if qy > 100_000 {
            100_000
        } else {
            qy as i64
        };
        let r = Point { x: 1000 * s.point_2.x - offx, y: 1000 * s.point_2.y - offy, off_curve: None };
        proof {
            let d = spec_tri_dir(*s);
            assert(dx as int == d.0 && dy as int == d.1);
            let nn = d.0 * d.0 + d.1 * d.1;
            assert(n as int == nn);
            assert(den as int == spec_isqrt(4 * nn));
            assert(cdx as int == (c as int) * (dx as int));
            assert(cdy as int == (c as int) * (dy as int));
            assert((c as int) * (dx as int) == spec_tri_line(k as int) * d.0) by (nonlinear_arith)
                requires
                    c as int == spec_tri_line(k as int),
                    dx as int == d.0,
            ;
            assert((c as int) * (dy as int) == spec_tri_line(k as int) * d.1) by (nonlinear_arith)
                requires
                    c as int == spec_tri_line(k as int),
                    dy as int == d.1,
            ;
            assert(numx as int == 1000 * (2 * (spec_tri_line(k as int) * d.0) + d.1));
            assert(numy as int == 1000 * (2 * (spec_tri_line(k as int) * d.1) + d.0));
            assert(2 * (spec_tri_line(k as int) * d.0) == 2 * spec_tri_line(k as int) * d.0)
                by (nonlinear_arith);
            assert(2 * (spec_tri_line(k as int) * d.1) == 2 * spec_tri_line(k as int) * d.1)
                by (nonlinear_arith);
            assert(numx as int == 1000 * (2 * spec_tri_line(k as int) * d.0 + d.1));
            assert(numy as int == 1000 * (2 * spec_tri_line(k as int) * d.1 + d.0));
            assert(offx as int == spec_clamp_off(spec_floor_div(numx as int, den as int)));
            assert(offy as int == spec_clamp_off(spec_floor_div(numy as int, den as int)));
            assert(r == spec_tri_probe(*s, k as int));
        }
        r
    }
}

/// The rounded length of the stroke.
fn tri_len_round_at(s: &StrokeLineType) -> (r: i64)
    requires
        s.points_in_range(),
    ensures
        r == spec_tri_len_round(*s),
{
    if s.point_1.y == s.point_2.y {
        return s.point_2.x - s.point_1.x;
    }
    let dx = s.point_2.x - s.point_1.x;
    let dy = s.point_2.y - s.point_1.y;
    proof {
        assert(0 <= dx * dx <= 4_000_000_000_000 && 0 <= dy * dy <= 4_000_000_000_000)
            by (nonlinear_arith)
            requires
                -2_000_000 <= dx <= 2_000_000,
                -2_000_000 <= dy <= 2_000_000,
        ;
    }
    let n: i64 = dx * dx + dy * dy;
    let r0 = isqrt(n as u64);
    proof {
        lemma_isqrt_bounds(n as int);
        assert(r0 as int * (r0 as int) <= n as int);
        assert(r0 <= 3_000_000) by (nonlinear_arith)
            requires
                r0 as int * (r0 as int) <= n as int,
                n <= 8_000_000_000_000,
                r0 as int >= 0,
        ;
    }
    let lhs: i128 = 4 * (n as i128);
    let twice: i128 = 2 * (r0 as i128) + 1;
    proof {
        assert(0 <= twice * twice <= 100_000_000_000_000) by (nonlinear_arith)
            requires
                1 <= twice <= 7_000_000,
        ;
    }
    if lhs < twice * twice {
        r0 as i64
    } else {
        r0 as i64 + 1
    }
}

/// Whether some other stroke crosses the probe segment of level `k`.
fn tri_hit_at(strokes: &Vec<StrokeLineType>, i: usize, k: usize) -> (r: bool)
    requires
        i < strokes@.len(),
        k <= 2,
        spec_all_in_range(strokes@),
    ensures
        r == spec_tri_hit(strokes@, i as int, k as int),
{
    let probe = tri_probe_at(&strokes[i], k);
    let tail = milli_point(strokes[i].point_2);
    let n = strokes.len();
    let mut j: usize = 0;
    while j < n
        invariant
            j <= n,
            n == strokes@.len(),
            i < n,
            spec_all_in_range(strokes@),
            probe == spec_tri_probe(strokes@[i as int], k as int),
            probe.in_cross_range(),
            tail == spec_milli(strokes@[i as int].point_2),
            tail.in_cross_range(),
            forall|q: int|
                0 <= q < j ==> !(q != i && spec_crosses_milli(
                    #[trigger] strokes@[q],
                    spec_tri_probe(strokes@[i as int], k as int),
                    spec_milli(strokes@[i as int].point_2),
                )),
        decreases n - j,
    {
        if j != i && crosses_milli_at(&strokes[j], probe, tail) {
            proof {
                assert(spec_tri_hit(strokes@, i as int, k as int));
            }
            return true;
        }
        j += 1;
    }
    proof {
        assert(!spec_tri_hit(strokes@, i as int, k as int));
    }
    false
}

/// The first triangle level at or after `k` that stops the search.
fn tri_first_at(strokes: &Vec<StrokeLineType>, i: usize, k: usize) -> (r: Option<usize>)
    requires
        i < strokes@.len(),
        spec_all_in_range(strokes@),
    ensures
        match spec_tri_first(strokes@, i as int, k as int) {
            Some(v) => 0 <= v < TRIANGLE_STEP && r == Some(v as usize),
            None => r is None,
        },
    decreases TRIANGLE_STEP - k,
{
    if k >= TRIANGLE_STEP {
        return None;
    }
    let len_round = tri_len_round_at(&strokes[i]);
    if len_round < tri_length(k) || tri_hit_at(strokes, i, k) {
        Some(k)
    } else {
        tri_first_at(strokes, i, k + 1)
    }
}

/// The triangle adjustment after the length-and-collision pass.
fn triangle_e_at(strokes: &Vec<StrokeLineType>, i: usize) -> (r: usize)
    requires
        i < strokes@.len(),
        spec_all_in_range(strokes@),
    ensures
        r == spec_triangle_e(strokes@, i as int),
{
    let s = &strokes[i];
    let init = s.tail_shape.opt as usize;
    if !(s.stroke_type.base == 1 && s.stroke_type.opt == 0 && s.tail_shape.base == 0
        && s.tail_shape.opt == 0) {
        return init;
    }
    match tri_first_at(strokes, i, 0) {
        Some(k) => 3 - k,
        None => init,
    }
}

/// The triangle adjustment of stroke `i`: the density pass over the length
/// pass.
fn triangle_adj_at(strokes: &Vec<StrokeLineType>, hsegs: &Vec<HSeg>, i: usize) -> (r: usize)
    requires
        i < strokes@.len(),
        spec_all_in_range(strokes@),
        hsegs@ == spec_hsegs(strokes@),
    ensures
        r == spec_triangle_adj(strokes@, i as int),
{
    let e = triangle_e_at(strokes, i);
    let s = &strokes[i];
    if !(s.stroke_type.base == 1 && s.stroke_type.opt == 0 && s.tail_shape.base == 0
        && s.tail_shape.opt == 0 && s.point_1.y == s.point_2.y && e == 0) {
        return e;
    }
    let t = HSeg { idx: i, is_target: true, y: s.point_1.y, x1: s.point_1.x, x2: s.point_2.x };
    proof {
        lemma_hsegs_in_range(strokes@);
    }
    let mut pressure: i128 = 0;
    let n = hsegs.len();
    let mut j: usize = 0;
    while j < n
        invariant
            j <= n,
            n == hsegs@.len(),
            i < strokes@.len(),
            t == (HSeg {
                idx: i,
                is_target: true,
                y: strokes@[i as int].point_1.y,
                x1: strokes@[i as int].point_1.x,
                x2: strokes@[i as int].point_2.x,
            }),
            forall|q: int|
                0 <= q < n ==> -2_000_000 <= (#[trigger] hsegs@[q]).y <= 2_000_000
                    && -2_000_000 <= hsegs@[q].x1 <= 2_000_000 && -2_000_000 <= hsegs@[q].x2
                    <= 2_000_000,
            -2_000_000 <= t.y <= 2_000_000,
            -2_000_000 <= t.x1 <= 2_000_000,
            -2_000_000 <= t.x2 <= 2_000_000,
            pressure == spec_pressure_fold(hsegs@, t, j as int),
            0 <= pressure <= j * 61_000_000,
        decreases n - j,
    {
        let o = hsegs[j];
        if o.idx != t.idx && !(t.x1 + 1 > o.x2 || t.x2 - 1 < o.x1) {
            let dy = if t.y >= o.y {
                t.y - o.y
            } else {
                o.y - t.y
            };
            if dy < TRIANGLE2_LENGTH {
                let add = pow11_scaled(TRIANGLE2_LENGTH - dy);
                pressure = pressure + add as i128;
            }
        }
        j += 1;
    }
    let v = crate::line::stroke_line::floor_div(pressure, TRIANGLE2_LENGTH as i128 * 1048576);
    proof {
        crate::line::stroke_line::lemma_floor_div_nonneg(
            pressure as int,
            TRIANGLE2_LENGTH as int * 1048576,
        );
    }
    if v > TRIANGLE2_STEP as i128 {
        TRIANGLE2_STEP as usize
    } else {
        v as usize
    }
}

/// The per-stroke decoration parameters of a glyph's strokes: the flick,
/// curve, vertical, foot, triangle and slash passes, each a function of the
/// stroke list alone.
pub fn adjust_strokes(strokes: &Vec<StrokeLineType>) -> (r: Vec<AdjustedStroke>)
    requires
        spec_all_in_range(strokes@),
    ensures
        r@.len() == strokes@.len(),
        forall|i: int| 0 <= i < strokes@.len() ==> #[trigger] r@[i] == spec_adjusted(strokes@, i),
{
    let hsegs = hsegs_of(strokes);
    let vsegs = vsegs_of(strokes);
    let n = strokes.len();
    let mut r: Vec<AdjustedStroke> = Vec::new();
    let mut i: usize = 0;
    while i < n
        invariant
            i <= n,
            n == strokes@.len(),
            spec_all_in_range(strokes@),
            hsegs@ == spec_hsegs(strokes@),
            vsegs@ == spec_vsegs(strokes@),
            r@.len() == i,
            forall|k: int| 0 <= k < i ==> #[trigger] r@[k] == spec_adjusted(strokes@, k),
        decreases n - i,
    {
        r.push(
            AdjustedStroke {
                slash_adjustment: slash_adj_at(strokes, i),
                vertical_adjustment: vertical_adj_at(strokes, &vsegs, i),
                flick_adjustment: flick_adj_at(strokes, i),
                triangle_adjustment: triangle_adj_at(strokes, &hsegs, i),
                foot_adjustment: foot_adj_at(strokes, i),
                curve_adjustment: curve_adj_at(strokes, &hsegs, i),
            },
        );
        i += 1;
    }
    r
}

} // verus!
