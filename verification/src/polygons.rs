//! The polygon set: an append-only collection with a validity filter on
//! push, region transforms by bounding box, and SVG/EPS serialization.

use crate::geom::Point;
use crate::line::special_line::TransformType;
use crate::polygon::{spec_sat_add, spec_sat_neg, spec_to_tenths, Polygon};
use crate::text::{chars_to_string, digit_char, push_str_chars, spec_nat_chars};
use vstd::prelude::*;

verus! {

/// The x minimum of a contour, in tenths, seeded with the design-space
/// ceiling of 200 units, as the push-time filter seeds its scan.
pub open spec fn spec_min_x(pts: Seq<Point>) -> int
    decreases pts.len(),
{
    if pts.len() == 0 {
        2000
    } else {
        let rest = spec_min_x(pts.drop_last());
        if pts.last().x < rest {
            pts.last().x as int
        } else {
            rest
        }
    }
}

/// The x maximum of a contour, in tenths, seeded with zero.
pub open spec fn spec_max_x(pts: Seq<Point>) -> int
    decreases pts.len(),
{
    if pts.len() == 0 {
        0
    } else {
        let rest = spec_max_x(pts.drop_last());
        if pts.last().x > rest {
            pts.last().x as int
        } else {
            rest
        }
    }
}

pub open spec fn spec_min_y(pts: Seq<Point>) -> int
    decreases pts.len(),
{
    if pts.len() == 0 {
        2000
    } else {
        let rest = spec_min_y(pts.drop_last());
        if pts.last().y < rest {
            pts.last().y as int
        } else {
            rest
        }
    }
}

pub open spec fn spec_max_y(pts: Seq<Point>) -> int
    decreases pts.len(),
{
    if pts.len() == 0 {
        0
    } else {
        let rest = spec_max_y(pts.drop_last());
        if pts.last().y > rest {
            pts.last().y as int
        } else {
            rest
        }
    }
}

/// The validity filter of the polygon set: at least three points, and a
/// seeded extent check on both axes.  For contours inside the design space
/// this is exactly a nonzero extent on both axes.
pub open spec fn spec_polygon_ok(pts: Seq<Point>) -> bool {
    pts.len() >= 3 && spec_min_x(pts) != spec_max_x(pts) && spec_min_y(pts) != spec_max_y(pts)
}

/// Whether every point of the contour lies inside the box with whole-unit
/// diagonal corners `d1` and `d2`.
pub open spec fn spec_in_box(pts: Seq<Point>, d1: Point, d2: Point) -> bool {
    forall|i: int|
        0 <= i < pts.len() ==> 10 * d1.x <= (#[trigger] pts[i]).x <= 10 * d2.x && 10 * d1.y
            <= pts[i].y <= 10 * d2.y
}

/// One point of a region transform: the affine map of a special line, in
/// tenths, saturated at the machine range.
pub open spec fn spec_transform_point(t: TransformType, d1: Point, d2: Point, p: Point) -> Point {
    match t {
        TransformType::HorizontalFlip => Point {
            x: spec_sat_add(
                spec_sat_neg(p.x as int),
                spec_to_tenths(d1.x + d2.x),
            ) as i64,
            y: p.y,
            off_curve: p.off_curve,
        },
        TransformType::VerticalFlip => Point {
            x: p.x,
            y: spec_sat_add(
                spec_sat_neg(p.y as int),
                spec_to_tenths(d1.y + d2.y),
            ) as i64,
            off_curve: p.off_curve,
        },
        TransformType::Rotate90 => Point {
            x: spec_sat_add(
                spec_sat_neg(p.y as int),
                spec_to_tenths(d1.x + d2.y),
            ) as i64,
            y: spec_sat_add(p.x as int, spec_to_tenths(d1.y - d1.x)) as i64,
            off_curve: p.off_curve,
        },
        TransformType::Rotate180 => Point {
            x: spec_sat_add(
                spec_sat_neg(p.x as int),
                spec_to_tenths(d1.x + d2.x),
            ) as i64,
            y: spec_sat_add(
                spec_sat_neg(p.y as int),
                spec_to_tenths(d1.y + d2.y),
            ) as i64,
            off_curve: p.off_curve,
        },
        TransformType::Rotate270 => Point {
            x: spec_sat_add(p.y as int, spec_to_tenths(d1.x - d1.y)) as i64,
            y: spec_sat_add(
                spec_sat_neg(p.x as int),
                spec_to_tenths(d2.y + d1.x),
            ) as i64,
            off_curve: p.off_curve,
        },
    }
}

/// An append-only set of polygons; invalid contours are silently dropped.
#[derive(Debug)]
pub struct Polygons {
    array: Vec<Polygon>,
}

impl View for Polygons {
    type V = Seq<Seq<Point>>;

    closed spec fn view(&self) -> Seq<Seq<Point>> {
        self.array@.map_values(|p: Polygon| p@)
    }
}

impl Polygons {
    /// Every stored polygon passes the validity filter.
    pub open spec fn all_valid(&self) -> bool {
        forall|i: int| 0 <= i < self@.len() ==> spec_polygon_ok(#[trigger] self@[i])
    }

    pub fn new() -> (r: Polygons)
        ensures
            r@ == Seq::<Seq<Point>>::empty(),
            r.all_valid(),
    {
        Polygons { array: Vec::new() }
    }

    pub fn clear(&mut self)
        ensures
            final(self)@ == Seq::<Seq<Point>>::empty(),
            final(self).all_valid(),
    {
        self.array.clear();
        proof {
            assert(final(self)@ =~= Seq::<Seq<Point>>::empty());
        }
    }

    /// The stored polygons.
    pub fn array(&self) -> (r: &Vec<Polygon>)
        ensures
            r@.len() == self@.len(),
            forall|i: int| 0 <= i < self@.len() ==> (#[trigger] r@[i])@ == self@[i],
    {
        &self.array
    }

    pub fn len(&self) -> (n: usize)
        ensures
            n == self@.len(),
    {
        self.array.len()
    }

    /// Appends the polygon when it passes the validity filter (at least
    /// three points and an extent on both axes) and drops it silently
    /// otherwise.  A set whose polygons are all valid stays that way under
    /// any sequence of pushes.
    pub fn push(&mut self, polygon: Polygon)
        ensures
            final(self)@ == if spec_polygon_ok(polygon@) {
                old(self)@.push(polygon@)
            } else {
                old(self)@
            },
            old(self).all_valid() ==> final(self).all_valid(),
    {
        if polygon.len() < 3 {
            return;
        }
        let pts = polygon.points();
        let n = pts.len();
        let mut min_x: i64 = 2000;
        let mut max_x: i64 = 0;
        let mut min_y: i64 = 2000;
        let mut max_y: i64 = 0;
        let mut i: usize = 0;
        while i < n
            invariant
                i <= n,
                n == pts@.len(),
                pts@ == polygon@,
                min_x == spec_min_x(polygon@.take(i as int)),
                max_x == spec_max_x(polygon@.take(i as int)),
                min_y == spec_min_y(polygon@.take(i as int)),
                max_y == spec_max_y(polygon@.take(i as int)),
            decreases n - i,
        {
            let p = pts[i];
            proof {
                assert(polygon@.take(i + 1).drop_last() =~= polygon@.take(i as int));
                assert(polygon@.take(i + 1).last() == polygon@[i as int]);
            }
            if p.x < min_x {
                min_x = p.x;
            }
            if p.x > max_x {
                max_x = p.x;
            }
            if p.y < min_y {
                min_y = p.y;
            }
            if p.y > max_y {
                max_y = p.y;
            }
            i += 1;
        }
        proof {
            assert(polygon@.take(n as int) =~= polygon@);
        }
        if min_x != max_x && min_y != max_y {
            self.array.push(polygon);
            proof {
                assert(final(self)@ =~= old(self)@.push(polygon@));
            }
        }
    }

    /// Applies the affine transform of a special line, in place, to every
    /// polygon that lies entirely inside the box with whole-unit diagonal
    /// corners `d1` and `d2`; every other polygon is left untouched.
    pub fn transform_region(&mut self, t: TransformType, d1: Point, d2: Point)
        requires
            d1.in_range(),
            d2.in_range(),
        ensures
            final(self)@.len() == old(self)@.len(),
            forall|i: int|
                0 <= i < old(self)@.len() ==> final(self)@[i] == if spec_in_box(
                    #[trigger] old(self)@[i],
                    d1,
                    d2,
                ) {
                    old(self)@[i].map_values(|p: Point| spec_transform_point(t, d1, d2, p))
                } else {
                    old(self)@[i]
                },
    {
        let n = self.array.len();
        let mut i: usize = 0;
        while i < n
            invariant
                i <= n,
                n == self.array@.len(),
                self@.len() == old(self)@.len(),
                d1.in_range(),
                d2.in_range(),
                forall|k: int| i <= k < n ==> self@[k] == old(self)@[k],
                forall|k: int|
                    0 <= k < i ==> self@[k] == if spec_in_box(#[trigger] old(self)@[k], d1, d2) {
                        old(self)@[k].map_values(|p: Point| spec_transform_point(t, d1, d2, p))
                    } else {
                        old(self)@[k]
                    },
            decreases n - i,
        {
            proof {
                assert(self@[i as int] == self.array@[i as int]@);
            }
            if polygon_in_box(&self.array[i], d1, d2) {
                let ghost pre = self@;
                let ghost pre_arr = self.array@;
                let transformed = transform_polygon(&self.array[i], t, d1, d2);
                self.array[i] = transformed;
                proof {
                    assert(self.array@ == pre_arr.update(i as int, transformed));
                    assert forall|k: int| 0 <= k < n implies #[trigger] self@[k] == (if k
                        == i as int {
                        pre[i as int].map_values(|p: Point| spec_transform_point(t, d1, d2, p))
                    } else {
                        pre[k]
                    }) by {
                        assert(self@[k] == self.array@[k]@);
                        assert(pre[k] == pre_arr[k]@);
                    }
                }
            }
            i += 1;
        }
    }
}

/// Whether every point of the polygon lies inside the box.
fn polygon_in_box(polygon: &Polygon, d1: Point, d2: Point) -> (r: bool)
    requires
        d1.in_range(),
        d2.in_range(),
    ensures
        r == spec_in_box(polygon@, d1, d2),
{
    let pts = polygon.points();
    let n = pts.len();
    let lo_x: i64 = d1.x * 10;
    let hi_x: i64 = d2.x * 10;
    let lo_y: i64 = d1.y * 10;
    let hi_y: i64 = d2.y * 10;
    let mut i: usize = 0;
    while i < n
        invariant
            i <= n,
            n == pts@.len(),
            pts@ == polygon@,
            lo_x == 10 * d1.x,
            hi_x == 10 * d2.x,
            lo_y == 10 * d1.y,
            hi_y == 10 * d2.y,
            forall|k: int|
                0 <= k < i ==> 10 * d1.x <= (#[trigger] polygon@[k]).x <= 10 * d2.x && 10 * d1.y
                    <= polygon@[k].y <= 10 * d2.y,
        decreases n - i,
    {
        let p = pts[i];
        if !(lo_x <= p.x && p.x <= hi_x && lo_y <= p.y && p.y <= hi_y) {
            return false;
        }
        i += 1;
    }
    true
}

/// The polygon with the region transform applied to each point.
fn transform_polygon(polygon: &Polygon, t: TransformType, d1: Point, d2: Point) -> (r: Polygon)
    requires
        d1.in_range(),
        d2.in_range(),
    ensures
        r@ == polygon@.map_values(|p: Point| spec_transform_point(t, d1, d2, p)),
{
    let pts = polygon.points();
    let n = pts.len();
    let mut out = Polygon::new_empty_with_capacity(n);
    let mut i: usize = 0;
    while i < n
        invariant
            i <= n,
            n == pts@.len(),
            pts@ == polygon@,
            d1.in_range(),
            d2.in_range(),
            out@ == polygon@.take(i as int).map_values(|p: Point| spec_transform_point(t, d1, d2, p)),
        decreases n - i,
    {
        let p = pts[i];
        let q = transform_point(t, d1, d2, p);
        out.push_tenths(q);
        proof {
            assert(polygon@.take(i + 1).drop_last() =~= polygon@.take(i as int));
            assert(out@ =~= polygon@.take(i + 1).map_values(
                |p: Point| spec_transform_point(t, d1, d2, p),
            ));
        }
        i += 1;
    }
    proof {
        assert(polygon@.take(n as int) =~= polygon@);
    }
    out
}

fn sat_add_t(a: i64, b: i64) -> (r: i64)
    ensures
        r == spec_sat_add(a as int, b as int),
{
    match a.checked_add(b) {
        Some(v) => v,
        None => {
            if a > 0 {
                i64::MAX
            } else {
                i64::MIN
            }
        },
    }
}

fn sat_neg_t(a: i64) -> (r: i64)
    ensures
        r == spec_sat_neg(a as int),
{
    if a == i64::MIN {
        i64::MAX
    } else {
        -a
    }
}

fn transform_point(t: TransformType, d1: Point, d2: Point, p: Point) -> (r: Point)
    requires
        d1.in_range(),
        d2.in_range(),
    ensures
        r == spec_transform_point(t, d1, d2, p),
{
    match t {
        TransformType::HorizontalFlip => Point {
            x: sat_add_t(sat_neg_t(p.x), (d1.x + d2.x) * 10),
            y: p.y,
            off_curve: p.off_curve,
        },
        TransformType::VerticalFlip => Point {
            x: p.x,
            y: sat_add_t(sat_neg_t(p.y), (d1.y + d2.y) * 10),
            off_curve: p.off_curve,
        },
        TransformType::Rotate90 => Point {
            x: sat_add_t(sat_neg_t(p.y), (d1.x + d2.y) * 10),
            y: sat_add_t(p.x, (d1.y - d1.x) * 10),
            off_curve: p.off_curve,
        },
        TransformType::Rotate180 => Point {
            x: sat_add_t(sat_neg_t(p.x), (d1.x + d2.x) * 10),
            y: sat_add_t(sat_neg_t(p.y), (d1.y + d2.y) * 10),
            off_curve: p.off_curve,
        },
        TransformType::Rotate270 => Point {
            x: sat_add_t(p.y, (d1.x - d1.y) * 10),
            y: sat_add_t(sat_neg_t(p.x), (d2.y + d1.x) * 10),
            off_curve: p.off_curve,
        },
    }
}


/// The decimal spelling of a coordinate in tenths: the whole units, then the
/// tenth digit when it is not zero.
pub open spec fn spec_tenths_chars(t: int) -> Seq<char> {
    let sign: Seq<char> = if t < 0 {
        seq!['-']
    } else {
        Seq::empty()
    };
    let m = if t < 0 {
        -t
    } else {
        t
    };
    sign + spec_nat_chars(m / 10) + if m % 10 == 0 {
        Seq::<char>::empty()
    } else {
        seq!['.', digit_char(m % 10)]
    }
}

/// The decimal spelling of a coordinate in halves: the whole units, then
/// `.5` for an odd value.
pub open spec fn spec_halves_chars(h: int) -> Seq<char> {
    let sign: Seq<char> = if h < 0 {
        seq!['-']
    } else {
        Seq::empty()
    };
    let m = if h < 0 {
        -h
    } else {
        h
    };
    sign + spec_nat_chars(m / 2) + if m % 2 == 0 {
        Seq::<char>::empty()
    } else {
        seq!['.', '5']
    }
}

/// The `points` attribute of one polygon element: each vertex as
/// `x,y&#32;`.
pub open spec fn spec_points_attr(pts: Seq<Point>) -> Seq<char>
    decreases pts.len(),
{
    if pts.len() == 0 {
        Seq::empty()
    } else {
        spec_points_attr(pts.drop_last()) + spec_tenths_chars(pts.last().x as int) + seq![',']
            + spec_tenths_chars(pts.last().y as int) + seq![' ']
    }
}

/// Whether a point is an off-curve control point.
pub open spec fn spec_is_off(p: Point) -> bool {
    p.off_curve == Some(true)
}

/// The path commands of one polygon, walked from vertex `j` with the mode
/// reached so far: `M` opens, an off-curve vertex switches to `Q`, an
/// on-curve vertex after an on-curve one writes `L` (also right after the
/// opening), and other vertices continue the previous command.
pub open spec fn spec_path_cmds(pts: Seq<Point>, j: int, q_mode: bool) -> Seq<char>
    decreases pts.len() - j,
{
    if j < 0 || j >= pts.len() {
        Seq::empty()
    } else {
        let off_j = spec_is_off(pts[j]);
        let prefix: Seq<char> = if j == 0 {
            "M "@
        } else if off_j {
            "Q "@
        } else if q_mode && !spec_is_off(pts[j - 1]) {
            "L "@
        } else if !q_mode && j == 1 {
            "L "@
        } else {
            Seq::empty()
        };
        let next_mode = if j == 0 {
            q_mode
        } else {
            q_mode || off_j
        };
        prefix + spec_tenths_chars(pts[j].x as int) + seq![','] + spec_tenths_chars(
            pts[j].y as int,
        ) + seq![' '] + spec_path_cmds(pts, j + 1, next_mode)
    }
}

/// The path elements of the polygons, one `<path>` per polygon.
pub open spec fn spec_svg_paths(polys: Seq<Seq<Point>>) -> Seq<char>
    decreases polys.len(),
{
    if polys.len() == 0 {
        Seq::empty()
    } else {
        spec_svg_paths(polys.drop_last()) + "<path d=\""@ + spec_path_cmds(polys.last(), 0, false)
            + "Z\" fill=\"black\" />\n"@
    }
}

/// The polygon elements of the polygons, one `<polygon>` per polygon.
pub open spec fn spec_svg_polygons(polys: Seq<Seq<Point>>) -> Seq<char>
    decreases polys.len(),
{
    if polys.len() == 0 {
        Seq::empty()
    } else {
        spec_svg_polygons(polys.drop_last()) + "<polygon points=\""@ + spec_points_attr(
            polys.last(),
        ) + "\" />\n"@
    }
}

/// The SVG document of the polygons: a 200 by 200 view box holding either
/// one path per polygon (curve mode) or one group of polygon elements.
pub open spec fn spec_generate_svg(polys: Seq<Seq<Point>>, curve: bool) -> Seq<char> {
    let header =
        "<svg xmlns=\"http://www.w3.org/2000/svg\" xmlns:xlink=\"http://www.w3.org/1999/xlink\" version=\"1.1\" baseProfile=\"full\" viewBox=\"0 0 200 200\" width=\"200\" height=\"200\">\n"@;
    if curve {
        header + spec_svg_paths(polys) + "</svg>\n"@
    } else {
        header + "<g fill=\"black\">\n"@ + spec_svg_polygons(polys) + "</g>\n"@ + "</svg>\n"@
    }
}

/// One vertex of an EPS path: x scaled by five, y mapped to
/// `1000 - 5 y - 200`, as coordinates in halves of a design unit.
pub open spec fn spec_eps_point(p: Point, j: int) -> Seq<char> {
    spec_halves_chars(p.x as int) + seq![' '] + spec_halves_chars(1600 - p.y as int) + seq![' ']
        + if j == 0 {
        "newpath\nmoveto\n"@
    } else {
        "lineto\n"@
    }
}

/// The vertices of one EPS path, in order.
pub open spec fn spec_eps_points(pts: Seq<Point>) -> Seq<char>
    decreases pts.len(),
{
    if pts.len() == 0 {
        Seq::empty()
    } else {
        spec_eps_points(pts.drop_last()) + spec_eps_point(pts.last(), pts.len() - 1)
    }
}

/// The filled paths of the polygons in EPS form.
pub open spec fn spec_eps_body(polys: Seq<Seq<Point>>) -> Seq<char>
    decreases polys.len(),
{
    if polys.len() == 0 {
        Seq::empty()
    } else {
        spec_eps_body(polys.drop_last()) + spec_eps_points(polys.last()) + "closepath\nfill\n"@
    }
}

/// The EPS document of the polygons, stamped with the given creation time.
pub open spec fn spec_generate_eps(polys: Seq<Seq<Point>>, timestamp: Seq<char>) -> Seq<char> {
    "%!PS-Adobe-3.0 EPSF-3.0\n%%BoundingBox: 0 -208 1024 816\n%%Pages: 0\n%%Title: Kanji glyph\n%%Creator: GlyphWiki powered by KAGE system\n%%CreationDate: "@
        + timestamp
        + "\n%%EndComments\n%%EndProlog\n"@ + spec_eps_body(polys) + "%%EOF\n"@
}

/// Appends the tenths spelling of `t`.
fn fmt_tenths(t: i64, out: &mut Vec<char>)
    ensures
        final(out)@ == old(out)@ + spec_tenths_chars(t as int),
{
    if t < 0 {
        out.push('-');
    }
    let m: u64 = if t < 0 {
        if t == i64::MIN {
            9_223_372_036_854_775_808
        } else {
            (-t) as u64
        }
    } else {
        t as u64
    };
    crate::text::fmt_nat_units(m / 10, out);
    let frac = m % 10;
    if frac != 0 {
        out.push('.');
        out.push(crate::text::digit_char_of(frac));
    }
    proof {
        assert(final(out)@ =~= old(out)@ + spec_tenths_chars(t as int));
    }
}

/// Appends the halves spelling of `h`.
fn fmt_halves(h: i128, out: &mut Vec<char>)
    requires
        -10_000_000_000_000_000_000 <= h <= 10_000_000_000_000_000_000,
    ensures
        final(out)@ == old(out)@ + spec_halves_chars(h as int),
{
    if h < 0 {
        out.push('-');
    }
    let m: u64 = if h < 0 {
        (-h) as u64
    } else {
        h as u64
    };
    crate::text::fmt_nat_units(m / 2, out);
    if m % 2 != 0 {
        out.push('.');
        out.push('5');
    }
    proof {
        assert(final(out)@ =~= old(out)@ + spec_halves_chars(h as int));
    }
}

impl Polygons {
    /// The SVG document of the stored polygons.
    pub fn generate_svg(&self, curve: bool) -> (r: String)
        ensures
            r@ == spec_generate_svg(self@, curve),
    {
        let mut out: Vec<char> = Vec::new();
        push_str_chars(
            &mut out,
            "<svg xmlns=\"http://www.w3.org/2000/svg\" xmlns:xlink=\"http://www.w3.org/1999/xlink\" version=\"1.1\" baseProfile=\"full\" viewBox=\"0 0 200 200\" width=\"200\" height=\"200\">\n",
        );
        let n = self.array.len();
        if curve {
            let mut i: usize = 0;
            while i < n
                invariant
                    i <= n,
                    n == self@.len(),
                    n == self.array@.len(),
                    forall|k: int| 0 <= k < n ==> (#[trigger] self.array@[k])@ == self@[k],
                    out@
                        == "<svg xmlns=\"http://www.w3.org/2000/svg\" xmlns:xlink=\"http://www.w3.org/1999/xlink\" version=\"1.1\" baseProfile=\"full\" viewBox=\"0 0 200 200\" width=\"200\" height=\"200\">\n"@
                        + spec_svg_paths(self@.take(i as int)),
                decreases n - i,
            {
                self.emit_path(i, &mut out);
                proof {
                    assert(self@.take(i + 1).drop_last() =~= self@.take(i as int));
                    assert(self@.take(i + 1).last() == self@[i as int]);
                }
                i += 1;
            }
            push_str_chars(&mut out, "</svg>\n");
            proof {
                assert(self@.take(n as int) =~= self@);
                assert(out@ =~= spec_generate_svg(self@, true));
            }
        } else {
            push_str_chars(&mut out, "<g fill=\"black\">\n");
            let ghost head = out@;
            let mut i: usize = 0;
            while i < n
                invariant
                    i <= n,
                    n == self@.len(),
                    n == self.array@.len(),
                    forall|k: int| 0 <= k < n ==> (#[trigger] self.array@[k])@ == self@[k],
                    out@ == head + spec_svg_polygons(self@.take(i as int)),
                decreases n - i,
            {
                push_str_chars(&mut out, "<polygon points=\"");
                let pts = self.array[i].points();
                let m = pts.len();
                let ghost before = out@;
                let mut j: usize = 0;
                while j < m
                    invariant
                        j <= m,
                        m == pts@.len(),
                        pts@ == self.array@[i as int]@,
                        out@ == before + spec_points_attr(pts@.take(j as int)),
                    decreases m - j,
                {
                    let p = pts[j];
                    fmt_tenths(p.x, &mut out);
                    out.push(',');
                    fmt_tenths(p.y, &mut out);
                    out.push(' ');
                    proof {
                        assert(pts@.take(j + 1).drop_last() =~= pts@.take(j as int));
                        assert(out@ =~= before + spec_points_attr(pts@.take(j + 1)));
                    }
                    j += 1;
                }
                push_str_chars(&mut out, "\" />\n");
                proof {
                    assert(pts@.take(m as int) =~= pts@);
                    assert(self@.take(i + 1).drop_last() =~= self@.take(i as int));
                    assert(self@.take(i + 1).last() == self@[i as int]);
                    assert(out@ =~= head + spec_svg_polygons(self@.take(i + 1)));
                }
                i += 1;
            }
            push_str_chars(&mut out, "</g>\n");
            push_str_chars(&mut out, "</svg>\n");
            proof {
                assert(self@.take(n as int) =~= self@);
                assert(out@ =~= spec_generate_svg(self@, false));
            }
        }
        chars_to_string(&out)
    }

    /// Appends the path element of polygon `i`.
    #[verifier::rlimit(100)]
    fn emit_path(&self, i: usize, out: &mut Vec<char>)
        requires
            i < self@.len(),
        ensures
            final(out)@ == old(out)@ + "<path d=\""@ + spec_path_cmds(self@[i as int], 0, false)
                + "Z\" fill=\"black\" />\n"@,
    {
        push_str_chars(out, "<path d=\"");
        let pts = self.array[i].points();
        let m = pts.len();
        let ghost start = out@;
        let mut j: usize = 0;
        let mut q_mode = false;
        while j < m
            invariant
                j <= m,
                m == pts@.len(),
                pts@ == self@[i as int],
                start + spec_path_cmds(pts@, 0, false) == out@ + spec_path_cmds(
                    pts@,
                    j as int,
                    q_mode,
                ),
            decreases m - j,
        {
            let ghost q0 = q_mode;
            let ghost out0 = out@;
            let p = pts[j];
            let off_j = match p.off_curve {
                Some(true) => true,
                _ => false,
            };
            if j == 0 {
                push_str_chars(out, "M ");
            } else if off_j {
                push_str_chars(out, "Q ");
            } else {
                let prev_off = match pts[j - 1].off_curve {
                    Some(true) => true,
                    _ => false,
                };
                if q_mode && !prev_off {
                    push_str_chars(out, "L ");
                } else if !q_mode && j == 1 {
                    push_str_chars(out, "L ");
                }
            }
            fmt_tenths(p.x, out);
            out.push(',');
            fmt_tenths(p.y, out);
            out.push(' ');
            if j > 0 && off_j {
                q_mode = true;
            }
            proof {
                let jj = j as int;
                let prefix_spec: Seq<char> = if jj == 0 {
                    "M "@
                } else if spec_is_off(pts@[jj]) {
                    "Q "@
                } else if q0 && !spec_is_off(pts@[jj - 1]) {
                    "L "@
                } else if !q0 && jj == 1 {
                    "L "@
                } else {
                    Seq::empty()
                };
                let next_mode = if jj == 0 {
                    q0
                } else {
                    q0 || spec_is_off(pts@[jj])
                };
                assert(q_mode == next_mode);
                assert(out@ =~= out0 + prefix_spec + spec_tenths_chars(pts@[jj].x as int)
                    + seq![','] + spec_tenths_chars(pts@[jj].y as int) + seq![' ']);
                assert(spec_path_cmds(pts@, jj, q0) =~= prefix_spec + spec_tenths_chars(
                    pts@[jj].x as int,
                ) + seq![','] + spec_tenths_chars(pts@[jj].y as int) + seq![' ']
                    + spec_path_cmds(pts@, jj + 1, next_mode));
                assert(out@ + spec_path_cmds(pts@, jj + 1, next_mode) =~= start
                    + spec_path_cmds(pts@, 0, false));
            }
            j += 1;
        }
        proof {
            assert(spec_path_cmds(pts@, m as int, q_mode) =~= Seq::<char>::empty());
            assert(out@ =~= start + spec_path_cmds(pts@, 0, false));
        }
        push_str_chars(out, "Z\" fill=\"black\" />\n");
        proof {
            assert(final(out)@ =~= old(out)@ + "<path d=\""@ + spec_path_cmds(
                self@[i as int],
                0,
                false,
            ) + "Z\" fill=\"black\" />\n"@);
        }
    }

    /// The EPS document of the stored polygons, stamped with the given
    /// creation time.
    pub fn generate_eps_with_timestamp(&self, timestamp: &str) -> (r: String)
        ensures
            r@ == spec_generate_eps(self@, timestamp@),
    {
        let mut out: Vec<char> = Vec::new();
        push_str_chars(
            &mut out,
            "%!PS-Adobe-3.0 EPSF-3.0\n%%BoundingBox: 0 -208 1024 816\n%%Pages: 0\n%%Title: Kanji glyph\n%%Creator: GlyphWiki powered by KAGE system\n%%CreationDate: ",
        );
        push_str_chars(&mut out, timestamp);
        push_str_chars(&mut out, "\n%%EndComments\n%%EndProlog\n");
        let ghost head = out@;
        let n = self.array.len();
        let mut i: usize = 0;
        while i < n
            invariant
                i <= n,
                n == self@.len(),
                n == self.array@.len(),
                forall|k: int| 0 <= k < n ==> (#[trigger] self.array@[k])@ == self@[k],
                out@ == head + spec_eps_body(self@.take(i as int)),
            decreases n - i,
        {
            let pts = self.array[i].points();
            let m = pts.len();
            let ghost before = out@;
            let mut j: usize = 0;
            while j < m
                invariant
                    j <= m,
                    m == pts@.len(),
                    pts@ == self.array@[i as int]@,
                    out@ == before + spec_eps_points(pts@.take(j as int)),
                decreases m - j,
            {
                let p = pts[j];
                fmt_halves(p.x as i128, &mut out);
                out.push(' ');
                fmt_halves(1600 - (p.y as i128), &mut out);
                out.push(' ');
                if j == 0 {
                    push_str_chars(&mut out, "newpath\nmoveto\n");
                } else {
                    push_str_chars(&mut out, "lineto\n");
                }
                proof {
                    assert(pts@.take(j + 1).drop_last() =~= pts@.take(j as int));
                    assert(out@ =~= before + spec_eps_points(pts@.take(j + 1)));
                }
                j += 1;
            }
            push_str_chars(&mut out, "closepath\nfill\n");
            proof {
                assert(pts@.take(m as int) =~= pts@);
                assert(self@.take(i + 1).drop_last() =~= self@.take(i as int));
                assert(self@.take(i + 1).last() == self@[i as int]);
                assert(out@ =~= head + spec_eps_body(self@.take(i + 1)));
            }
            i += 1;
        }
        push_str_chars(&mut out, "%%EOF\n");
        proof {
            assert(self@.take(n as int) =~= self@);
            assert(out@ =~= spec_generate_eps(self@, timestamp@));
        }
        chars_to_string(&out)
    }

    /// The EPS document of the stored polygons, stamped with the local
    /// time of the call.
    pub fn generate_eps(&self) -> (r: String)
        ensures
            exists|ts: Seq<char>| r@ == spec_generate_eps(self@, ts),
    {
        let timestamp = local_time();
        let r = self.generate_eps_with_timestamp(timestamp.as_str());
        proof {
            assert(r@ == spec_generate_eps(self@, timestamp@));
        }
        r
    }
}

/// Relies on the time crate: OffsetDateTime::now_local for the clock
/// reading, format_description::parse and OffsetDateTime::format for its
/// spelling.  The result depends on the clock, so nothing is promised of
/// it; any failure yields a fixed fallback text.
#[verifier::external_body]
fn local_time() -> (r: String) {
    let fmt = time::format_description::parse(
        "[weekday repr:short] [month repr:short] [day padding:zero] [year] [hour]:[minute]:[second] GMT[offset_hour sign:mandatory][offset_minute]",
    );
    match (time::OffsetDateTime::now_local(), fmt) {
        (Ok(now), Ok(f)) => match now.format(&f) {
            Ok(s) => s,
            Err(_) => String::from("Unknown Time"),
        },
        _ => String::from("Unknown Time"),
    }
}

} // verus!
