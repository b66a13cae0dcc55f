//! The glyph engine: a component store and a typeface, with the recursive
//! expansion of a glyph record into a flat list of lines.
//!
//! A component reference inlines the referenced record: its stroke lines
//! (special lines and nested references do not propagate) are optionally
//! stretched about a pivot, then scaled into the reference's box.  Expansion
//! follows references up to a fixed depth; a cycle in the store exhausts the
//! depth and contributes nothing further.

use crate::component::Components;
use crate::font::{FontWrapper, Typeface};
use crate::geom::Point;
use crate::line::stroke_line::{
    spec_floor_div, Bounds, StrokeLineType,
};
use crate::line::{spec_parse_line, Line, LineModel};
use crate::text::{spec_clamp, spec_split, split_str};
use vstd::prelude::*;

verus! {

/// How many levels of component references an expansion follows.
pub const EXPANSION_DEPTH: usize = 64;

/// The glyph engine: its component store and its typeface.
pub struct Kage {
    pub components: Components,
    pub font: FontWrapper,
}

/// One coordinate scaled into a box: `b + v * span / 200`, floored and
/// clamped to the coordinate range.
pub open spec fn spec_scale_coord(b: int, span: int, v: int) -> int {
    spec_clamp(b + spec_floor_div(v * span, 200))
}

/// A point scaled into the box with diagonal corners `d1` and `d2`.
pub open spec fn spec_scale_point(d1: Point, d2: Point, p: Point) -> Point {
    Point {
        x: spec_scale_coord(d1.x as int, d2.x - d1.x, p.x as int) as i64,
        y: spec_scale_coord(d1.y as int, d2.y - d1.y, p.y as int) as i64,
        off_curve: p.off_curve,
    }
}

/// A stroke with all four control points scaled into the box.
pub open spec fn spec_scale_stroke(d1: Point, d2: Point, s: StrokeLineType) -> StrokeLineType {
    StrokeLineType {
        point_1: spec_scale_point(d1, d2, s.point_1),
        point_2: spec_scale_point(d1, d2, s.point_2),
        point_3: spec_scale_point(d1, d2, s.point_3),
        point_4: spec_scale_point(d1, d2, s.point_4),
        ..s
    }
}

/// The stroke lines of an expanded line list, in order.
pub open spec fn spec_filter_strokes(lines: Seq<LineModel>) -> Seq<StrokeLineType>
    decreases lines.len(),
{
    if lines.len() == 0 {
        Seq::empty()
    } else {
        spec_filter_strokes(lines.drop_last()) + match lines.last() {
            LineModel::StrokeLine(s) => seq![s],
            _ => Seq::<StrokeLineType>::empty(),
        }
    }
}

/// The bounding box of all strokes' control points, seeded with the design
/// space: minima start at 200 and maxima at 0.
pub open spec fn spec_strokes_box(strokes: Seq<StrokeLineType>) -> Bounds
    decreases strokes.len(),
{
    if strokes.len() == 0 {
        Bounds {
            min_point: Point { x: 200, y: 200, off_curve: None },
            max_point: Point { x: 0, y: 0, off_curve: None },
        }
    } else {
        let rest = spec_strokes_box(strokes.drop_last());
        match strokes.last().spec_get_box() {
            Some(b) => Bounds {
                min_point: Point {
                    x: if b.min_point.x < rest.min_point.x {
                        b.min_point.x
                    } else {
                        rest.min_point.x
                    },
                    y: if b.min_point.y < rest.min_point.y {
                        b.min_point.y
                    } else {
                        rest.min_point.y
                    },
                    off_curve: None,
                },
                max_point: Point {
                    x: if b.max_point.x > rest.max_point.x {
                        b.max_point.x
                    } else {
                        rest.max_point.x
                    },
                    y: if b.max_point.y > rest.max_point.y {
                        b.max_point.y
                    } else {
                        rest.max_point.y
                    },
                    off_curve: None,
                },
            },
            None => rest,
        }
    }
}

/// The destination and source pivots of a reference.  A zero primary pivot
/// disables stretching; a primary x above 100 selects two-pivot form and is
/// rebased by 200, otherwise the secondary pivot is cleared.
pub open spec fn spec_pivots(pp: Point, sp: Point) -> (Point, Point) {
    if pp.x != 0 || pp.y != 0 {
        if pp.x > 100 {
            (Point { x: (pp.x - 200) as i64, y: pp.y, off_curve: pp.off_curve }, sp)
        } else {
            (pp, Point { x: 0, y: 0, off_curve: None })
        }
    } else {
        (pp, sp)
    }
}

/// The strokes stretched about the pivots; a stroke whose stretch is
/// undefined on a degenerate span is dropped.
pub open spec fn spec_stretch_strokes(
    strokes: Seq<StrokeLineType>,
    dest: Point,
    src: Point,
    lo: Point,
    hi: Point,
) -> Seq<StrokeLineType>
    decreases strokes.len(),
{
    if strokes.len() == 0 {
        Seq::empty()
    } else {
        spec_stretch_strokes(strokes.drop_last(), dest, src, lo, hi) + match strokes.last()
            .spec_stretch(dest, src, lo, hi) {
            Some(s) => seq![s],
            None => Seq::<StrokeLineType>::empty(),
        }
    }
}

/// The lines of an expanded record, walking the `$`-split tokens from index
/// `i` with the given reference depth left.
pub open spec fn spec_expand_tokens(
    m: Map<Seq<char>, Seq<char>>,
    toks: Seq<Seq<char>>,
    i: int,
    fuel: nat,
) -> Seq<LineModel>
    decreases fuel, 0int, toks.len() - i,
{
    if i < 0 || i >= toks.len() {
        Seq::empty()
    } else {
        let rest = spec_expand_tokens(m, toks, i + 1, fuel);
        match spec_parse_line(toks[i]) {
            LineModel::StrokeLine(s) => seq![LineModel::StrokeLine(s)] + rest,
            LineModel::SpecialLine(s) => seq![LineModel::SpecialLine(s)] + rest,
            LineModel::ComponentReferenceLine(c) => (if m.dom().contains(c.name) && fuel > 0 {
                spec_expand_component(m, m[c.name], c.box_diag_1, c.box_diag_2,
                    c.primary_control_point, c.secondary_control_point, (fuel - 1) as nat)
            } else {
                Seq::<LineModel>::empty()
            }) + rest,
            LineModel::Unknown => rest,
        }
    }
}

/// The strokes contributed by one component reference: the referenced
/// record expanded, reduced to its stroke lines, stretched about the pivots
/// where one is set, and scaled into the reference's box.
pub open spec fn spec_expand_component(
    m: Map<Seq<char>, Seq<char>>,
    child_data: Seq<char>,
    d1: Point,
    d2: Point,
    pp: Point,
    sp: Point,
    fuel: nat,
) -> Seq<LineModel>
    decreases fuel, 1int, 0int,
{
    let child_lines = spec_expand_tokens(m, spec_split(child_data, '$'), 0, fuel);
    let strokes = spec_filter_strokes(child_lines);
    let pivots = spec_pivots(pp, sp);
    let dest = pivots.0;
    let src = pivots.1;
    let stretched = if (dest.x != 0 || dest.y != 0) && strokes.len() > 0 {
        let bounds = spec_strokes_box(strokes);
        spec_stretch_strokes(strokes, dest, src, bounds.min_point, bounds.max_point)
    } else {
        strokes
    };
    stretched.map_values(|s: StrokeLineType| spec_scale_stroke(d1, d2, s)).map_values(
        |s: StrokeLineType| LineModel::StrokeLine(s),
    )
}

/// The lines of an expanded glyph record.
pub open spec fn spec_expand_data(
    m: Map<Seq<char>, Seq<char>>,
    data: Seq<char>,
    fuel: nat,
) -> Seq<LineModel> {
    spec_expand_tokens(m, spec_split(data, '$'), 0, fuel)
}

impl Kage {
    pub fn new(typeface: Typeface, use_curve: bool) -> (r: Kage)
        ensures
            r.components@ == Map::<Seq<char>, Seq<char>>::empty(),
            r.components.wf(),
            r.font == match typeface {
                Typeface::Ming => FontWrapper::MingStyle { use_curve },
                Typeface::Gothic => FontWrapper::GothicStyle,
            },
    {
        Kage { components: Components::new(), font: FontWrapper::new(typeface, use_curve) }
    }

    pub fn set_use_curve(&mut self, use_curve: bool)
        ensures
            final(self).components == old(self).components,
            final(self).font == match old(self).font {
                FontWrapper::MingStyle { .. } => FontWrapper::MingStyle { use_curve },
                FontWrapper::GothicStyle => FontWrapper::GothicStyle,
            },
    {
        self.font.set_use_curve(use_curve);
    }

    /// Expands a glyph record into its flat list of lines, resolving
    /// component references against the store up to the expansion depth.
    pub fn get_each_expanded_line(&self, glyph_data: &str) -> (r: Vec<Line>)
        requires
            self.components.wf(),
        ensures
            r@.map_values(|l: Line| l@) == spec_expand_data(
                self.components@,
                glyph_data@,
                EXPANSION_DEPTH as nat,
            ),
            forall|i: int|
                0 <= i < r@.len() ==> (#[trigger] r@[i]) is StrokeLine ==> r@[i]->StrokeLine_0.points_in_range(),
    {
        self.expand_data(glyph_data, EXPANSION_DEPTH)
    }

    #[verifier::rlimit(100)]
    fn expand_data(&self, data: &str, fuel: usize) -> (r: Vec<Line>)
        requires
            self.components.wf(),
        ensures
            r@.map_values(|l: Line| l@) == spec_expand_data(
                self.components@,
                data@,
                fuel as nat,
            ),
            forall|i: int|
                0 <= i < r@.len() ==> (#[trigger] r@[i]) is StrokeLine ==> r@[i]->StrokeLine_0.points_in_range(),
        decreases fuel, 0int,
    {
        let ghost m = self.components@;
        let tokens = split_str(data, '$');
        let ghost toks = spec_split(data@, '$');
        proof {
            assert(tokens@.map_values(|t: String| t@) =~= toks);
        }
        let n = tokens.len();
        let mut lines: Vec<Line> = Vec::new();
        let mut i: usize = 0;
        while i < n
            invariant
                i <= n,
                n == tokens@.len(),
                self.components.wf(),
                m == self.components@,
                toks == tokens@.map_values(|t: String| t@),
                spec_expand_tokens(m, toks, 0, fuel as nat) == lines@.map_values(|l: Line| l@)
                    + spec_expand_tokens(m, toks, i as int, fuel as nat),
                forall|k: int|
                    0 <= k < lines@.len() ==> (#[trigger] lines@[k]) is StrokeLine
                        ==> lines@[k]->StrokeLine_0.points_in_range(),
            decreases n - i,
        {
            let ghost lines0 = lines@;
            let line = Line::new(tokens[i].as_str());
            proof {
                assert(tokens@[i as int]@ == toks[i as int]);
            }
            match line {
                Line::StrokeLine(stroke_line) => {
                    lines.push(Line::StrokeLine(stroke_line));
                    proof {
                        lemma_parsed_stroke_in_range(toks[i as int]);
                        assert(lines@.map_values(|l: Line| l@) =~= lines0.map_values(
                            |l: Line| l@,
                        ).push(LineModel::StrokeLine(stroke_line)));
                        assert(spec_expand_tokens(m, toks, i as int, fuel as nat)
                            =~= seq![LineModel::StrokeLine(stroke_line)] + spec_expand_tokens(
                            m,
                            toks,
                            i + 1,
                            fuel as nat,
                        ));
                    }
                },
                Line::SpecialLine(special_line) => {
                    lines.push(Line::SpecialLine(special_line));
                    proof {
                        assert(lines@.map_values(|l: Line| l@) =~= lines0.map_values(
                            |l: Line| l@,
                        ).push(LineModel::SpecialLine(special_line)));
                        assert(spec_expand_tokens(m, toks, i as int, fuel as nat)
                            =~= seq![LineModel::SpecialLine(special_line)] + spec_expand_tokens(
                            m,
                            toks,
                            i + 1,
                            fuel as nat,
                        ));
                    }
                },
                Line::ComponentReferenceLine(reference) => {
                    let ghost c = reference@;
                    if fuel > 0 {
                        match self.components.search(reference.component_name.as_str()) {
                            Some(child_data) => {
                                let mut expanded = self.expand_component_strokes(
                                    child_data,
                                    reference.box_diag_1,
                                    reference.box_diag_2,
                                    reference.primary_control_point,
                                    reference.secondary_control_point,
                                    fuel - 1,
                                );
                                let ghost expanded0 = expanded@;
                                lines.append(&mut expanded);
                                proof {
                                    assert(lines@.map_values(|l: Line| l@) =~= lines0.map_values(
                                        |l: Line| l@,
                                    ) + expanded0.map_values(|l: Line| l@));
                                    assert(spec_expand_tokens(m, toks, i as int, fuel as nat)
                                        =~= spec_expand_component(
                                        m,
                                        m[c.name],
                                        c.box_diag_1,
                                        c.box_diag_2,
                                        c.primary_control_point,
                                        c.secondary_control_point,
                                        (fuel - 1) as nat,
                                    ) + spec_expand_tokens(m, toks, i + 1, fuel as nat));
                                }
                            },
                            None => {
                                proof {
                                    assert(spec_expand_tokens(m, toks, i as int, fuel as nat)
                                        =~= spec_expand_tokens(m, toks, i + 1, fuel as nat));
                                }
                            },
                        }
                    } else {
                        proof {
                            // The reference may name a stored component, but
                            // the depth is spent: it contributes nothing.
                            assert(spec_expand_tokens(m, toks, i as int, fuel as nat)
                                =~= Seq::<LineModel>::empty() + spec_expand_tokens(
                                m,
                                toks,
                                i + 1,
                                fuel as nat,
                            ));
                        }
                    }
                },
                Line::Unknown => {},
            }
            i += 1;
        }
        proof {
            assert(spec_expand_tokens(m, toks, n as int, fuel as nat) =~= Seq::<
                LineModel,
            >::empty());
            assert(lines@.map_values(|l: Line| l@) =~= spec_expand_data(m, data@, fuel as nat));
        }
        lines
    }

    /// Expands one component reference into its scaled stroke lines.
    fn expand_component_strokes(
        &self,
        component_data: &str,
        box_diag_1: Point,
        box_diag_2: Point,
        primary: Point,
        secondary: Point,
        fuel: usize,
    ) -> (r: Vec<Line>)
        requires
            self.components.wf(),
            box_diag_1.in_range(),
            box_diag_2.in_range(),
            primary.in_range(),
            secondary.in_range(),
        ensures
            r@.map_values(|l: Line| l@) == spec_expand_component(
                self.components@,
                component_data@,
                box_diag_1,
                box_diag_2,
                primary,
                secondary,
                fuel as nat,
            ),
            forall|i: int|
                0 <= i < r@.len() ==> (#[trigger] r@[i]) is StrokeLine
                    && r@[i]->StrokeLine_0.points_in_range(),
        decreases fuel, 1int,
    {
        let child_lines = self.expand_data(component_data, fuel);
        let mut strokes: Vec<StrokeLineType> = Vec::new();
        let n = child_lines.len();
        let ghost child_models = child_lines@.map_values(|l: Line| l@);
        let mut i: usize = 0;
        while i < n
            invariant
                i <= n,
                n == child_lines@.len(),
                child_models == child_lines@.map_values(|l: Line| l@),
                strokes@ == spec_filter_strokes(child_models.take(i as int)),
                forall|k: int|
                    0 <= k < child_models.len() ==> (#[trigger] child_models[k]) is StrokeLine
                        ==> child_models[k]->StrokeLine_0.points_in_range(),
                forall|k: int| 0 <= k < strokes@.len() ==> (#[trigger] strokes@[k]).points_in_range(),
            decreases n - i,
        {
            proof {
                assert(child_models.take(i + 1).drop_last() =~= child_models.take(i as int));
                assert(child_models.take(i + 1).last() == child_models[i as int]);
            }
            match &child_lines[i] {
                Line::StrokeLine(stroke_line) => {
                    strokes.push(*stroke_line);
                    proof {
                        assert(strokes@ =~= spec_filter_strokes(child_models.take(i + 1)));
                    }
                },
                _ => {
                    proof {
                        assert(strokes@ =~= spec_filter_strokes(child_models.take(i + 1)));
                    }
                },
            }
            i += 1;
        }
        proof {
            assert(child_models.take(n as int) =~= child_models);
        }
        let (dest, src) = pivots_of(primary, secondary);
        let do_stretch = dest.x != 0 || dest.y != 0;
        let stretched = if do_stretch && strokes.len() > 0 {
            let bounds = strokes_box(&strokes);
            stretch_strokes(strokes, dest, src, bounds.min_point, bounds.max_point)
        } else {
            strokes
        };
        let mut out: Vec<Line> = Vec::new();
        let m = stretched.len();
        let ghost stretched_seq = stretched@;
        let mut j: usize = 0;
        while j < m
            invariant
                j <= m,
                m == stretched@.len(),
                stretched_seq == stretched@,
                box_diag_1.in_range(),
                box_diag_2.in_range(),
                forall|k: int|
                    0 <= k < stretched@.len() ==> (#[trigger] stretched@[k]).points_in_range(),
                out@.map_values(|l: Line| l@) == stretched_seq.take(j as int).map_values(
                    |s: StrokeLineType| spec_scale_stroke(box_diag_1, box_diag_2, s),
                ).map_values(|s: StrokeLineType| LineModel::StrokeLine(s)),
                forall|k: int|
                    0 <= k < out@.len() ==> (#[trigger] out@[k]) is StrokeLine
                        && out@[k]->StrokeLine_0.points_in_range(),
            decreases m - j,
        {
            let ghost out0 = out@;
            let scaled = scale_stroke(box_diag_1, box_diag_2, &stretched[j]);
            out.push(Line::StrokeLine(scaled));
            proof {
                assert(stretched_seq.take(j + 1).drop_last() =~= stretched_seq.take(j as int));
                assert(stretched_seq.take(j + 1).last() == stretched_seq[j as int]);
                assert(out@.map_values(|l: Line| l@) =~= out0.map_values(|l: Line| l@).push(
                    LineModel::StrokeLine(scaled),
                ));
                assert(out@.map_values(|l: Line| l@) =~= stretched_seq.take(j + 1).map_values(
                    |s: StrokeLineType| spec_scale_stroke(box_diag_1, box_diag_2, s),
                ).map_values(|s: StrokeLineType| LineModel::StrokeLine(s)));
            }
            j += 1;
        }
        proof {
            assert(stretched_seq.take(m as int) =~= stretched_seq);
        }
        out
    }
}

/// A parsed stroke line has its points in the coordinate range: every field
/// is clamped when it is read.
proof fn lemma_parsed_stroke_in_range(tok: Seq<char>)
    ensures
        spec_parse_line(tok) is StrokeLine ==> spec_parse_line(tok)->StrokeLine_0.points_in_range(),
{
}

/// The destination and source pivots of a reference.
fn pivots_of(pp: Point, sp: Point) -> (r: (Point, Point))
    requires
        pp.in_range(),
        sp.in_range(),
    ensures
        r == spec_pivots(pp, sp),
        r.0.in_range(),
        r.1.in_range(),
{
    if pp.x != 0 || pp.y != 0 {
        if pp.x > 100 {
            (Point { x: pp.x - 200, y: pp.y, off_curve: pp.off_curve }, sp)
        } else {
            (pp, Point { x: 0, y: 0, off_curve: None })
        }
    } else {
        (pp, sp)
    }
}

/// The bounding box of the strokes' control points.
fn strokes_box(strokes: &Vec<StrokeLineType>) -> (r: Bounds)
    requires
        forall|k: int| 0 <= k < strokes@.len() ==> (#[trigger] strokes@[k]).points_in_range(),
    ensures
        r == spec_strokes_box(strokes@),
        r.min_point.in_range(),
        r.max_point.in_range(),
{
    let mut min_x: i64 = 200;
    let mut min_y: i64 = 200;
    let mut max_x: i64 = 0;
    let mut max_y: i64 = 0;
    let n = strokes.len();
    let mut i: usize = 0;
    while i < n
        invariant
            i <= n,
            n == strokes@.len(),
            forall|k: int| 0 <= k < n ==> (#[trigger] strokes@[k]).points_in_range(),
            spec_strokes_box(strokes@.take(i as int)) == (Bounds {
                min_point: Point { x: min_x, y: min_y, off_curve: None },
                max_point: Point { x: max_x, y: max_y, off_curve: None },
            }),
            -1_000_000 <= min_x <= 1_000_000,
            -1_000_000 <= min_y <= 1_000_000,
            -1_000_000 <= max_x <= 1_000_000,
            -1_000_000 <= max_y <= 1_000_000,
        decreases n - i,
    {
        proof {
            assert(strokes@.take(i + 1).drop_last() =~= strokes@.take(i as int));
            assert(strokes@.take(i + 1).last() == strokes@[i as int]);
        }
        match strokes[i].get_box() {
            Some(b) => {
                if b.min_point.x < min_x {
                    min_x = b.min_point.x;
                }
                if b.min_point.y < min_y {
                    min_y = b.min_point.y;
                }
                if b.max_point.x > max_x {
                    max_x = b.max_point.x;
                }
                if b.max_point.y > max_y {
                    max_y = b.max_point.y;
                }
            },
            None => {},
        }
        i += 1;
    }
    proof {
        assert(strokes@.take(n as int) =~= strokes@);
    }
    Bounds {
        min_point: Point { x: min_x, y: min_y, off_curve: None },
        max_point: Point { x: max_x, y: max_y, off_curve: None },
    }
}

/// The strokes stretched about the pivots, dropping any whose stretch is
/// undefined.
fn stretch_strokes(
    strokes: Vec<StrokeLineType>,
    dest: Point,
    src: Point,
    lo: Point,
    hi: Point,
) -> (r: Vec<StrokeLineType>)
    requires
        dest.in_range(),
        src.in_range(),
        lo.in_range(),
        hi.in_range(),
        forall|k: int| 0 <= k < strokes@.len() ==> (#[trigger] strokes@[k]).points_in_range(),
    ensures
        r@ == spec_stretch_strokes(strokes@, dest, src, lo, hi),
        forall|k: int| 0 <= k < r@.len() ==> (#[trigger] r@[k]).points_in_range(),
{
    let mut out: Vec<StrokeLineType> = Vec::new();
    let n = strokes.len();
    let mut i: usize = 0;
    while i < n
        invariant
            i <= n,
            n == strokes@.len(),
            dest.in_range(),
            src.in_range(),
            lo.in_range(),
            hi.in_range(),
            forall|k: int| 0 <= k < n ==> (#[trigger] strokes@[k]).points_in_range(),
            out@ == spec_stretch_strokes(strokes@.take(i as int), dest, src, lo, hi),
            forall|k: int| 0 <= k < out@.len() ==> (#[trigger] out@[k]).points_in_range(),
        decreases n - i,
    {
        proof {
            assert(strokes@.take(i + 1).drop_last() =~= strokes@.take(i as int));
            assert(strokes@.take(i + 1).last() == strokes@[i as int]);
        }
        let mut stroke = strokes[i];
        let ok = stroke.stretch(dest, src, lo, hi);
        if ok {
            out.push(stroke);
        }
        proof {
            assert(out@ =~= spec_stretch_strokes(strokes@.take(i + 1), dest, src, lo, hi));
        }
        i += 1;
    }
    proof {
        assert(strokes@.take(n as int) =~= strokes@);
    }
    out
}

/// One stroke scaled into the box.
fn scale_stroke(d1: Point, d2: Point, s: &StrokeLineType) -> (r: StrokeLineType)
    requires
        d1.in_range(),
        d2.in_range(),
        s.points_in_range(),
    ensures
        r == spec_scale_stroke(d1, d2, *s),
        r.points_in_range(),
{
    StrokeLineType {
        point_1: scale_point(d1, d2, s.point_1),
        point_2: scale_point(d1, d2, s.point_2),
        point_3: scale_point(d1, d2, s.point_3),
        point_4: scale_point(d1, d2, s.point_4),
        ..*s
    }
}

fn scale_point(d1: Point, d2: Point, p: Point) -> (r: Point)
    requires
        d1.in_range(),
        d2.in_range(),
        p.in_range(),
    ensures
        r == spec_scale_point(d1, d2, p),
        r.in_range(),
{
    Point {
        x: scale_coord(d1.x, d2.x - d1.x, p.x),
        y: scale_coord(d1.y, d2.y - d1.y, p.y),
        off_curve: p.off_curve,
    }
}

fn scale_coord(b: i64, span: i64, v: i64) -> (r: i64)
    requires
        -1_000_000 <= b <= 1_000_000,
        -2_000_000 <= span <= 2_000_000,
        -1_000_000 <= v <= 1_000_000,
    ensures
        r == spec_scale_coord(b as int, span as int, v as int),
        -1_000_000 <= r <= 1_000_000,
{
    let vv: i128 = v as i128;
    let ss: i128 = span as i128;
    proof {
        assert(-2_000_000_000_000 <= (vv as int) * (ss as int) <= 2_000_000_000_000)
            by (nonlinear_arith)
            requires
                -1_000_000 <= vv <= 1_000_000,
                -2_000_000 <= ss <= 2_000_000,
        ;
    }
    let prod: i128 = vv * ss;
    let q = crate::line::stroke_line::floor_div(prod, 200);
    let raw: i128 = (b as i128) + q;
    if raw < -1_000_000 {
        -1_000_000
    } else if raw > 1_000_000 {
        1_000_000
    } else {
        raw as i64
    }
}

} // verus!
