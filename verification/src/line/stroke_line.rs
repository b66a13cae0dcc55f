//! Stroke lines: the parametric strokes of a glyph, their classification
//! codes, their control segments, and the pivot-hinged stretch that component
//! expansion applies to them.

use crate::geom::{is_cross, is_cross_box, spec_is_cross, spec_is_cross_box, COORD_LIMIT, Point};
use crate::text::spec_clamp;
use vstd::arithmetic::div_mod::lemma_fundamental_div_mod;
use vstd::prelude::*;

verus! {

/// The drawing primitive of a stroke.
#[derive(Clone, Copy, Debug, PartialEq, Eq)]
pub enum StrokeKind {
    /// A straight line through two control points.
    StraightLine,
    /// A quadratic curve through three control points.
    Curve,
    /// A bend: two straight parts joined by a corner.
    BendLine,
    /// A bend with a wide swing, shaped like a hook.
    OtsuCurve,
    /// A cubic curve through four control points.
    ComplexCurve,
    /// A vertical entry continued by a quadratic sweep.
    VerticalSlash,
    /// An unrecognized stroke code.
    Unknown,
}

/// How a raw nonnegative code splits into its two-digit base and the option
/// digits above it.
pub open spec fn spec_code_base(num: int) -> int {
    (if num < 0 {
        0
    } else {
        num
    }) % 100
}

/// The floored hundreds of a raw code, never negative.
pub open spec fn spec_code_opt(num: int) -> int {
    let q = spec_floor_div(num, 100);
    if q < 0 {
        0
    } else {
        q
    }
}

/// The stroke classification carried by the first field of a stroke line.
#[derive(Clone, Copy, Debug, PartialEq, Eq)]
pub struct StrokeType {
    pub kind: StrokeKind,
    pub base: u32,
    pub opt: u32,
}

impl StrokeType {
    /// The classification of a raw first field.
    pub open spec fn spec_new(num: int) -> StrokeType {
        let base = spec_code_base(num);
        let opt = spec_code_opt(num);
        let kind = if base == 1 {
            StrokeKind::StraightLine
        } else if base == 2 || base == 12 {
            StrokeKind::Curve
        } else if base == 3 {
            StrokeKind::BendLine
        } else if base == 4 {
            StrokeKind::OtsuCurve
        } else if base == 6 {
            StrokeKind::ComplexCurve
        } else if base == 7 {
            StrokeKind::VerticalSlash
        } else {
            StrokeKind::Unknown
        };
        StrokeType { kind, base: base as u32, opt: opt as u32 }
    }

    pub fn new(num: i64) -> (r: StrokeType)
        requires
            -COORD_LIMIT <= num <= COORD_LIMIT,
        ensures
            r == StrokeType::spec_new(num as int),
    {
        let base: u32 = if num < 0 {
            0
        } else {
            (num % 100) as u32
        };
        let opt: u32 = if num < 0 {
            0
        } else {
            (num / 100) as u32
        };
        proof {
            if num >= 0 {
                lemma_floor_div_nonneg(num as int, 100);
            }
        }
        let kind = match base {
            1 => StrokeKind::StraightLine,
            2 | 12 => StrokeKind::Curve,
            3 => StrokeKind::BendLine,
            4 => StrokeKind::OtsuCurve,
            6 => StrokeKind::ComplexCurve,
            7 => StrokeKind::VerticalSlash,
            _ => StrokeKind::Unknown,
        };
        StrokeType { kind, base, opt }
    }
}

/// The terminal shape at the head or tail of a stroke.
#[derive(Clone, Copy, Debug, PartialEq, Eq)]
pub enum EndKind {
    /// An open end.
    Free,
    /// A connection to a horizontal stroke.
    HorizontalConnection,
    /// A connection to a vertical stroke.
    VerticalConnection,
    TopLeftCorner,
    TopRightCorner,
    BottomLeftCorner,
    BottomRightCorner,
    /// An upward flick leaving to the left.
    LeftUpwardFlick,
    /// An upward flick leaving to the right.
    RightUpwardFlick,
    /// The old style of the lower-left corner used for zh glyphs.
    BottomLeftZhOld,
    /// The new style of the lower-left corner used for zh glyphs.
    BottomLeftZhNew,
    /// The lower-right corner of the horizontal-or-T family.
    BottomRightHorT,
    /// A narrow, tapered end.
    Narrow,
    /// A narrow entry under a roof.
    RoofedNarrowEntry,
    /// A stopping end.
    Stop,
    Temp14,
    Temp15,
    Temp1,
    Temp9,
    Temp6,
    Temp17,
    Unknown,
}

/// The terminal shape code carried by the second and third fields of a
/// stroke line.  `base` is the raw code modulo 100, `opt` its floored
/// hundreds, and `opt_1`, `opt_2`, `opt_3` the decimal digits of `opt` from
/// the units up.
#[derive(Clone, Copy, Debug, PartialEq, Eq)]
pub struct EndType {
    pub kind: EndKind,
    pub base: u32,
    pub opt: u32,
    pub opt_1: u32,
    pub opt_2: u32,
    pub opt_3: u32,
}

impl EndType {
    pub open spec fn spec_kind_of(base: int, opt_1: int) -> EndKind {
        if base == 0 {
            EndKind::Free
        } else if base == 2 {
            EndKind::HorizontalConnection
        } else if base == 4 {
            EndKind::LeftUpwardFlick
        } else if base == 5 {
            EndKind::RightUpwardFlick
        } else if base == 7 {
            EndKind::Narrow
        } else if base == 8 {
            EndKind::Stop
        } else if base == 12 {
            EndKind::TopLeftCorner
        } else if base == 13 {
            if opt_1 == 4 {
                EndKind::BottomLeftZhNew
            } else if opt_1 == 3 {
                EndKind::BottomLeftZhOld
            } else {
                EndKind::BottomLeftCorner
            }
        } else if base == 22 {
            EndKind::TopRightCorner
        } else if base == 23 {
            EndKind::BottomRightCorner
        } else if base == 24 {
            EndKind::BottomRightHorT
        } else if base == 27 {
            EndKind::RoofedNarrowEntry
        } else if base == 32 {
            EndKind::VerticalConnection
        } else if base == 14 {
            EndKind::Temp14
        } else if base == 15 {
            EndKind::Temp15
        } else if base == 1 {
            EndKind::Temp1
        } else if base == 9 {
            EndKind::Temp9
        } else if base == 6 {
            EndKind::Temp6
        } else if base == 17 {
            EndKind::Temp17
        } else {
            EndKind::Unknown
        }
    }

    /// The terminal shape of a raw field.
    pub open spec fn spec_new(num: int) -> EndType {
        let base = spec_code_base(num);
        let opt = spec_code_opt(num);
        let opt_1 = opt % 10;
        let opt_2 = (opt / 10) % 10;
        let opt_3 = opt / 100;
        EndType {
            kind: Self::spec_kind_of(base, opt_1),
            base: base as u32,
            opt: opt as u32,
            opt_1: opt_1 as u32,
            opt_2: opt_2 as u32,
            opt_3: opt_3 as u32,
        }
    }

    pub fn new(num: i64) -> (r: EndType)
        requires
            -COORD_LIMIT <= num <= COORD_LIMIT,
        ensures
            r == EndType::spec_new(num as int),
    {
        let base: u32 = if num < 0 {
            0
        } else {
            (num % 100) as u32
        };
        let opt: u32 = if num < 0 {
            0
        } else {
            (num / 100) as u32
        };
        proof {
            if num >= 0 {
                lemma_floor_div_nonneg(num as int, 100);
            }
        }
        let opt_1 = opt % 10;
        let opt_2 = (opt / 10) % 10;
        let opt_3 = opt / 100;
        let kind = match base {
            0 => EndKind::Free,
            2 => EndKind::HorizontalConnection,
            4 => EndKind::LeftUpwardFlick,
            5 => EndKind::RightUpwardFlick,
            7 => EndKind::Narrow,
            8 => EndKind::Stop,
            12 => EndKind::TopLeftCorner,
            13 => {
                if opt_1 == 4 {
                    EndKind::BottomLeftZhNew
                } else if opt_1 == 3 {
                    EndKind::BottomLeftZhOld
                } else {
                    EndKind::BottomLeftCorner
                }
            },
            22 => EndKind::TopRightCorner,
            23 => EndKind::BottomRightCorner,
            24 => EndKind::BottomRightHorT,
            27 => EndKind::RoofedNarrowEntry,
            32 => EndKind::VerticalConnection,
            14 => EndKind::Temp14,
            15 => EndKind::Temp15,
            1 => EndKind::Temp1,
            9 => EndKind::Temp9,
            6 => EndKind::Temp6,
            17 => EndKind::Temp17,
            _ => EndKind::Unknown,
        };
        EndType { kind, base, opt, opt_1, opt_2, opt_3 }
    }
}

/// An axis-aligned bounding box of stroke control points.
#[derive(Clone, Copy, Debug, PartialEq)]
pub struct Bounds {
    pub min_point: Point,
    pub max_point: Point,
}

/// One stroke of a glyph.  Only the control points that the stroke kind uses
/// are meaningful; the rest are zero in parsed data.
#[derive(Clone, Copy, Debug, PartialEq)]
pub struct StrokeLineType {
    pub stroke_type: StrokeType,
    pub head_shape: EndType,
    pub tail_shape: EndType,
    pub point_1: Point,
    pub point_2: Point,
    pub point_3: Point,
    pub point_4: Point,
}

impl StrokeLineType {
    /// The stroke read from the eleven fields of a record line.
    pub open spec fn spec_new(
        f1: int,
        f2: int,
        f3: int,
        f4: int,
        f5: int,
        f6: int,
        f7: int,
        f8: int,
        f9: int,
        f10: int,
        f11: int,
    ) -> StrokeLineType {
        StrokeLineType {
            stroke_type: StrokeType::spec_new(f1),
            head_shape: EndType::spec_new(f2),
            tail_shape: EndType::spec_new(f3),
            point_1: Point { x: f4 as i64, y: f5 as i64, off_curve: None },
            point_2: Point { x: f6 as i64, y: f7 as i64, off_curve: None },
            point_3: Point { x: f8 as i64, y: f9 as i64, off_curve: None },
            point_4: Point { x: f10 as i64, y: f11 as i64, off_curve: None },
        }
    }

    #[allow(clippy::too_many_arguments)]
    pub fn new(
        f1: i64,
        f2: i64,
        f3: i64,
        f4: i64,
        f5: i64,
        f6: i64,
        f7: i64,
        f8: i64,
        f9: i64,
        f10: i64,
        f11: i64,
    ) -> (r: StrokeLineType)
        requires
            -COORD_LIMIT <= f1 <= COORD_LIMIT,
            -COORD_LIMIT <= f2 <= COORD_LIMIT,
            -COORD_LIMIT <= f3 <= COORD_LIMIT,
            -COORD_LIMIT <= f4 <= COORD_LIMIT,
            -COORD_LIMIT <= f5 <= COORD_LIMIT,
            -COORD_LIMIT <= f6 <= COORD_LIMIT,
            -COORD_LIMIT <= f7 <= COORD_LIMIT,
            -COORD_LIMIT <= f8 <= COORD_LIMIT,
            -COORD_LIMIT <= f9 <= COORD_LIMIT,
            -COORD_LIMIT <= f10 <= COORD_LIMIT,
            -COORD_LIMIT <= f11 <= COORD_LIMIT,
        ensures
            r == StrokeLineType::spec_new(
                f1 as int,
                f2 as int,
                f3 as int,
                f4 as int,
                f5 as int,
                f6 as int,
                f7 as int,
                f8 as int,
                f9 as int,
                f10 as int,
                f11 as int,
            ),
            r.points_in_range(),
    {
        StrokeLineType {
            stroke_type: StrokeType::new(f1),
            head_shape: EndType::new(f2),
            tail_shape: EndType::new(f3),
            point_1: Point::new(f4, f5, None),
            point_2: Point::new(f6, f7, None),
            point_3: Point::new(f8, f9, None),
            point_4: Point::new(f10, f11, None),
        }
    }

    /// All four control points lie in the parsed-coordinate range.
    pub open spec fn points_in_range(self) -> bool {
        self.point_1.in_range() && self.point_2.in_range() && self.point_3.in_range()
            && self.point_4.in_range()
    }

    /// The straight segments between consecutive control points that the
    /// stroke analysis treats as the stroke's skeleton.  A stroke with a
    /// nonzero type option counts as a single straight segment.
    pub open spec fn spec_control_segments(self) -> Seq<(Point, Point)> {
        if self.stroke_type.opt != 0 {
            seq![(self.point_1, self.point_2)]
        } else {
            match self.stroke_type.kind {
                StrokeKind::StraightLine => seq![(self.point_1, self.point_2)],
                StrokeKind::Curve | StrokeKind::BendLine | StrokeKind::OtsuCurve => seq![
                    (self.point_1, self.point_2),
                    (self.point_2, self.point_3),
                ],
                StrokeKind::ComplexCurve | StrokeKind::VerticalSlash => seq![
                    (self.point_1, self.point_2),
                    (self.point_2, self.point_3),
                    (self.point_3, self.point_4),
                ],
                StrokeKind::Unknown => Seq::empty(),
            }
        }
    }

    pub fn get_control_segments(&self) -> (r: Vec<(Point, Point)>)
        ensures
            r@ == self.spec_control_segments(),
    {
        let mut r: Vec<(Point, Point)> = Vec::new();
        if self.stroke_type.opt != 0 {
            r.push((self.point_1, self.point_2));
            proof {
                assert(r@ =~= self.spec_control_segments());
            }
            return r;
        }
        match self.stroke_type.kind {
            StrokeKind::StraightLine => {
                r.push((self.point_1, self.point_2));
            },
            StrokeKind::Curve | StrokeKind::BendLine | StrokeKind::OtsuCurve => {
                r.push((self.point_1, self.point_2));
                r.push((self.point_2, self.point_3));
            },
            StrokeKind::ComplexCurve | StrokeKind::VerticalSlash => {
                r.push((self.point_1, self.point_2));
                r.push((self.point_2, self.point_3));
                r.push((self.point_3, self.point_4));
            },
            StrokeKind::Unknown => {},
        }
        proof {
            assert(r@ =~= self.spec_control_segments());
        }
        r
    }

    /// Whether some control segment of this stroke crosses the given
    /// segment.
    pub open spec fn spec_is_cross(self, start: Point, end: Point) -> bool {
        exists|i: int|
            0 <= i < self.spec_control_segments().len() && spec_is_cross(
                (#[trigger] self.spec_control_segments()[i]).0,
                self.spec_control_segments()[i].1,
                start,
                end,
            )
    }

    pub fn is_cross(&self, point_start: Point, point_end: Point) -> (r: bool)
        requires
            self.points_in_range(),
            point_start.in_cross_range(),
            point_end.in_cross_range(),
        ensures
            r == self.spec_is_cross(point_start, point_end),
    {
        let segments = self.get_control_segments();
        let n = segments.len();
        let mut i: usize = 0;
        while i < n
            invariant
                i <= n,
                n == segments@.len(),
                segments@ == self.spec_control_segments(),
                self.points_in_range(),
                point_start.in_cross_range(),
                point_end.in_cross_range(),
                forall|k: int|
                    0 <= k < i ==> !spec_is_cross(
                        (#[trigger] segments@[k]).0,
                        segments@[k].1,
                        point_start,
                        point_end,
                    ),
            decreases n - i,
        {
            let (s1, s2) = segments[i];
            proof {
                self.lemma_segments_in_range();
            }
            if is_cross(s1, s2, point_start, point_end) {
                return true;
            }
            i += 1;
        }
        false
    }

    /// Whether some control segment of this stroke crosses an edge of the
    /// box with the given diagonal corners.
    pub open spec fn spec_is_cross_box(self, diag_1: Point, diag_2: Point) -> bool {
        exists|i: int|
            0 <= i < self.spec_control_segments().len() && spec_is_cross_box(
                (#[trigger] self.spec_control_segments()[i]).0,
                self.spec_control_segments()[i].1,
                diag_1,
                diag_2,
            )
    }

    pub fn is_cross_box(&self, box_diag_1: Point, box_diag_2: Point) -> (r: bool)
        requires
            self.points_in_range(),
            box_diag_1.in_cross_range(),
            box_diag_2.in_cross_range(),
        ensures
            r == self.spec_is_cross_box(box_diag_1, box_diag_2),
    {
        let segments = self.get_control_segments();
        let n = segments.len();
        let mut i: usize = 0;
        while i < n
            invariant
                i <= n,
                n == segments@.len(),
                segments@ == self.spec_control_segments(),
                self.points_in_range(),
                box_diag_1.in_cross_range(),
                box_diag_2.in_cross_range(),
                forall|k: int|
                    0 <= k < i ==> !spec_is_cross_box(
                        (#[trigger] segments@[k]).0,
                        segments@[k].1,
                        box_diag_1,
                        box_diag_2,
                    ),
            decreases n - i,
        {
            let (s1, s2) = segments[i];
            proof {
                self.lemma_segments_in_range();
            }
            if is_cross_box(s1, s2, box_diag_1, box_diag_2) {
                return true;
            }
            i += 1;
        }
        false
    }

    /// Control segments are made of the stroke's own points, so they inherit
    /// its coordinate range.
    pub proof fn lemma_segments_in_range(self)
        requires
            self.points_in_range(),
        ensures
            forall|i: int|
                0 <= i < self.spec_control_segments().len() ==> (
                #[trigger] self.spec_control_segments()[i]).0.in_range()
                    && self.spec_control_segments()[i].1.in_range(),
    {
    }

    /// The bounding box of the control points that the stroke kind uses, or
    /// `None` for an unrecognized stroke of base zero, which has none.
    pub open spec fn spec_get_box(self) -> Option<Bounds> {
        if self.stroke_type.opt != 0 {
            Some(spec_bounds_4(self.point_1, self.point_2, self.point_3, self.point_4))
        } else {
            match self.stroke_type.kind {
                StrokeKind::StraightLine => Some(spec_bounds_2(self.point_1, self.point_2)),
                StrokeKind::Curve | StrokeKind::BendLine | StrokeKind::OtsuCurve => Some(
                    spec_bounds_3(self.point_1, self.point_2, self.point_3),
                ),
                StrokeKind::Unknown => if self.stroke_type.base == 0 {
                    None
                } else {
                    Some(spec_bounds_4(self.point_1, self.point_2, self.point_3, self.point_4))
                },
                _ => Some(spec_bounds_4(self.point_1, self.point_2, self.point_3, self.point_4)),
            }
        }
    }

    pub fn get_box(&self) -> (r: Option<Bounds>)
        ensures
            r == self.spec_get_box(),
    {
        if self.stroke_type.opt != 0 {
            return Some(bounds_4(self.point_1, self.point_2, self.point_3, self.point_4));
        }
        match self.stroke_type.kind {
            StrokeKind::StraightLine => Some(bounds_2(self.point_1, self.point_2)),
            StrokeKind::Curve | StrokeKind::BendLine | StrokeKind::OtsuCurve => Some(
                bounds_3(self.point_1, self.point_2, self.point_3),
            ),
            StrokeKind::Unknown => {
                if self.stroke_type.base == 0 {
                    None
                } else {
                    Some(bounds_4(self.point_1, self.point_2, self.point_3, self.point_4))
                }
            },
            _ => Some(bounds_4(self.point_1, self.point_2, self.point_3, self.point_4)),
        }
    }

    /// All four points stretched; `None` when a degenerate pivot span leaves
    /// a coordinate undefined.
    pub open spec fn spec_stretch(
        self,
        dest_pivot: Point,
        src_pivot: Point,
        min_point: Point,
        max_point: Point,
    ) -> Option<StrokeLineType> {
        let p1 = spec_stretch_point(dest_pivot, src_pivot, self.point_1, min_point, max_point);
        let p2 = spec_stretch_point(dest_pivot, src_pivot, self.point_2, min_point, max_point);
        let p3 = spec_stretch_point(dest_pivot, src_pivot, self.point_3, min_point, max_point);
        let p4 = spec_stretch_point(dest_pivot, src_pivot, self.point_4, min_point, max_point);
        if p1 is Some && p2 is Some && p3 is Some && p4 is Some {
            Some(
                StrokeLineType {
                    point_1: p1->0,
                    point_2: p2->0,
                    point_3: p3->0,
                    point_4: p4->0,
                    ..self
                },
            )
        } else {
            None
        }
    }

    /// Stretches the stroke's control points in place.  Returns whether every
    /// coordinate was defined; on a degenerate pivot span the stroke is left
    /// unchanged.
    pub fn stretch(
        &mut self,
        dest_pivot: Point,
        src_pivot: Point,
        min_point: Point,
        max_point: Point,
    ) -> (ok: bool)
        requires
            old(self).points_in_range(),
            dest_pivot.in_range(),
            src_pivot.in_range(),
            min_point.in_range(),
            max_point.in_range(),
        ensures
            match old(self).spec_stretch(dest_pivot, src_pivot, min_point, max_point) {
                Some(stretched) => ok && *final(self) == stretched,
                None => !ok && *final(self) == *old(self),
            },
            final(self).points_in_range(),
    {
        let p1 = stretch_point(dest_pivot, src_pivot, self.point_1, min_point, max_point);
        let p2 = stretch_point(dest_pivot, src_pivot, self.point_2, min_point, max_point);
        let p3 = stretch_point(dest_pivot, src_pivot, self.point_3, min_point, max_point);
        let p4 = stretch_point(dest_pivot, src_pivot, self.point_4, min_point, max_point);
        match (p1, p2, p3, p4) {
            (Some(q1), Some(q2), Some(q3), Some(q4)) => {
                self.point_1 = q1;
                self.point_2 = q2;
                self.point_3 = q3;
                self.point_4 = q4;
                true
            },
            _ => false,
        }
    }
}

/// The componentwise bounds of two points; the flag is kept only where the
/// two agree.
pub open spec fn spec_bounds_2(a: Point, b: Point) -> Bounds {
    Bounds {
        min_point: spec_point_min(a, b),
        max_point: spec_point_max(a, b),
    }
}

pub open spec fn spec_bounds_3(a: Point, b: Point, c: Point) -> Bounds {
    Bounds {
        min_point: spec_point_min(spec_point_min(a, b), c),
        max_point: spec_point_max(spec_point_max(a, b), c),
    }
}

pub open spec fn spec_bounds_4(a: Point, b: Point, c: Point, d: Point) -> Bounds {
    Bounds {
        min_point: spec_point_min(spec_point_min(spec_point_min(a, b), c), d),
        max_point: spec_point_max(spec_point_max(spec_point_max(a, b), c), d),
    }
}

pub open spec fn spec_point_min(a: Point, b: Point) -> Point {
    Point {
        x: if a.x <= b.x {
            a.x
        } else {
            b.x
        },
        y: if a.y <= b.y {
            a.y
        } else {
            b.y
        },
        off_curve: if a.off_curve == b.off_curve {
            a.off_curve
        } else {
            None
        },
    }
}

pub open spec fn spec_point_max(a: Point, b: Point) -> Point {
    Point {
        x: if a.x >= b.x {
            a.x
        } else {
            b.x
        },
        y: if a.y >= b.y {
            a.y
        } else {
            b.y
        },
        off_curve: if a.off_curve == b.off_curve {
            a.off_curve
        } else {
            None
        },
    }
}

fn point_min(a: Point, b: Point) -> (r: Point)
    ensures
        r == spec_point_min(a, b),
{
    Point {
        x: if a.x <= b.x {
            a.x
        } else {
            b.x
        },
        y: if a.y <= b.y {
            a.y
        } else {
            b.y
        },
        off_curve: match (a.off_curve, b.off_curve) {
            (Some(u), Some(v)) => if u == v {
                a.off_curve
            } else {
                None
            },
            (None, None) => None,
            _ => None,
        },
    }
}

fn point_max(a: Point, b: Point) -> (r: Point)
    ensures
        r == spec_point_max(a, b),
{
    Point {
        x: if a.x >= b.x {
            a.x
        } else {
            b.x
        },
        y: if a.y >= b.y {
            a.y
        } else {
            b.y
        },
        off_curve: match (a.off_curve, b.off_curve) {
            (Some(u), Some(v)) => if u == v {
                a.off_curve
            } else {
                None
            },
            (None, None) => None,
            _ => None,
        },
    }
}

fn bounds_2(a: Point, b: Point) -> (r: Bounds)
    ensures
        r == spec_bounds_2(a, b),
{
    Bounds { min_point: point_min(a, b), max_point: point_max(a, b) }
}

fn bounds_3(a: Point, b: Point, c: Point) -> (r: Bounds)
    ensures
        r == spec_bounds_3(a, b, c),
{
    Bounds {
        min_point: point_min(point_min(a, b), c),
        max_point: point_max(point_max(a, b), c),
    }
}

fn bounds_4(a: Point, b: Point, c: Point, d: Point) -> (r: Bounds)
    ensures
        r == spec_bounds_4(a, b, c, d),
{
    Bounds {
        min_point: point_min(point_min(point_min(a, b), c), d),
        max_point: point_max(point_max(point_max(a, b), c), d),
    }
}

/// The floor of the real quotient `a / b`.
pub open spec fn spec_floor_div(a: int, b: int) -> int {
    if b > 0 {
        a / b
    } else if b < 0 {
        -(a / (-b)) - (if a % (-b) == 0 {
            0int
        } else {
            1int
        })
    } else {
        0
    }
}

/// For a nonnegative dividend and positive divisor the floor quotient is the
/// plain machine quotient.
pub(crate) proof fn lemma_floor_div_nonneg(a: int, b: int)
    requires
        a >= 0,
        b > 0,
    ensures
        spec_floor_div(a, b) == a / b,
        a / b >= 0,
        a / b <= a,
{
    lemma_fundamental_div_mod(a, b);
    assert(a == b * (a / b) + a % b);
    assert(a / b >= 0) by (nonlinear_arith)
        requires
            a >= 0,
            b > 0,
            a == b * (a / b) + a % b,
            0 <= a % b < b,
    ;
    assert(a / b <= a) by (nonlinear_arith)
        requires
            a >= 0,
            b > 0,
            a == b * (a / b) + a % b,
            0 <= a % b < b,
    ;
}

/// The floor quotient of two machine integers.
pub(crate) fn floor_div(a: i128, b: i128) -> (r: i128)
    requires
        b != 0,
        -100_000_000_000_000_000_000_000_000_000_000 <= a
            <= 100_000_000_000_000_000_000_000_000_000_000,
        -100_000_000_000_000_000_000_000_000_000_000 <= b
            <= 100_000_000_000_000_000_000_000_000_000_000,
    ensures
        r == spec_floor_div(a as int, b as int),
        -100_000_000_000_000_000_000_000_000_000_001 <= r
            <= 100_000_000_000_000_000_000_000_000_000_000,
{
    let ua: i128 = if a < 0 {
        -a
    } else {
        a
    };
    let ub: i128 = if b < 0 {
        -b
    } else {
        b
    };
    let q = ua / ub;
    let rem = ua % ub;
    proof {
        lemma_floor_div_nonneg(ua as int, ub as int);
    }
    if (a < 0) == (b < 0) {
        proof {
            if a < 0 {
                lemma_floor_div_opposite(a as int, b as int);
            }
        }
        q
    } else if rem == 0 {
        proof {
            lemma_floor_div_mixed(a as int, b as int);
        }
        -q
    } else {
        proof {
            lemma_floor_div_mixed(a as int, b as int);
        }
        -q - 1
    }
}

/// With both operands negative the floor quotient equals that of their
/// magnitudes.
proof fn lemma_floor_div_opposite(a: int, b: int)
    requires
        a < 0,
        b < 0,
    ensures
        spec_floor_div(a, b) == (-a) / (-b),
{
    let ua = -a;
    let ub = -b;
    lemma_fundamental_div_mod(a, ub);
    lemma_fundamental_div_mod(ua, ub);
    // a / ub relates to ua / ub: a == -ua, and Euclidean division of a
    // negative value rounds away from zero exactly when it does not divide.
    assert(spec_floor_div(a, b) == -(a / ub) - (if a % ub == 0 {
        0int
    } else {
        1int
    }));
    lemma_neg_div(ua, ub);
}

/// With operands of opposite signs the floor quotient is the negated
/// magnitude quotient, less one when the division is inexact.
proof fn lemma_floor_div_mixed(a: int, b: int)
    requires
        b != 0,
        (a < 0) != (b < 0),
    ensures
        spec_floor_div(a, b) == if (if a < 0 {
            -a
        } else {
            a
        }) % (if b < 0 {
            -b
        } else {
            b
        }) == 0 {
            -((if a < 0 {
                -a
            } else {
                a
            }) / (if b < 0 {
                -b
            } else {
                b
            }))
        } else {
            -((if a < 0 {
                -a
            } else {
                a
            }) / (if b < 0 {
                -b
            } else {
                b
            })) - 1
        },
{
    if a < 0 {
        // b > 0: the floor quotient is the Euclidean quotient a / b.
        lemma_neg_div(-a, b);
    } else {
        // b < 0, a >= 0: by definition of the floor quotient.
    }
}

/// Euclidean division of a negated value by a positive divisor.
#[verifier::rlimit(50)]
proof fn lemma_neg_div(ua: int, ub: int)
    requires
        ua >= 0,
        ub > 0,
    ensures
        (-ua) / ub == -(ua / ub) - (if ua % ub == 0 {
            0int
        } else {
            1int
        }),
        (-ua) % ub == (if ua % ub == 0 {
            0int
        } else {
            ub - ua % ub
        }),
{
    lemma_fundamental_div_mod(ua, ub);
    lemma_fundamental_div_mod(-ua, ub);
    let q = ua / ub;
    let r = ua % ub;
    let q2 = (-ua) / ub;
    let r2 = (-ua) % ub;
    assert(ua == ub * q + r);
    assert(-ua == ub * q2 + r2);
    assert(0 <= r < ub);
    assert(0 <= r2 < ub);
    if r == 0 {
        assert(q2 == -q && r2 == 0) by (nonlinear_arith)
            requires
                ua == ub * q,
                -ua == ub * q2 + r2,
                0 <= r2 < ub,
                ub > 0,
        ;
    } else {
        assert(q2 == -q - 1 && r2 == ub - r) by (nonlinear_arith)
            requires
                ua == ub * q + r,
                -ua == ub * q2 + r2,
                0 < r < ub,
                0 <= r2 < ub,
                ub > 0,
        ;
    }
}

/// One coordinate of the pivot-hinged stretch.  The coordinate axis below
/// the source pivot maps linearly onto the axis below the destination pivot,
/// and likewise above; results are floored and clamped.  A degenerate source
/// span leaves the coordinate undefined.
pub open spec fn spec_stretch_axis(d: int, s: int, x: int, lo: int, hi: int) -> Option<int> {
    let p1 = if x < s + 100 {
        lo
    } else {
        s + 100
    };
    let p2 = if x < s + 100 {
        s + 100
    } else {
        hi
    };
    let p3 = if x < s + 100 {
        lo
    } else {
        d + 100
    };
    let p4 = if x < s + 100 {
        d + 100
    } else {
        hi
    };
    if p2 == p1 {
        None
    } else {
        Some(spec_clamp(spec_floor_div((x - p1) * (p4 - p3), p2 - p1) + p3))
    }
}

/// One coordinate of the pivot-hinged stretch.
pub fn stretch_numeric(d: i64, s: i64, x: i64, lo: i64, hi: i64) -> (r: Option<i64>)
    requires
        -COORD_LIMIT <= d <= COORD_LIMIT,
        -COORD_LIMIT <= s <= COORD_LIMIT,
        -COORD_LIMIT <= x <= COORD_LIMIT,
        -COORD_LIMIT <= lo <= COORD_LIMIT,
        -COORD_LIMIT <= hi <= COORD_LIMIT,
    ensures
        match spec_stretch_axis(d as int, s as int, x as int, lo as int, hi as int) {
            Some(v) => r == Some(v as i64) && -COORD_LIMIT <= v <= COORD_LIMIT,
            None => r is None,
        },
{
    let below = x < s + 100;
    let p1: i64 = if below {
        lo
    } else {
        s + 100
    };
    let p2: i64 = if below {
        s + 100
    } else {
        hi
    };
    let p3: i64 = if below {
        lo
    } else {
        d + 100
    };
    let p4: i64 = if below {
        d + 100
    } else {
        hi
    };
    if p2 == p1 {
        return None;
    }
    let dx: i128 = (x as i128) - (p1 as i128);
    let dw: i128 = (p4 as i128) - (p3 as i128);
    proof {
        assert(-9_000_000_000_000 <= (dx as int) * (dw as int) <= 9_000_000_000_000)
            by (nonlinear_arith)
            requires
                -3_000_000 <= dx <= 3_000_000,
                -3_000_000 <= dw <= 3_000_000,
        ;
    }
    let num: i128 = dx * dw;
    let q = floor_div(num, (p2 - p1) as i128);
    let v: i128 = q + (p3 as i128);
    let clamped: i64 = if v < -(COORD_LIMIT as i128) {
        -COORD_LIMIT
    } else if v > COORD_LIMIT as i128 {
        COORD_LIMIT
    } else {
        v as i64
    };
    Some(clamped)
}

/// A whole point stretched; the off-curve flag is preserved.
pub open spec fn spec_stretch_point(
    dest_pivot: Point,
    src_pivot: Point,
    origin: Point,
    min_point: Point,
    max_point: Point,
) -> Option<Point> {
    let x = spec_stretch_axis(
        dest_pivot.x as int,
        src_pivot.x as int,
        origin.x as int,
        min_point.x as int,
        max_point.x as int,
    );
    let y = spec_stretch_axis(
        dest_pivot.y as int,
        src_pivot.y as int,
        origin.y as int,
        min_point.y as int,
        max_point.y as int,
    );
    if x is Some && y is Some {
        Some(Point { x: x->0 as i64, y: y->0 as i64, off_curve: origin.off_curve })
    } else {
        None
    }
}

/// A whole point stretched.
pub fn stretch_point(
    dest_pivot: Point,
    src_pivot: Point,
    origin: Point,
    min_point: Point,
    max_point: Point,
) -> (r: Option<Point>)
    requires
        dest_pivot.in_range(),
        src_pivot.in_range(),
        origin.in_range(),
        min_point.in_range(),
        max_point.in_range(),
    ensures
        r == spec_stretch_point(dest_pivot, src_pivot, origin, min_point, max_point),
        r is Some ==> r->0.in_range(),
{
    let x = stretch_numeric(dest_pivot.x, src_pivot.x, origin.x, min_point.x, max_point.x);
    let y = stretch_numeric(dest_pivot.y, src_pivot.y, origin.y, min_point.y, max_point.y);
    match (x, y) {
        (Some(vx), Some(vy)) => Some(Point { x: vx, y: vy, off_curve: origin.off_curve }),
        _ => None,
    }
}

/// For a destination pivot at or above the source pivot, the stretch of one
/// axis is non-decreasing in the coordinate, and the source pivot itself
/// lands exactly on the destination pivot.
pub proof fn lemma_stretch_axis_monotone(d: int, s: int, x1: int, x2: int, lo: int, hi: int)
    requires
        d >= s,
        lo <= x1 <= x2 <= hi,
        lo < s + 100 < hi,
        lo <= d + 100 <= hi,
        -(COORD_LIMIT as int) <= lo,
        hi <= COORD_LIMIT as int,
    ensures
        spec_stretch_axis(d, s, x1, lo, hi) is Some,
        spec_stretch_axis(d, s, x2, lo, hi) is Some,
        spec_stretch_axis(d, s, x1, lo, hi)->0 <= spec_stretch_axis(d, s, x2, lo, hi)->0,
        spec_stretch_axis(d, s, s + 100, lo, hi) == Some(d + 100),
{
    lemma_stretch_axis_some(d, s, x1, lo, hi);
    lemma_stretch_axis_some(d, s, x2, lo, hi);
    let v1 = spec_stretch_raw(d, s, x1, lo, hi);
    let v2 = spec_stretch_raw(d, s, x2, lo, hi);
    if (x1 < s + 100) == (x2 < s + 100) {
        // both below or both above: the same linear map is applied, with a
        // positive denominator and a nonnegative slope.
        if x1 < s + 100 {
            assert((x1 - lo) * (d + 100 - lo) <= (x2 - lo) * (d + 100 - lo)) by (nonlinear_arith)
                requires
                    x1 <= x2,
                    lo <= x1,
                    lo <= d + 100,
            ;
            lemma_floor_div_monotone((x1 - lo) * (d + 100 - lo), (x2 - lo) * (d + 100 - lo), s
                + 100 - lo);
        } else {
            assert((x1 - (s + 100)) * (hi - (d + 100)) <= (x2 - (s + 100)) * (hi - (d + 100)))
                by (nonlinear_arith)
                requires
                    x1 <= x2,
                    s + 100 <= x1,
                    d + 100 <= hi,
            ;
            lemma_floor_div_monotone((x1 - (s + 100)) * (hi - (d + 100)), (x2 - (s + 100)) * (hi
                - (d + 100)), hi - (s + 100));
        }
    } else {
        // x1 below the pivot, x2 at or above it: the lower map stays at or
        // below the destination pivot, the upper map at or above it.
        lemma_stretch_raw_below(d, s, x1, lo, hi);
        lemma_stretch_raw_above(d, s, x2, lo, hi);
    }
    assert(spec_clamp(v1) <= spec_clamp(v2));
    lemma_stretch_raw_above(d, s, s + 100, lo, hi);
    lemma_stretch_raw_below_limit(d, s, s + 100, lo, hi);
}

/// The raw (unclamped) stretched coordinate, defined when the source span is
/// not degenerate.
pub open spec fn spec_stretch_raw(d: int, s: int, x: int, lo: int, hi: int) -> int {
    if x < s + 100 {
        spec_floor_div((x - lo) * (d + 100 - lo), s + 100 - lo) + lo
    } else {
        spec_floor_div((x - (s + 100)) * (hi - (d + 100)), hi - (s + 100)) + d + 100
    }
}

proof fn lemma_stretch_axis_some(d: int, s: int, x: int, lo: int, hi: int)
    requires
        lo < s + 100 < hi,
    ensures
        spec_stretch_axis(d, s, x, lo, hi) == Some(spec_clamp(spec_stretch_raw(d, s, x, lo, hi))),
{
}

/// Below the source pivot the raw stretch stays at or below the destination
/// pivot; above it, at or above.
proof fn lemma_stretch_raw_below(d: int, s: int, x: int, lo: int, hi: int)
    requires
        lo < s + 100,
        lo <= d + 100,
        lo <= x < s + 100,
    ensures
        spec_stretch_raw(d, s, x, lo, hi) <= d + 100,
{
    let num = (x - lo) * (d + 100 - lo);
    let den = s + 100 - lo;
    assert(num <= (d + 100 - lo) * den) by (nonlinear_arith)
        requires
            num == (x - lo) * (d + 100 - lo),
            den == s + 100 - lo,
            lo <= x,
            x < s + 100,
            lo <= d + 100,
    ;
    lemma_floor_div_monotone(num, (d + 100 - lo) * den, den);
    lemma_floor_div_exact(d + 100 - lo, den);
}

proof fn lemma_stretch_raw_above(d: int, s: int, x: int, lo: int, hi: int)
    requires
        s + 100 < hi,
        d + 100 <= hi,
        x >= s + 100,
        x <= hi,
    ensures
        spec_stretch_raw(d, s, x, lo, hi) >= d + 100,
        x == s + 100 ==> spec_stretch_raw(d, s, x, lo, hi) == d + 100,
{
    let num = (x - (s + 100)) * (hi - (d + 100));
    let den = hi - (s + 100);
    assert(num >= 0) by (nonlinear_arith)
        requires
            num == (x - (s + 100)) * (hi - (d + 100)),
            x >= s + 100,
            d + 100 <= hi,
    ;
    lemma_floor_div_monotone(0, num, den);
    lemma_floor_div_exact(0, den);
    if x == s + 100 {
        assert(num == 0) by (nonlinear_arith)
            requires
                num == (x - (s + 100)) * (hi - (d + 100)),
                x == s + 100,
        ;
    }
}

/// The raw stretch stays within the coordinate range whenever the box does,
/// so the pivot image is not clamped away.
proof fn lemma_stretch_raw_below_limit(d: int, s: int, x: int, lo: int, hi: int)
    requires
        lo < s + 100 < hi,
        lo <= d + 100 <= hi,
        -(COORD_LIMIT as int) <= lo,
        hi <= COORD_LIMIT as int,
        x == s + 100,
    ensures
        spec_clamp(spec_stretch_raw(d, s, x, lo, hi)) == spec_stretch_raw(d, s, x, lo, hi),
{
    lemma_stretch_raw_above(d, s, x, lo, hi);
}

/// The floor quotient of a bounded dividend by a positive divisor stays in
/// the bound.
pub proof fn lemma_floor_div_in_range(a: int, b: int, m: int)
    requires
        b >= 1,
        0 <= m,
        -m <= a <= m,
    ensures
        -m <= spec_floor_div(a, b) <= m,
{
    lemma_fundamental_div_mod(a, b);
    let q = a / b;
    let r = a % b;
    assert(-m <= q <= m) by (nonlinear_arith)
        requires
            b >= 1,
            0 <= m,
            -m <= a <= m,
            a == b * q + r,
            0 <= r < b,
    ;
}

/// Floor division by a positive divisor is monotone in the dividend.
proof fn lemma_floor_div_monotone(a1: int, a2: int, b: int)
    requires
        a1 <= a2,
        b > 0,
    ensures
        spec_floor_div(a1, b) <= spec_floor_div(a2, b),
{
    lemma_fundamental_div_mod(a1, b);
    lemma_fundamental_div_mod(a2, b);
    assert(a1 / b <= a2 / b) by (nonlinear_arith)
        requires
            a1 <= a2,
            b > 0,
            a1 == b * (a1 / b) + a1 % b,
            a2 == b * (a2 / b) + a2 % b,
            0 <= a1 % b < b,
            0 <= a2 % b < b,
    ;
}

/// An exact multiple divides exactly.
proof fn lemma_floor_div_exact(k: int, b: int)
    requires
        b > 0,
    ensures
        spec_floor_div(k * b, b) == k,
{
    lemma_fundamental_div_mod(k * b, b);
    assert((k * b) / b == k) by (nonlinear_arith)
        requires
            b > 0,
            k * b == b * ((k * b) / b) + (k * b) % b,
            0 <= (k * b) % b < b,
    ;
}

} // verus!
