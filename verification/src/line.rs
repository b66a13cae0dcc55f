//! Glyph record lines: stroke lines, special (region transform) lines, and
//! component references, with their parser and their emitter.
//!
//! A record is a `$`-separated list of lines; a line is up to eleven
//! `:`-separated fields.  Every field but the eighth is numeric (floored and
//! clamped when parsed); the eighth may be a component name.  Missing
//! trailing fields read as zero.

pub mod component_reference_line;
pub mod special_line;
pub mod stroke_line;

use crate::geom::Point;
use crate::line::component_reference_line::{ComponentRefModel, ComponentReferenceLine};
use crate::line::special_line::{SpecialLineType, TransformType};
use crate::line::stroke_line::{EndType, StrokeKind, StrokeLineType, StrokeType};
use crate::text::{
    chars_to_string, digit_char, fmt_int, parse_field_num, spec_field_num, spec_int_chars,
    spec_nat_chars, spec_split, split_str,
};
use vstd::prelude::*;

verus! {

/// One line of a glyph record.
pub enum Line {
    /// A region transform applied to the polygons drawn so far.
    SpecialLine(SpecialLineType),
    /// One stroke of the glyph.
    StrokeLine(StrokeLineType),
    /// A reference that inlines another component's record.
    ComponentReferenceLine(ComponentReferenceLine),
    Unknown,
}

/// The mathematical reading of a line; a component reference is read with its
/// name as a character sequence.
pub enum LineModel {
    SpecialLine(SpecialLineType),
    StrokeLine(StrokeLineType),
    ComponentReferenceLine(ComponentRefModel),
    Unknown,
}

impl View for Line {
    type V = LineModel;

    open spec fn view(&self) -> LineModel {
        match self {
            Line::SpecialLine(l) => LineModel::SpecialLine(*l),
            Line::StrokeLine(l) => LineModel::StrokeLine(*l),
            Line::ComponentReferenceLine(l) => LineModel::ComponentReferenceLine(l@),
            Line::Unknown => LineModel::Unknown,
        }
    }
}

/// The numeric value of the `i`-th field of the token list (zero-based), or
/// `None` for a missing list entry or a textual field.  Missing trailing
/// fields read as numeric zero.
pub open spec fn spec_field(tokens: Seq<Seq<char>>, i: int) -> Option<int> {
    if i < tokens.len() {
        spec_field_num(tokens[i])
    } else {
        Some(0)
    }
}

/// The dispatch code of a field value: how a floored numeric field is read as
/// a nonnegative selector (negative values read as zero).
pub open spec fn spec_code(v: int) -> int {
    if v < 0 {
        0
    } else {
        v
    }
}

/// The reading of one line of a glyph record, given its `:`-split tokens.
pub open spec fn spec_line_of_tokens(tokens: Seq<Seq<char>>) -> LineModel {
    let f1 = spec_field(tokens, 0);
    let f2 = spec_field(tokens, 1);
    let f3 = spec_field(tokens, 2);
    let f4 = spec_field(tokens, 3);
    let f5 = spec_field(tokens, 4);
    let f6 = spec_field(tokens, 5);
    let f7 = spec_field(tokens, 6);
    let f9 = spec_field(tokens, 8);
    let f10 = spec_field(tokens, 9);
    let f11 = spec_field(tokens, 10);
    if f1 is None || f2 is None || f3 is None || f4 is None || f5 is None || f6 is None || f7
        is None || f9 is None || f10 is None || f11 is None {
        LineModel::Unknown
    } else {
        let c1 = spec_code(f1->0);
        let c2 = spec_code(f2->0);
        let c3 = spec_code(f3->0);
        let d1 = Point { x: f4->0 as i64, y: f5->0 as i64, off_curve: None };
        let d2 = Point { x: f6->0 as i64, y: f7->0 as i64, off_curve: None };
        if c1 == 99 {
            if 7 < tokens.len() && spec_field_num(tokens[7]) is None {
                LineModel::ComponentReferenceLine(
                    ComponentRefModel {
                        name: tokens[7],
                        box_diag_1: d1,
                        box_diag_2: d2,
                        primary_control_point: Point {
                            x: f2->0 as i64,
                            y: f3->0 as i64,
                            off_curve: None,
                        },
                        secondary_control_point: Point {
                            x: f10->0 as i64,
                            y: f11->0 as i64,
                            off_curve: None,
                        },
                    },
                )
            } else {
                LineModel::Unknown
            }
        } else if c1 == 0 && c2 == 99 && c3 == 1 {
            LineModel::SpecialLine(
                SpecialLineType {
                    transform_type: TransformType::Rotate90,
                    box_diag_1: d1,
                    box_diag_2: d2,
                },
            )
        } else if c1 == 0 && c2 == 99 && c3 == 2 {
            LineModel::SpecialLine(
                SpecialLineType {
                    transform_type: TransformType::Rotate180,
                    box_diag_1: d1,
                    box_diag_2: d2,
                },
            )
        } else if c1 == 0 && c2 == 99 && c3 == 3 {
            LineModel::SpecialLine(
                SpecialLineType {
                    transform_type: TransformType::Rotate270,
                    box_diag_1: d1,
                    box_diag_2: d2,
                },
            )
        } else if c1 == 0 && c2 == 98 && c3 == 0 {
            LineModel::SpecialLine(
                SpecialLineType {
                    transform_type: TransformType::HorizontalFlip,
                    box_diag_1: d1,
                    box_diag_2: d2,
                },
            )
        } else if c1 == 0 && c2 == 97 && c3 == 0 {
            LineModel::SpecialLine(
                SpecialLineType {
                    transform_type: TransformType::VerticalFlip,
                    box_diag_1: d1,
                    box_diag_2: d2,
                },
            )
        } else {
            let f8 = spec_field(tokens, 7);
            if f8 is None {
                LineModel::Unknown
            } else {
                let stroke = StrokeLineType::spec_new(
                    f1->0,
                    f2->0,
                    f3->0,
                    f4->0,
                    f5->0,
                    f6->0,
                    f7->0,
                    f8->0,
                    f9->0,
                    f10->0,
                    f11->0,
                );
                if stroke.stroke_type.kind is Unknown {
                    LineModel::Unknown
                } else {
                    LineModel::StrokeLine(stroke)
                }
            }
        }
    }
}

/// The reading of one line of a glyph record.
pub open spec fn spec_parse_line(s: Seq<char>) -> LineModel {
    spec_line_of_tokens(spec_split(s, ':'))
}

impl Line {
    /// Parses one line of a glyph record.
    pub fn new(line_data: &str) -> (r: Line)
        ensures
            r@ == spec_parse_line(line_data@),
    {
        let tokens = split_str(line_data, ':');
        let ghost toks = spec_split(line_data@, ':');
        proof {
            assert(tokens@.map_values(|t: String| t@) =~= toks);
        }
        let f1 = match field_at(&tokens, 0) {
            Some(v) => v,
            None => {
                return Line::Unknown;
            },
        };
        let f2 = match field_at(&tokens, 1) {
            Some(v) => v,
            None => {
                return Line::Unknown;
            },
        };
        let f3 = match field_at(&tokens, 2) {
            Some(v) => v,
            None => {
                return Line::Unknown;
            },
        };
        let f4 = match field_at(&tokens, 3) {
            Some(v) => v,
            None => {
                return Line::Unknown;
            },
        };
        let f5 = match field_at(&tokens, 4) {
            Some(v) => v,
            None => {
                return Line::Unknown;
            },
        };
        let f6 = match field_at(&tokens, 5) {
            Some(v) => v,
            None => {
                return Line::Unknown;
            },
        };
        let f7 = match field_at(&tokens, 6) {
            Some(v) => v,
            None => {
                return Line::Unknown;
            },
        };
        let f9 = match field_at(&tokens, 8) {
            Some(v) => v,
            None => {
                return Line::Unknown;
            },
        };
        let f10 = match field_at(&tokens, 9) {
            Some(v) => v,
            None => {
                return Line::Unknown;
            },
        };
        let f11 = match field_at(&tokens, 10) {
            Some(v) => v,
            None => {
                return Line::Unknown;
            },
        };
        let c1 = code_of(f1);
        let c2 = code_of(f2);
        let c3 = code_of(f3);
        let d1 = Point::new(f4, f5, None);
        let d2 = Point::new(f6, f7, None);
        if c1 == 99 {
            if tokens.len() > 7 && parse_field_num(tokens[7].as_str()).is_none() {
                let name = tokens[7].clone();
                proof {
                    assert(name@ == toks[7]);
                }
                return Line::ComponentReferenceLine(
                    ComponentReferenceLine {
                        component_name: name,
                        box_diag_1: d1,
                        box_diag_2: d2,
                        primary_control_point: Point::new(f2, f3, None),
                        secondary_control_point: Point::new(f10, f11, None),
                    },
                );
            }
            return Line::Unknown;
        }
        if c1 == 0 && c2 == 99 && c3 == 1 {
            return Line::SpecialLine(
                SpecialLineType {
                    transform_type: TransformType::Rotate90,
                    box_diag_1: d1,
                    box_diag_2: d2,
                },
            );
        }
        if c1 == 0 && c2 == 99 && c3 == 2 {
            return Line::SpecialLine(
                SpecialLineType {
                    transform_type: TransformType::Rotate180,
                    box_diag_1: d1,
                    box_diag_2: d2,
                },
            );
        }
        if c1 == 0 && c2 == 99 && c3 == 3 {
            return Line::SpecialLine(
                SpecialLineType {
                    transform_type: TransformType::Rotate270,
                    box_diag_1: d1,
                    box_diag_2: d2,
                },
            );
        }
        if c1 == 0 && c2 == 98 && c3 == 0 {
            return Line::SpecialLine(
                SpecialLineType {
                    transform_type: TransformType::HorizontalFlip,
                    box_diag_1: d1,
                    box_diag_2: d2,
                },
            );
        }
        if c1 == 0 && c2 == 97 && c3 == 0 {
            return Line::SpecialLine(
                SpecialLineType {
                    transform_type: TransformType::VerticalFlip,
                    box_diag_1: d1,
                    box_diag_2: d2,
                },
            );
        }
        let f8 = match field_at(&tokens, 7) {
            Some(v) => v,
            None => {
                return Line::Unknown;
            },
        };
        let stroke = StrokeLineType::new(f1, f2, f3, f4, f5, f6, f7, f8, f9, f10, f11);
        match stroke.stroke_type.kind {
            StrokeKind::Unknown => Line::Unknown,
            _ => Line::StrokeLine(stroke),
        }
    }
}

/// Reads the `i`-th field of the token list as a number; a missing trailing
/// field reads as zero, a textual field as `None`.
fn field_at(tokens: &Vec<String>, i: usize) -> (r: Option<i64>)
    ensures
        match spec_field(tokens@.map_values(|t: String| t@), i as int) {
            Some(v) => r == Some(v as i64),
            None => r is None,
        },
{
    if i < tokens.len() {
        let r = parse_field_num(tokens[i].as_str());
        proof {
            assert(tokens@.map_values(|t: String| t@)[i as int] == tokens@[i as int]@);
        }
        r
    } else {
        Some(0)
    }
}

/// The dispatch code of a numeric field: negative values read as zero.
fn code_of(v: i64) -> (r: i64)
    ensures
        r == spec_code(v as int),
{
    if v < 0 {
        0
    } else {
        v
    }
}

/// Emitting a vector of lines back into record text.
pub trait LineVecTrait {
    /// The record text of these lines, one `$`-terminated line for each
    /// stroke line, special line and component reference, in order.
    fn generate_kage(&self) -> (r: String)
        ensures
            r@ == spec_generate_kage(self.lines_view()),
    ;

    /// The lines as their mathematical readings.
    spec fn lines_view(&self) -> Seq<LineModel>;
}

/// The emitted text of a sequence of lines.
pub open spec fn spec_generate_kage(lines: Seq<LineModel>) -> Seq<char>
    decreases lines.len(),
{
    if lines.len() == 0 {
        Seq::empty()
    } else {
        spec_generate_kage(lines.drop_last()) + spec_emit_line(lines.last())
    }
}

/// The emitted text of one line, `$`-terminated; an unknown line emits
/// nothing.
pub open spec fn spec_emit_line(line: LineModel) -> Seq<char> {
    match line {
        LineModel::SpecialLine(l) => spec_emit_special(l),
        LineModel::ComponentReferenceLine(l) => spec_emit_component_ref(l),
        LineModel::StrokeLine(l) => spec_emit_stroke(l),
        LineModel::Unknown => Seq::empty(),
    }
}

/// `transform:0:d1.x:d1.y:d2.x:d2.y$` with the transform spelled as its two
/// leading fields.
pub open spec fn spec_emit_special(l: SpecialLineType) -> Seq<char> {
    let head = match l.transform_type {
        TransformType::VerticalFlip => "0:97:0:"@,
        TransformType::HorizontalFlip => "0:98:0:"@,
        TransformType::Rotate90 => "0:99:1:"@,
        TransformType::Rotate180 => "0:99:2:"@,
        TransformType::Rotate270 => "0:99:3:"@,
    };
    head + spec_int_chars(l.box_diag_1.x as int) + seq![':'] + spec_int_chars(
        l.box_diag_1.y as int,
    ) + seq![':'] + spec_int_chars(l.box_diag_2.x as int) + seq![':'] + spec_int_chars(
        l.box_diag_2.y as int,
    ) + seq!['$']
}

/// `99:pp.x:pp.y:d1.x:d1.y:d2.x:d2.y:name:0:sp.x:sp.y$`: the name is the
/// eighth field, as the parser expects it.
pub open spec fn spec_emit_component_ref(l: ComponentRefModel) -> Seq<char> {
    "99:"@ + spec_int_chars(l.primary_control_point.x as int) + seq![':'] + spec_int_chars(
        l.primary_control_point.y as int,
    ) + seq![':'] + spec_int_chars(l.box_diag_1.x as int) + seq![':'] + spec_int_chars(
        l.box_diag_1.y as int,
    ) + seq![':'] + spec_int_chars(l.box_diag_2.x as int) + seq![':'] + spec_int_chars(
        l.box_diag_2.y as int,
    ) + seq![':'] + l.name + ":0:"@ + spec_int_chars(
        l.secondary_control_point.x as int,
    ) + seq![':'] + spec_int_chars(l.secondary_control_point.y as int) + seq!['$']
}

/// `base:head:tail:` then the points that the stroke kind uses, `$`-closed.
/// The head and tail fields rejoin base and option as `base + 100 * opt`.
pub open spec fn spec_emit_stroke(l: StrokeLineType) -> Seq<char> {
    let head = spec_int_chars(l.stroke_type.base as int) + seq![':'] + spec_int_chars(
        l.head_shape.base + l.head_shape.opt * 100,
    ) + seq![':'] + spec_int_chars(l.tail_shape.base + l.tail_shape.opt * 100) + seq![':']
        + spec_int_chars(l.point_1.x as int) + seq![':'] + spec_int_chars(l.point_1.y as int)
        + seq![':'] + spec_int_chars(l.point_2.x as int) + seq![':'] + spec_int_chars(
        l.point_2.y as int,
    );
    let tail = match l.stroke_type.kind {
        StrokeKind::Curve | StrokeKind::BendLine | StrokeKind::OtsuCurve => seq![':']
            + spec_int_chars(l.point_3.x as int) + seq![':'] + spec_int_chars(
            l.point_3.y as int,
        ),
        StrokeKind::ComplexCurve | StrokeKind::VerticalSlash => seq![':'] + spec_int_chars(
            l.point_3.x as int,
        ) + seq![':'] + spec_int_chars(l.point_3.y as int) + seq![':'] + spec_int_chars(
            l.point_4.x as int,
        ) + seq![':'] + spec_int_chars(l.point_4.y as int),
        StrokeKind::StraightLine | StrokeKind::Unknown => Seq::empty(),
    };
    head + tail + seq!['$']
}

impl LineVecTrait for Vec<Line> {
    open spec fn lines_view(&self) -> Seq<LineModel> {
        self@.map_values(|l: Line| l@)
    }

    fn generate_kage(&self) -> (r: String) {
        let mut out: Vec<char> = Vec::new();
        let n = self.len();
        let mut i: usize = 0;
        while i < n
            invariant
                i <= n,
                n == self@.len(),
                out@ == spec_generate_kage(self.lines_view().take(i as int)),
            decreases n - i,
        {
            match &self[i] {
                Line::SpecialLine(l) => emit_special(l, &mut out),
                Line::ComponentReferenceLine(l) => emit_component_ref(l, &mut out),
                Line::StrokeLine(l) => emit_stroke(l, &mut out),
                Line::Unknown => {},
            }
            proof {
                assert(self.lines_view().take(i + 1).drop_last() =~= self.lines_view().take(
                    i as int,
                ));
                assert(self.lines_view().take(i + 1).last() == self@[i as int]@);
            }
            i += 1;
        }
        proof {
            assert(self.lines_view().take(n as int) =~= self.lines_view());
        }
        chars_to_string(&out)
    }
}

/// Appends the characters of a short literal.
fn push_lit(out: &mut Vec<char>, chars: &[char])
    ensures
        final(out)@ == old(out)@ + chars@,
{
    let n = chars.len();
    let mut i: usize = 0;
    while i < n
        invariant
            i <= n,
            n == chars@.len(),
            out@ == old(out)@ + chars@.take(i as int),
        decreases n - i,
    {
        out.push(chars[i]);
        proof {
            assert(chars@.take(i + 1) =~= chars@.take(i as int).push(chars@[i as int]));
            assert(out@ =~= old(out)@ + chars@.take(i + 1));
        }
        i += 1;
    }
    proof {
        assert(chars@.take(n as int) =~= chars@);
    }
}

fn emit_special(l: &SpecialLineType, out: &mut Vec<char>)
    ensures
        final(out)@ == old(out)@ + spec_emit_special(*l),
{
    match l.transform_type {
        TransformType::VerticalFlip => {
            push_lit(out, &['0', ':', '9', '7', ':', '0', ':']);
            proof {
                reveal_strlit("0:97:0:");
                assert(['0', ':', '9', '7', ':', '0', ':']@ =~= "0:97:0:"@);
            }
        },
        TransformType::HorizontalFlip => {
            push_lit(out, &['0', ':', '9', '8', ':', '0', ':']);
            proof {
                reveal_strlit("0:98:0:");
                assert(['0', ':', '9', '8', ':', '0', ':']@ =~= "0:98:0:"@);
            }
        },
        TransformType::Rotate90 => {
            push_lit(out, &['0', ':', '9', '9', ':', '1', ':']);
            proof {
                reveal_strlit("0:99:1:");
                assert(['0', ':', '9', '9', ':', '1', ':']@ =~= "0:99:1:"@);
            }
        },
        TransformType::Rotate180 => {
            push_lit(out, &['0', ':', '9', '9', ':', '2', ':']);
            proof {
                reveal_strlit("0:99:2:");
                assert(['0', ':', '9', '9', ':', '2', ':']@ =~= "0:99:2:"@);
            }
        },
        TransformType::Rotate270 => {
            push_lit(out, &['0', ':', '9', '9', ':', '3', ':']);
            proof {
                reveal_strlit("0:99:3:");
                assert(['0', ':', '9', '9', ':', '3', ':']@ =~= "0:99:3:"@);
            }
        },
    }
    fmt_int(l.box_diag_1.x, out);
    out.push(':');
    fmt_int(l.box_diag_1.y, out);
    out.push(':');
    fmt_int(l.box_diag_2.x, out);
    out.push(':');
    fmt_int(l.box_diag_2.y, out);
    out.push('$');
    proof {
        assert(final(out)@ =~= old(out)@ + spec_emit_special(*l));
    }
}

fn emit_component_ref(l: &ComponentReferenceLine, out: &mut Vec<char>)
    ensures
        final(out)@ == old(out)@ + spec_emit_component_ref(l@),
{
    push_lit(out, &['9', '9', ':']);
    proof {
        reveal_strlit("99:");
        assert(['9', '9', ':']@ =~= "99:"@);
    }
    fmt_int(l.primary_control_point.x, out);
    out.push(':');
    fmt_int(l.primary_control_point.y, out);
    out.push(':');
    fmt_int(l.box_diag_1.x, out);
    out.push(':');
    fmt_int(l.box_diag_1.y, out);
    out.push(':');
    fmt_int(l.box_diag_2.x, out);
    out.push(':');
    fmt_int(l.box_diag_2.y, out);
    out.push(':');
    push_name(out, l.component_name.as_str());
    push_lit(out, &[':', '0', ':']);
    proof {
        reveal_strlit(":0:");
        assert([':', '0', ':']@ =~= ":0:"@);
    }
    fmt_int(l.secondary_control_point.x, out);
    out.push(':');
    fmt_int(l.secondary_control_point.y, out);
    out.push('$');
    proof {
        assert(final(out)@ =~= old(out)@ + spec_emit_component_ref(l@));
    }
}

/// Appends the characters of a name.
fn push_name(out: &mut Vec<char>, name: &str)
    ensures
        final(out)@ == old(out)@ + name@,
{
    let n = name.unicode_len();
    let mut i: usize = 0;
    while i < n
        invariant
            i <= n,
            n == name@.len(),
            out@ == old(out)@ + name@.take(i as int),
        decreases n - i,
    {
        out.push(name.get_char(i));
        proof {
            assert(name@.take(i + 1) =~= name@.take(i as int).push(name@[i as int]));
            assert(out@ =~= old(out)@ + name@.take(i + 1));
        }
        i += 1;
    }
    proof {
        assert(name@.take(n as int) =~= name@);
    }
}

#[verifier::rlimit(100)]
fn emit_stroke(l: &StrokeLineType, out: &mut Vec<char>)
    ensures
        final(out)@ == old(out)@ + spec_emit_stroke(*l),
{
    fmt_int(l.stroke_type.base as i64, out);
    out.push(':');
    fmt_int((l.head_shape.base as i64) + (l.head_shape.opt as i64) * 100, out);
    out.push(':');
    fmt_int((l.tail_shape.base as i64) + (l.tail_shape.opt as i64) * 100, out);
    out.push(':');
    fmt_int(l.point_1.x, out);
    out.push(':');
    fmt_int(l.point_1.y, out);
    out.push(':');
    fmt_int(l.point_2.x, out);
    out.push(':');
    fmt_int(l.point_2.y, out);
    match l.stroke_type.kind {
        StrokeKind::Curve | StrokeKind::BendLine | StrokeKind::OtsuCurve => {
            out.push(':');
            fmt_int(l.point_3.x, out);
            out.push(':');
            fmt_int(l.point_3.y, out);
        },
        StrokeKind::ComplexCurve | StrokeKind::VerticalSlash => {
            out.push(':');
            fmt_int(l.point_3.x, out);
            out.push(':');
            fmt_int(l.point_3.y, out);
            out.push(':');
            fmt_int(l.point_4.x, out);
            out.push(':');
            fmt_int(l.point_4.y, out);
        },
        StrokeKind::StraightLine | StrokeKind::Unknown => {},
    }
    out.push('$');
    proof {
        assert(final(out)@ =~= old(out)@ + spec_emit_stroke(*l));
    }
}


/// The fields joined with a separator between consecutive fields.
pub open spec fn spec_join(fields: Seq<Seq<char>>, sep: char) -> Seq<char>
    decreases fields.len(),
{
    if fields.len() == 0 {
        Seq::empty()
    } else if fields.len() == 1 {
        fields[0]
    } else {
        fields[0] + seq![sep] + spec_join(fields.drop_first(), sep)
    }
}

/// Whether `s` avoids the character `c`.
pub open spec fn avoids(s: Seq<char>, c: char) -> bool {
    forall|i: int| 0 <= i < s.len() ==> s[i] != c
}

/// Splitting undoes joining, as long as no field holds the separator.
pub proof fn lemma_split_join(fields: Seq<Seq<char>>, sep: char)
    requires
        fields.len() >= 1,
        forall|k: int| 0 <= k < fields.len() ==> avoids(#[trigger] fields[k], sep),
    ensures
        spec_split(spec_join(fields, sep), sep) == fields,
    decreases fields.len(),
{
    let joined = spec_join(fields, sep);
    if fields.len() == 1 {
        crate::text::lemma_first_index_absent(fields[0], sep);
        assert(spec_split(joined, sep) =~~= fields);
    } else {
        let a = fields[0];
        let rest = spec_join(fields.drop_first(), sep);
        assert(joined == a + seq![sep] + rest);
        assert(joined[a.len() as int] == sep);
        assert forall|k: int| 0 <= k < a.len() implies joined[k] != sep by {
            assert(joined[k] == a[k]);
        }
        crate::text::lemma_first_index_found(joined, sep, a.len() as int);
        assert(joined.take(a.len() as int) =~= a);
        assert(joined.skip(a.len() as int + 1) =~= rest);
        assert(forall|k: int|
            0 <= k < fields.drop_first().len() ==> avoids(
                #[trigger] fields.drop_first()[k],
                sep,
            ));
        lemma_split_join(fields.drop_first(), sep);
        assert(spec_split(joined, sep) =~~= seq![a] + fields.drop_first());
        assert(seq![a] + fields.drop_first() =~= fields);
    }
}

/// The canonical spelling of an in-range coordinate reads back as itself,
/// avoiding the record separators.
proof fn lemma_coord_token(v: int)
    requires
        -1_000_000 <= v <= 1_000_000,
    ensures
        spec_field_num(spec_int_chars(v)) == Some(v),
        avoids(spec_int_chars(v), ':'),
        avoids(spec_int_chars(v), '$'),
{
    crate::text::lemma_int_chars_roundtrip(v);
    assert forall|i: int| 0 <= i < spec_int_chars(v).len() implies spec_int_chars(v)[i]
        != ':' by {
        assert(spec_int_chars(v).contains(spec_int_chars(v)[i]));
    }
    assert forall|i: int| 0 <= i < spec_int_chars(v).len() implies spec_int_chars(v)[i]
        != '$' by {
        assert(spec_int_chars(v).contains(spec_int_chars(v)[i]));
    }
}

/// A terminal shape reads back from its rejoined code.
pub open spec fn round_trips_end(e: EndType) -> bool {
    &&& e.base < 100
    &&& e.opt <= 9999
    &&& e == EndType::spec_new(e.base + e.opt * 100)
}

/// A point carries in-range coordinates and no curve flag, as every parsed
/// control point does.
pub open spec fn plain_point(p: Point) -> bool {
    p.in_range() && p.off_curve is None
}

/// Whether a stroke line reads back from its emitted text: its stroke code
/// is a plain recognized base, its end shapes rejoin their codes, and only
/// the control points of its kind are set.
pub open spec fn round_trips_stroke(s: StrokeLineType) -> bool {
    &&& s.stroke_type.opt == 0
    &&& s.stroke_type == StrokeType::spec_new(s.stroke_type.base as int)
    &&& !(s.stroke_type.kind is Unknown)
    &&& round_trips_end(s.head_shape)
    &&& round_trips_end(s.tail_shape)
    &&& plain_point(s.point_1)
    &&& plain_point(s.point_2)
    &&& plain_point(s.point_3)
    &&& plain_point(s.point_4)
    &&& match s.stroke_type.kind {
        StrokeKind::StraightLine => s.point_3 == (Point { x: 0i64, y: 0i64, off_curve: None })
            && s.point_4 == (Point { x: 0i64, y: 0i64, off_curve: None }),
        StrokeKind::Curve | StrokeKind::BendLine | StrokeKind::OtsuCurve => s.point_4 == (Point {
            x: 0i64,
            y: 0i64,
            off_curve: None,
        }),
        _ => true,
    }
}

/// Whether a special line reads back from its emitted text.
pub open spec fn round_trips_special(l: SpecialLineType) -> bool {
    plain_point(l.box_diag_1) && plain_point(l.box_diag_2)
}

/// Whether a component reference reads back from its emitted text: its
/// points are plain and its name is textual and free of separators.
pub open spec fn round_trips_component_ref(c: ComponentRefModel) -> bool {
    &&& plain_point(c.box_diag_1)
    &&& plain_point(c.box_diag_2)
    &&& plain_point(c.primary_control_point)
    &&& plain_point(c.secondary_control_point)
    &&& crate::text::spec_token_num(c.name) is None
    &&& avoids(c.name, ':')
    &&& avoids(c.name, '$')
}

/// Whether a line reads back from its emitted text.
pub open spec fn round_trips_line(m: LineModel) -> bool {
    match m {
        LineModel::SpecialLine(l) => round_trips_special(l),
        LineModel::StrokeLine(s) => round_trips_stroke(s),
        LineModel::ComponentReferenceLine(c) => round_trips_component_ref(c),
        LineModel::Unknown => false,
    }
}

/// Parsing inverts emitting: every stroke line, special line and component
/// reference that the emitter can spell reads back as itself from its own
/// record text (the `$` terminator removed, as the record splitter removes
/// it).
pub proof fn lemma_parse_inverts_emit(m: LineModel)
    requires
        round_trips_line(m),
    ensures
        spec_emit_line(m).len() >= 1,
        spec_emit_line(m).last() == '$',
        spec_parse_line(spec_emit_line(m).drop_last()) == m,
{
    match m {
        LineModel::SpecialLine(l) => lemma_parse_inverts_emit_special(l),
        LineModel::StrokeLine(s) => lemma_parse_inverts_emit_stroke(s),
        LineModel::ComponentReferenceLine(c) => lemma_parse_inverts_emit_component(c),
        LineModel::Unknown => {},
    }
}

/// The fields of an emitted special line, in order.
pub open spec fn spec_special_fields(l: SpecialLineType) -> Seq<Seq<char>> {
    let c2: int = match l.transform_type {
        TransformType::VerticalFlip => 97,
        TransformType::HorizontalFlip => 98,
        TransformType::Rotate90 => 99,
        TransformType::Rotate180 => 99,
        TransformType::Rotate270 => 99,
    };
    let c3: int = match l.transform_type {
        TransformType::VerticalFlip => 0,
        TransformType::HorizontalFlip => 0,
        TransformType::Rotate90 => 1,
        TransformType::Rotate180 => 2,
        TransformType::Rotate270 => 3,
    };
    seq![
        spec_int_chars(0),
        spec_int_chars(c2),
        spec_int_chars(c3),
        spec_int_chars(l.box_diag_1.x as int),
        spec_int_chars(l.box_diag_1.y as int),
        spec_int_chars(l.box_diag_2.x as int),
        spec_int_chars(l.box_diag_2.y as int),
    ]
}

/// An emitted special line is its fields joined by colons, then closed.
#[verifier::rlimit(100)]
proof fn lemma_emit_special_join(l: SpecialLineType)
    ensures
        spec_emit_special(l) == spec_join(spec_special_fields(l), ':') + seq!['$'],
{
    lemma_digit_strings();
    let fields = spec_special_fields(l);
    reveal_with_fuel(spec_join, 9);
    match l.transform_type {
        TransformType::VerticalFlip => {
            reveal_strlit("0:97:0:");
            assert("0:97:0:"@ =~= seq!['0'] + seq![':'] + seq!['9', '7'] + seq![':'] + seq!['0']
                + seq![':']);
        },
        TransformType::HorizontalFlip => {
            reveal_strlit("0:98:0:");
            assert("0:98:0:"@ =~= seq!['0'] + seq![':'] + seq!['9', '8'] + seq![':'] + seq!['0']
                + seq![':']);
        },
        TransformType::Rotate90 => {
            reveal_strlit("0:99:1:");
            assert("0:99:1:"@ =~= seq!['0'] + seq![':'] + seq!['9', '9'] + seq![':'] + seq!['1']
                + seq![':']);
        },
        TransformType::Rotate180 => {
            reveal_strlit("0:99:2:");
            assert("0:99:2:"@ =~= seq!['0'] + seq![':'] + seq!['9', '9'] + seq![':'] + seq!['2']
                + seq![':']);
        },
        TransformType::Rotate270 => {
            reveal_strlit("0:99:3:");
            assert("0:99:3:"@ =~= seq!['0'] + seq![':'] + seq!['9', '9'] + seq![':'] + seq!['3']
                + seq![':']);
        },
    }
    assert(spec_emit_special(l) =~= spec_join(fields, ':') + seq!['$']);
}

/// The tokens of an emitted special line read back as the line.
#[verifier::rlimit(100)]
proof fn lemma_parse_inverts_emit_special(l: SpecialLineType)
    requires
        round_trips_special(l),
    ensures
        spec_emit_special(l).len() >= 1,
        spec_emit_special(l).last() == '$',
        spec_parse_line(spec_emit_special(l).drop_last()) == LineModel::SpecialLine(l),
{
    let c2: int = match l.transform_type {
        TransformType::VerticalFlip => 97,
        TransformType::HorizontalFlip => 98,
        TransformType::Rotate90 => 99,
        TransformType::Rotate180 => 99,
        TransformType::Rotate270 => 99,
    };
    let c3: int = match l.transform_type {
        TransformType::VerticalFlip => 0,
        TransformType::HorizontalFlip => 0,
        TransformType::Rotate90 => 1,
        TransformType::Rotate180 => 2,
        TransformType::Rotate270 => 3,
    };
    let fields = spec_special_fields(l);
    lemma_emit_special_join(l);
    lemma_coord_token(0);
    lemma_coord_token(c2);
    lemma_coord_token(c3);
    lemma_coord_token(l.box_diag_1.x as int);
    lemma_coord_token(l.box_diag_1.y as int);
    lemma_coord_token(l.box_diag_2.x as int);
    lemma_coord_token(l.box_diag_2.y as int);
    assert(spec_emit_special(l).drop_last() =~= spec_join(fields, ':'));
    assert(forall|k: int| 0 <= k < fields.len() ==> avoids(#[trigger] fields[k], ':'));
    lemma_split_join(fields, ':');
    let toks = spec_split(spec_emit_special(l).drop_last(), ':');
    assert(toks == fields);
    assert(spec_field(toks, 0) == Some(0int));
    assert(spec_field(toks, 1) == Some(c2));
    assert(spec_field(toks, 2) == Some(c3));
    assert(spec_field(toks, 7) == Some(0int));
    assert(spec_line_of_tokens(toks) == LineModel::SpecialLine(l));
}

/// The concrete spellings of the small dispatch codes.
proof fn lemma_digit_strings()
    ensures
        spec_int_chars(0) =~= seq!['0'],
        spec_int_chars(1) =~= seq!['1'],
        spec_int_chars(2) =~= seq!['2'],
        spec_int_chars(3) =~= seq!['3'],
        spec_int_chars(97) =~= seq!['9', '7'],
        spec_int_chars(98) =~= seq!['9', '8'],
        spec_int_chars(99) =~= seq!['9', '9'],
{
    assert(spec_int_chars(97) == spec_nat_chars(9).push(digit_char(7)));
    assert(spec_int_chars(98) == spec_nat_chars(9).push(digit_char(8)));
    assert(spec_int_chars(99) == spec_nat_chars(9).push(digit_char(9)));
}

/// The fields of an emitted component reference, in order.
pub open spec fn spec_component_fields(c: ComponentRefModel) -> Seq<Seq<char>> {
    seq![
        spec_int_chars(99),
        spec_int_chars(c.primary_control_point.x as int),
        spec_int_chars(c.primary_control_point.y as int),
        spec_int_chars(c.box_diag_1.x as int),
        spec_int_chars(c.box_diag_1.y as int),
        spec_int_chars(c.box_diag_2.x as int),
        spec_int_chars(c.box_diag_2.y as int),
        c.name,
        spec_int_chars(0),
        spec_int_chars(c.secondary_control_point.x as int),
        spec_int_chars(c.secondary_control_point.y as int),
    ]
}

/// An emitted component reference is its fields joined by colons, closed.
#[verifier::rlimit(100)]
proof fn lemma_emit_component_join(c: ComponentRefModel)
    ensures
        spec_emit_component_ref(c) == spec_join(spec_component_fields(c), ':') + seq!['$'],
{
    lemma_digit_strings();
    reveal_with_fuel(spec_join, 13);
    reveal_strlit("99:");
    reveal_strlit(":0:");
    assert("99:"@ =~= seq!['9', '9'] + seq![':']);
    assert(":0:"@ =~= seq![':'] + seq!['0'] + seq![':']);
    assert(spec_emit_component_ref(c) =~= spec_join(spec_component_fields(c), ':')
        + seq!['$']);
}

/// The fields of an emitted component reference read back as the line.
#[verifier::rlimit(100)]
proof fn lemma_component_fields_eval(c: ComponentRefModel)
    requires
        round_trips_component_ref(c),
    ensures
        spec_line_of_tokens(spec_component_fields(c)) == LineModel::ComponentReferenceLine(c),
{
    let toks = spec_component_fields(c);
    lemma_coord_token(99);
    lemma_coord_token(0);
    lemma_coord_token(c.primary_control_point.x as int);
    lemma_coord_token(c.primary_control_point.y as int);
    lemma_coord_token(c.box_diag_1.x as int);
    lemma_coord_token(c.box_diag_1.y as int);
    lemma_coord_token(c.box_diag_2.x as int);
    lemma_coord_token(c.box_diag_2.y as int);
    lemma_coord_token(c.secondary_control_point.x as int);
    lemma_coord_token(c.secondary_control_point.y as int);
    assert(spec_field(toks, 0) == Some(99int));
    assert(spec_field_num(toks[7]) is None);
    assert(spec_line_of_tokens(toks) == LineModel::ComponentReferenceLine(c));
}

/// The emitted text of a component reference splits back into its fields.
#[verifier::rlimit(100)]
proof fn lemma_component_tokens(c: ComponentRefModel)
    requires
        round_trips_component_ref(c),
    ensures
        spec_emit_component_ref(c).len() >= 1,
        spec_emit_component_ref(c).last() == '$',
        spec_split(spec_emit_component_ref(c).drop_last(), ':') == spec_component_fields(c),
{
    let fields = spec_component_fields(c);
    lemma_emit_component_join(c);
    lemma_coord_token(99);
    lemma_coord_token(0);
    lemma_coord_token(c.primary_control_point.x as int);
    lemma_coord_token(c.primary_control_point.y as int);
    lemma_coord_token(c.box_diag_1.x as int);
    lemma_coord_token(c.box_diag_1.y as int);
    lemma_coord_token(c.box_diag_2.x as int);
    lemma_coord_token(c.box_diag_2.y as int);
    lemma_coord_token(c.secondary_control_point.x as int);
    lemma_coord_token(c.secondary_control_point.y as int);
    assert(spec_emit_component_ref(c).drop_last() =~= spec_join(fields, ':'));
    assert(forall|k: int| 0 <= k < fields.len() ==> avoids(#[trigger] fields[k], ':'));
    lemma_split_join(fields, ':');
}

/// The tokens of an emitted component reference read back as the line.
#[verifier::rlimit(100)]
proof fn lemma_parse_inverts_emit_component(c: ComponentRefModel)
    requires
        round_trips_component_ref(c),
    ensures
        spec_emit_component_ref(c).len() >= 1,
        spec_emit_component_ref(c).last() == '$',
        spec_parse_line(spec_emit_component_ref(c).drop_last())
            == LineModel::ComponentReferenceLine(c),
{
    lemma_component_tokens(c);
    lemma_component_fields_eval(c);
}

/// The fields of an emitted stroke line, in order: the points follow the
/// stroke kind.
pub open spec fn spec_stroke_fields(s: StrokeLineType) -> Seq<Seq<char>> {
    let head = seq![
        spec_int_chars(s.stroke_type.base as int),
        spec_int_chars(s.head_shape.base + s.head_shape.opt * 100),
        spec_int_chars(s.tail_shape.base + s.tail_shape.opt * 100),
        spec_int_chars(s.point_1.x as int),
        spec_int_chars(s.point_1.y as int),
        spec_int_chars(s.point_2.x as int),
        spec_int_chars(s.point_2.y as int),
    ];
    match s.stroke_type.kind {
        StrokeKind::Curve | StrokeKind::BendLine | StrokeKind::OtsuCurve => head + seq![
            spec_int_chars(s.point_3.x as int),
            spec_int_chars(s.point_3.y as int),
        ],
        StrokeKind::ComplexCurve | StrokeKind::VerticalSlash => head + seq![
            spec_int_chars(s.point_3.x as int),
            spec_int_chars(s.point_3.y as int),
            spec_int_chars(s.point_4.x as int),
            spec_int_chars(s.point_4.y as int),
        ],
        _ => head,
    }
}

/// An emitted stroke line is its fields joined by colons, then closed.
#[verifier::rlimit(100)]
proof fn lemma_emit_stroke_join(s: StrokeLineType)
    ensures
        spec_emit_stroke(s) == spec_join(spec_stroke_fields(s), ':') + seq!['$'],
{
    reveal_with_fuel(spec_join, 13);
    assert(spec_emit_stroke(s) =~= spec_join(spec_stroke_fields(s), ':') + seq!['$']);
}

/// The tokens of an emitted stroke line read back as the line.
#[verifier::rlimit(100)]
proof fn lemma_parse_inverts_emit_stroke(s: StrokeLineType)
    requires
        round_trips_stroke(s),
    ensures
        spec_emit_stroke(s).len() >= 1,
        spec_emit_stroke(s).last() == '$',
        spec_parse_line(spec_emit_stroke(s).drop_last()) == LineModel::StrokeLine(s),
{
    let f1: int = s.stroke_type.base as int;
    let f2: int = s.head_shape.base + s.head_shape.opt * 100;
    let f3: int = s.tail_shape.base + s.tail_shape.opt * 100;
    let fields = spec_stroke_fields(s);
    lemma_emit_stroke_join(s);
    lemma_coord_token(f1);
    lemma_coord_token(f2);
    lemma_coord_token(f3);
    lemma_coord_token(s.point_1.x as int);
    lemma_coord_token(s.point_1.y as int);
    lemma_coord_token(s.point_2.x as int);
    lemma_coord_token(s.point_2.y as int);
    lemma_coord_token(s.point_3.x as int);
    lemma_coord_token(s.point_3.y as int);
    lemma_coord_token(s.point_4.x as int);
    lemma_coord_token(s.point_4.y as int);
    assert(spec_emit_stroke(s).drop_last() =~= spec_join(fields, ':'));
    assert(forall|k: int| 0 <= k < fields.len() ==> avoids(#[trigger] fields[k], ':'));
    lemma_split_join(fields, ':');
    lemma_stroke_fields_eval(s);
}

/// The fields of an emitted stroke line read back as the stroke.
#[verifier::rlimit(100)]
proof fn lemma_stroke_fields_eval(s: StrokeLineType)
    requires
        round_trips_stroke(s),
    ensures
        spec_line_of_tokens(spec_stroke_fields(s)) == LineModel::StrokeLine(s),
{
    let f1: int = s.stroke_type.base as int;
    let f2: int = s.head_shape.base + s.head_shape.opt * 100;
    let f3: int = s.tail_shape.base + s.tail_shape.opt * 100;
    let toks = spec_stroke_fields(s);
    lemma_coord_token(f1);
    lemma_coord_token(f2);
    lemma_coord_token(f3);
    lemma_coord_token(s.point_1.x as int);
    lemma_coord_token(s.point_1.y as int);
    lemma_coord_token(s.point_2.x as int);
    lemma_coord_token(s.point_2.y as int);
    lemma_coord_token(s.point_3.x as int);
    lemma_coord_token(s.point_3.y as int);
    lemma_coord_token(s.point_4.x as int);
    lemma_coord_token(s.point_4.y as int);
    assert(s.stroke_type.base != 99 && s.stroke_type.base != 0);
    lemma_stroke_spec_new(s);
    assert(spec_line_of_tokens(toks) == LineModel::StrokeLine(s));
}

/// A stroke that satisfies the round-trip shape is rebuilt by the field
/// reading.
#[verifier::rlimit(100)]
proof fn lemma_stroke_spec_new(s: StrokeLineType)
    requires
        round_trips_stroke(s),
    ensures
        StrokeLineType::spec_new(
            s.stroke_type.base as int,
            s.head_shape.base + s.head_shape.opt * 100,
            s.tail_shape.base + s.tail_shape.opt * 100,
            s.point_1.x as int,
            s.point_1.y as int,
            s.point_2.x as int,
            s.point_2.y as int,
            s.point_3.x as int,
            s.point_3.y as int,
            s.point_4.x as int,
            s.point_4.y as int,
        ) == s,
{
    lemma_end_code_roundtrip(s.head_shape);
    lemma_end_code_roundtrip(s.tail_shape);
}

/// A terminal shape is recovered from its rejoined code.
proof fn lemma_end_code_roundtrip(e: EndType)
    requires
        round_trips_end(e),
    ensures
        EndType::spec_new(e.base + e.opt * 100) == e,
        0 <= e.base + e.opt * 100 <= 1_000_000,
{
}

} // verus!
