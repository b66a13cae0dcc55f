use kage::geom::Point;
use kage::line::stroke_line::{
    stretch_point, Bounds, EndKind, EndType, StrokeKind, StrokeLineType, StrokeType,
};
use kage::line::{Line, LineVecTrait};

fn pt(x: i64, y: i64) -> Point {
    Point { x, y, off_curve: None }
}

#[test]
fn test_line_init() {
    let line_special_rotate_270 = Line::new("0:99:3:0:0:200:200:0:0:0:0");
    let line_special_rotate_180 = Line::new("0:99:2:0:0:200:200:0:0:0:0");
    let line_special_rotate_90 = Line::new("0:99:1:0:0:200:200:0:0:0:0");
    let line_component_reference = Line::new("99:0:0:41:0:172:200:u4e3f-07:0:0:0");
    let line_stroke_1 = Line::new("7:0:7:99:17:99:79:99:158:18:188");
    let line_stroke_2 = Line::new("4:22:5:74:87:77:180:184:180");
    let line_stroke_3 = Line::new("1:0:0:26:42:87:42");

    match line_special_rotate_270 {
        Line::SpecialLine(l) => {
            assert_eq!(l.box_diag_1, pt(0, 0));
            assert_eq!(l.box_diag_2, pt(200, 200));
        },
        _ => panic!("expected a special line"),
    }
    assert!(matches!(line_special_rotate_180, Line::SpecialLine(_)));
    assert!(matches!(line_special_rotate_90, Line::SpecialLine(_)));
    match line_component_reference {
        Line::ComponentReferenceLine(c) => {
            assert_eq!(c.component_name, "u4e3f-07");
            assert_eq!(c.box_diag_1, pt(41, 0));
            assert_eq!(c.box_diag_2, pt(172, 200));
        },
        _ => panic!("expected a component reference"),
    }
    match line_stroke_1 {
        Line::StrokeLine(s) => {
            assert_eq!(s.stroke_type.kind, StrokeKind::VerticalSlash);
            assert_eq!(s.point_4, pt(18, 188));
        },
        _ => panic!("expected a stroke line"),
    }
    match line_stroke_2 {
        Line::StrokeLine(s) => {
            assert_eq!(s.stroke_type.kind, StrokeKind::OtsuCurve);
            assert_eq!(s.head_shape.kind, EndKind::TopRightCorner);
            assert_eq!(s.tail_shape.kind, EndKind::RightUpwardFlick);
        },
        _ => panic!("expected a stroke line"),
    }
    match line_stroke_3 {
        Line::StrokeLine(s) => {
            assert_eq!(s.stroke_type.kind, StrokeKind::StraightLine);
            assert_eq!(s.point_1, pt(26, 42));
            assert_eq!(s.point_2, pt(87, 42));
        },
        _ => panic!("expected a stroke line"),
    }
}

#[test]
fn test_line_fractional_fields_floor() {
    match Line::new("1:0:0:10.5:-2.5:30:40") {
        Line::StrokeLine(s) => {
            assert_eq!(s.point_1, pt(10, -3));
            assert_eq!(s.point_2, pt(30, 40));
        },
        _ => panic!("expected a stroke line"),
    }
}

#[test]
fn test_line_malformed_is_unknown() {
    assert!(matches!(Line::new(""), Line::Unknown));
    assert!(matches!(Line::new("abc:0:0:1:2:3:4"), Line::Unknown));
    assert!(matches!(Line::new("5:0:0:1:2:3:4"), Line::Unknown));
    // a component reference needs a textual name in the eighth field
    assert!(matches!(Line::new("99:0:0:0:0:200:200:7:0:0:0"), Line::Unknown));
}

#[test]
fn test_construction() {
    let stroke1 = StrokeLineType::new(1, 0, 2, 32, 31, 176, 31, 0, 0, 0, 0);
    assert_eq!(
        stroke1.stroke_type,
        StrokeType { base: 1, opt: 0, kind: StrokeKind::StraightLine }
    );
    assert_eq!(stroke1.head_shape.kind, EndKind::Free);
    assert_eq!(stroke1.tail_shape.kind, EndKind::HorizontalConnection);
    assert_eq!(stroke1.point_1, pt(32, 31));
    assert_eq!(stroke1.point_2, pt(176, 31));

    assert_eq!(stroke1.get_control_segments(), vec![(pt(32, 31), pt(176, 31))]);
    assert_eq!(
        stroke1.get_box(),
        Some(Bounds { min_point: pt(32, 31), max_point: pt(176, 31) })
    );
}

#[test]
fn test_different_stroke_type() {
    let stroke2 = StrokeLineType::new(2, 22, 7, 176, 31, 170, 43, 156, 63, 0, 0);
    assert_eq!(stroke2.stroke_type.kind, StrokeKind::Curve);
    assert_eq!(stroke2.stroke_type.base, 2);
    assert_eq!(stroke2.stroke_type.opt, 0);
    assert_eq!(
        stroke2.get_control_segments(),
        vec![(pt(176, 31), pt(170, 43)), (pt(170, 43), pt(156, 63))]
    );

    let stroke3 = StrokeLineType::new(3, 0, 0, 100, 100, 150, 50, 200, 100, 250, 150);
    assert_eq!(stroke3.stroke_type.kind, StrokeKind::BendLine);
    assert_eq!(stroke3.stroke_type.base, 3);
    assert_eq!(stroke3.stroke_type.opt, 0);
    assert_eq!(
        stroke3.get_control_segments(),
        vec![(pt(100, 100), pt(150, 50)), (pt(150, 50), pt(200, 100))]
    );
    assert_eq!(
        stroke3.get_box(),
        Some(Bounds { min_point: pt(100, 50), max_point: pt(200, 100) })
    );
}

#[test]
fn test_cross() {
    let stroke4 = StrokeLineType::new(1, 0, 0, 0, 0, 100, 100, 0, 0, 0, 0);
    assert_eq!(stroke4.is_cross(pt(50, 50), pt(150, 150)), false);
    assert_eq!(stroke4.is_cross(pt(200, 200), pt(300, 300)), false);
    assert_eq!(stroke4.is_cross_box(pt(25, 25), pt(75, 75)), true);
    assert_eq!(stroke4.is_cross_box(pt(200, 200), pt(300, 300)), false);
}

#[test]
fn test_stretch() {
    // source pivot 200, destination pivot 400: the hinge moves from 300 to
    // 500 inside [0, 1000]
    let r1 = stretch_point(pt(400, 400), pt(200, 200), pt(0, 150), pt(0, 0), pt(1000, 1000));
    assert_eq!(r1, Some(pt(0, 250)));
    let r2 = stretch_point(pt(400, 400), pt(200, 200), pt(299, 300), pt(0, 0), pt(1000, 1000));
    assert_eq!(r2, Some(pt(498, 500)));
    let r3 = stretch_point(pt(400, 400), pt(200, 200), pt(650, 1000), pt(0, 0), pt(1000, 1000));
    assert_eq!(r3, Some(pt(750, 1000)));

    // equal pivots leave every coordinate in place
    let r4 = stretch_point(pt(300, 300), pt(300, 300), pt(123, 400), pt(0, 0), pt(1000, 1000));
    assert_eq!(r4, Some(pt(123, 400)));
    let r5 = stretch_point(pt(300, 300), pt(300, 300), pt(999, 1000), pt(0, 0), pt(1000, 1000));
    assert_eq!(r5, Some(pt(999, 1000)));

    // negative box corners
    let r6 = stretch_point(
        pt(300, 300),
        pt(-100, -100),
        pt(-200, -50),
        pt(-200, -200),
        pt(800, 800),
    );
    assert_eq!(r6, Some(pt(-200, 250)));
    let r7 = stretch_point(pt(300, 300), pt(-100, -100), pt(0, 800), pt(-200, -200), pt(800, 800));
    assert_eq!(r7, Some(pt(400, 800)));

    // a degenerate source span leaves the point undefined
    let r8 = stretch_point(pt(400, 400), pt(900, 900), pt(1000, 999), pt(0, 0), pt(1000, 1000));
    assert_eq!(r8, None);

    // shrinking: destination pivot below the source pivot
    let r9 = stretch_point(pt(100, 100), pt(500, 500), pt(300, 600), pt(0, 0), pt(1000, 1000));
    assert_eq!(r9, Some(pt(100, 200)));
    let r10 = stretch_point(pt(100, 100), pt(500, 500), pt(900, 900), pt(0, 0), pt(1000, 1000));
    assert_eq!(r10, Some(pt(800, 800)));
}

#[test]
fn test_stroke_stretch() {
    let mut stroke6 = StrokeLineType::new(1, 0, 0, 50, 50, 100, 100, 0, 0, 0, 0);
    assert_eq!(
        stroke6.get_box(),
        Some(Bounds { min_point: pt(50, 50), max_point: pt(100, 100) })
    );
    let ok = stroke6.stretch(pt(0, 0), pt(0, 0), pt(0, 0), pt(200, 200));
    assert!(ok);
    assert_eq!(
        stroke6.get_box(),
        Some(Bounds { min_point: pt(50, 50), max_point: pt(100, 100) })
    );
}

#[test]
fn test_edge_case() {
    let stroke7 = StrokeLineType::new(0, 0, 0, 0, 0, 0, 0, 0, 0, 0, 0);
    assert_eq!(stroke7.get_control_segments(), vec![]);
    assert_eq!(stroke7.get_box(), None);
}

#[test]
fn test_large_number() {
    let stroke8 = StrokeLineType::new(1, 0, 0, 1000, 1000, 2000, 2000, 0, 0, 0, 0);
    assert_eq!(
        stroke8.get_box(),
        Some(Bounds { min_point: pt(1000, 1000), max_point: pt(2000, 2000) })
    );
}

#[test]
fn test_negtive_number() {
    let stroke9 = StrokeLineType::new(1, 0, 0, -100, -100, -50, -50, 0, 0, 0, 0);
    assert_eq!(
        stroke9.get_box(),
        Some(Bounds { min_point: pt(-100, -100), max_point: pt(-50, -50) })
    );
}

#[test]
fn test_end_type_overrides() {
    let old_style = EndType::new(313);
    assert_eq!(old_style.kind, EndKind::BottomLeftZhOld);
    assert_eq!(old_style.base, 13);
    assert_eq!(old_style.opt, 3);
    let new_style = EndType::new(413);
    assert_eq!(new_style.kind, EndKind::BottomLeftZhNew);
    let plain = EndType::new(13);
    assert_eq!(plain.kind, EndKind::BottomLeftCorner);
    let unknown = EndType::new(55);
    assert_eq!(unknown.kind, EndKind::Unknown);
}

#[test]
fn test_curve_code_twelve_maps_to_curve() {
    let stroke = StrokeLineType::new(12, 0, 0, 0, 0, 50, 50, 100, 100, 0, 0);
    assert_eq!(stroke.stroke_type.kind, StrokeKind::Curve);
    assert_eq!(stroke.stroke_type.base, 12);
}

#[test]
fn test_parse_emit_round_trip() {
    // every recognized line kind reads back from its own record text
    let sources = [
        "1:0:0:26:42:87:42",
        "2:22:7:176:31:170:43:156:63",
        "3:0:0:100:100:150:50:200:100",
        "4:22:5:74:87:77:180:184:180",
        "6:32:7:128:28:145:28:136:54:131:68",
        "7:0:7:99:17:99:79:99:158:18:188",
        "0:97:0:0:0:200:200",
        "0:98:0:10:20:150:160",
        "0:99:1:0:0:200:200",
        "0:99:2:0:0:100:100",
        "0:99:3:5:6:7:8",
        "99:0:0:41:0:172:200:u4e3f-07:0:0:0",
        "99:120:30:0:0:200:200:left:0:44:55",
    ];
    for source in sources {
        let parsed = Line::new(source);
        assert!(!matches!(parsed, Line::Unknown), "{source}");
        let emitted = vec![parsed].generate_kage();
        assert_eq!(emitted.chars().last(), Some('$'));
        let body = &emitted[..emitted.len() - 1];
        let reparsed = Line::new(body);
        let reemitted = vec![reparsed].generate_kage();
        assert_eq!(emitted, reemitted, "{source}");
    }
}

#[test]
fn test_emit_special_line_text() {
    let line = Line::new("0:99:2:0:0:100:100");
    let emitted = vec![line].generate_kage();
    assert_eq!(emitted, "0:99:2:0:0:100:100$");
}

#[test]
fn test_emit_component_reference_text() {
    let line = Line::new("99:120:30:1:2:3:4:part:0:44:55");
    let emitted = vec![line].generate_kage();
    assert_eq!(emitted, "99:120:30:1:2:3:4:part:0:44:55$");
}
