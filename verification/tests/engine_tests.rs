use kage::adjust::{adjust_strokes, AdjustedStroke};
use kage::component::Components;
use kage::font::Typeface;
use kage::geom::{is_cross, is_cross_box, Point};
use kage::kage::Kage;
use kage::line::{Line, LineVecTrait};

fn pt(x: i64, y: i64) -> Point {
    Point { x, y, off_curve: None }
}

#[test]
fn test_components_store() {
    let mut components = Components::new();
    assert_eq!(components.len(), 0);
    assert!(!components.set(String::from("a"), String::from("1:0:0:0:0:10:10")));
    assert!(!components.push(String::from("b"), String::from("1:0:0:5:5:15:15")));
    assert_eq!(components.len(), 2);
    // last writer wins on a duplicate name
    assert!(components.set(String::from("a"), String::from("2:0:0:0:0:10:10:20:20")));
    assert_eq!(components.len(), 2);
    assert_eq!(components.search("a"), Some("2:0:0:0:0:10:10:20:20"));
    assert_eq!(components.search("b"), Some("1:0:0:5:5:15:15"));
    assert_eq!(components.search("missing"), None);
}

#[test]
fn test_is_cross() {
    assert!(is_cross(pt(0, 0), pt(4, 4), pt(0, 4), pt(4, 0)));
    assert!(is_cross(pt(0, 0), pt(2, 2), pt(2, 2), pt(5, 0)));
    assert!(!is_cross(pt(0, 0), pt(4, 0), pt(0, 1), pt(4, 1)));
    assert!(!is_cross(pt(0, 0), pt(4, 0), pt(2, 0), pt(6, 0)));
    assert!(!is_cross(pt(0, 0), pt(1, 1), pt(2, 2), pt(3, 5)));
    assert!(!is_cross(pt(1, 1), pt(1, 1), pt(0, 0), pt(2, 2)));
}

#[test]
fn test_is_cross_symmetry_samples() {
    let cases = [
        (pt(0, 0), pt(4, 4), pt(0, 4), pt(4, 0)),
        (pt(0, 0), pt(4, 0), pt(0, 1), pt(4, 1)),
        (pt(3, -2), pt(7, 9), pt(-1, 4), pt(8, 1)),
        (pt(1, 1), pt(1, 1), pt(0, 0), pt(2, 2)),
    ];
    for (a1, a2, b1, b2) in cases {
        let forward = is_cross(a1, a2, b1, b2);
        assert_eq!(forward, is_cross(b1, b2, a1, a2));
        assert_eq!(forward, is_cross(a2, a1, b1, b2));
    }
}

#[test]
fn test_is_cross_box() {
    assert!(is_cross_box(pt(0, 0), pt(6, 5), pt(1, 1), pt(5, 4)));
    assert!(is_cross_box(pt(0, 2), pt(1, 2), pt(1, 1), pt(5, 4)));
    assert!(!is_cross_box(pt(2, 2), pt(4, 3), pt(1, 1), pt(5, 4)));
    assert!(is_cross_box(pt(0, 1), pt(6, 1), pt(1, 1), pt(5, 4)));
    assert!(!is_cross_box(pt(-2, -1), pt(-1, -3), pt(1, 1), pt(5, 4)));
    assert!(is_cross_box(pt(0, 3), pt(6, 3), pt(5, 4), pt(1, 1)));
}

#[test]
fn test_component_reference_identity() {
    // a reference that fills the whole design space expands to the stored
    // record itself
    let mut engine = Kage::new(Typeface::Gothic, false);
    engine
        .components
        .set(String::from("X"), String::from("1:0:0:0:0:200:200"));
    let direct = engine.get_each_expanded_line("1:0:0:0:0:200:200");
    let through_reference = engine.get_each_expanded_line("99:0:0:0:0:200:200:X:0:0");
    assert_eq!(direct.generate_kage(), through_reference.generate_kage());
    assert_eq!(direct.generate_kage(), "1:0:0:0:0:200:200$");
}

#[test]
fn test_component_scaling() {
    let mut engine = Kage::new(Typeface::Ming, false);
    engine
        .components
        .set(String::from("half"), String::from("1:0:0:0:0:200:200"));
    let lines = engine.get_each_expanded_line("99:0:0:0:0:100:100:half:0:0");
    assert_eq!(lines.generate_kage(), "1:0:0:0:0:100:100$");

    let offset = engine.get_each_expanded_line("99:0:0:50:60:150:160:half:0:0");
    assert_eq!(offset.generate_kage(), "1:0:0:50:60:150:160$");
}

#[test]
fn test_missing_component_expands_to_nothing() {
    let engine = Kage::new(Typeface::Gothic, false);
    let lines = engine.get_each_expanded_line("99:0:0:0:0:200:200:nonexistent:0:0");
    assert_eq!(lines.len(), 0);
}

#[test]
fn test_nested_component_expansion() {
    let mut engine = Kage::new(Typeface::Ming, true);
    engine
        .components
        .set(String::from("leaf"), String::from("1:0:0:0:0:200:0"));
    engine
        .components
        .set(String::from("mid"), String::from("99:0:0:0:0:200:200:leaf:0:0$1:0:0:0:200:200:200"));
    let lines = engine.get_each_expanded_line("99:0:0:0:0:100:200:mid:0:0");
    assert_eq!(lines.generate_kage(), "1:0:0:0:0:100:0$1:0:0:0:200:100:200$");
}

#[test]
fn test_cyclic_component_expands_to_nothing() {
    let mut engine = Kage::new(Typeface::Ming, false);
    engine
        .components
        .set(String::from("loop"), String::from("99:0:0:0:0:200:200:loop:0:0"));
    let lines = engine.get_each_expanded_line("99:0:0:0:0:200:200:loop:0:0");
    assert_eq!(lines.len(), 0);
}

#[test]
fn test_component_stretch_moves_pivot() {
    // a destination pivot of 50 against a source pivot of 0 moves the
    // hinge of the component from 100 to 150 on both axes
    let mut engine = Kage::new(Typeface::Ming, false);
    engine
        .components
        .set(String::from("curvy"), String::from("2:0:0:0:0:100:100:200:200"));
    let lines = engine.get_each_expanded_line("99:50:50:0:0:200:200:curvy:0:0");
    assert_eq!(lines.generate_kage(), "2:0:0:0:0:150:150:200:200$");
}

#[test]
fn test_component_stretch_degenerate_span_drops_stroke() {
    // the whole component sits on the pivot line, so the upper source span
    // is empty and the stretched coordinates are undefined
    let mut engine = Kage::new(Typeface::Ming, false);
    engine
        .components
        .set(String::from("bar"), String::from("1:0:0:0:100:200:100"));
    let lines = engine.get_each_expanded_line("99:50:0:0:0:200:200:bar:0:0");
    assert_eq!(lines.len(), 0);
}

fn strokes_of(data: &str) -> Vec<kage::line::stroke_line::StrokeLineType> {
    let engine = Kage::new(Typeface::Ming, false);
    let lines = engine.get_each_expanded_line(data);
    let mut strokes = Vec::new();
    for line in lines {
        if let Line::StrokeLine(stroke) = line {
            strokes.push(stroke);
        }
    }
    strokes
}

#[test]
fn test_adjust_strokes_initial_values() {
    // an isolated stroke keeps the option digits of its own shapes
    let strokes = strokes_of("1:100:200:20:20:180:20");
    let adjusted = adjust_strokes(&strokes);
    assert_eq!(adjusted.len(), 1);
    assert_eq!(adjusted[0].slash_adjustment, 1);
    assert_eq!(adjusted[0].curve_adjustment, 0);
    assert_eq!(adjusted[0].flick_adjustment, 2);
    assert_eq!(adjusted[0].triangle_adjustment, 2);
    assert_eq!(adjusted[0].foot_adjustment, 2);
}

#[test]
fn test_adjust_strokes_deterministic() {
    let strokes = strokes_of(
        "1:0:0:20:40:180:40$1:0:0:20:80:180:80$1:0:0:100:10:100:190$2:32:4:160:30:140:160:60:170",
    );
    let first = adjust_strokes(&strokes);
    let second = adjust_strokes(&strokes);
    assert_eq!(first, second);
}

#[test]
fn test_adjust_vertical_thinning() {
    // two vertical strokes four units apart crowd each other
    let strokes = strokes_of("1:0:0:100:20:100:180$1:0:0:104:20:104:180");
    let adjusted = adjust_strokes(&strokes);
    assert_eq!(adjusted[0].vertical_adjustment, 4);
    assert_eq!(adjusted[1].vertical_adjustment, 4);

    // far apart they stay plain
    let apart = strokes_of("1:0:0:50:20:50:180$1:0:0:150:20:150:180");
    let adjusted_apart = adjust_strokes(&apart);
    assert_eq!(adjusted_apart[0].vertical_adjustment, 0);
    assert_eq!(adjusted_apart[1].vertical_adjustment, 0);
}

#[test]
fn test_adjust_curve_thinning() {
    // the horizontal tail of a bend runs six units above a horizontal bar
    let strokes = strokes_of("3:0:0:40:20:40:100:160:100$1:0:0:30:106:170:106");
    let adjusted = adjust_strokes(&strokes);
    assert_eq!(adjusted[0].curve_adjustment, 4);
    assert_eq!(adjusted[1].curve_adjustment, 0);
}

#[test]
fn test_adjust_foot_shortening() {
    // a vertical stroke whose cornered tail would leave the design space is
    // shortened at the first probe level
    let strokes = strokes_of("1:0:13:100:20:100:190");
    let adjusted = adjust_strokes(&strokes);
    assert_eq!(adjusted[0].foot_adjustment, 3);

    // with room below, the foot keeps its full length
    let roomy = strokes_of("1:0:13:100:20:100:160");
    let adjusted_roomy = adjust_strokes(&roomy);
    assert_eq!(adjusted_roomy[0].foot_adjustment, 0);
}

#[test]
fn test_adjust_triangle_by_length() {
    // a short open-ended horizontal stroke gets the smallest ornament
    let short = strokes_of("1:0:0:90:100:110:100");
    assert_eq!(adjust_strokes(&short)[0].triangle_adjustment, 3);
    // a long one keeps the full ornament
    let long = strokes_of("1:0:0:20:100:180:100");
    assert_eq!(adjust_strokes(&long)[0].triangle_adjustment, 0);
}

#[test]
fn test_adjust_triangle_by_density() {
    // three horizontal bars stacked ten units apart press on each other
    let strokes = strokes_of("1:0:0:20:80:180:80$1:0:0:20:90:180:90$1:0:0:20:100:180:100");
    let adjusted = adjust_strokes(&strokes);
    assert_eq!(adjusted[1].triangle_adjustment, 2);
    assert_eq!(adjusted[0].triangle_adjustment, 1);
}

#[test]
fn test_adjust_flick_near_wall() {
    // a left-flick tail close to the left edge grows its flick
    let strokes = strokes_of("1:0:4:40:20:40:180");
    let adjusted = adjust_strokes(&strokes);
    assert_eq!(adjusted[0].flick_adjustment, 7 - (40 + 18) / 15);
}

#[test]
fn test_adjust_slash_entry() {
    // a left-falling curving stroke with a vertical-connection head that
    // starts on a horizontal bar gets the bevel correction
    let strokes = strokes_of("2:32:0:120:50:80:150:60:170$1:0:0:40:50:180:50");
    let adjusted = adjust_strokes(&strokes);
    assert_eq!(adjusted[0].slash_adjustment, 1);

    let unmet = strokes_of("2:32:0:120:52:80:150:60:170$1:0:0:40:50:180:50");
    let adjusted_unmet = adjust_strokes(&unmet);
    assert_eq!(adjusted_unmet[0].slash_adjustment, 0);
}

#[test]
fn test_adjusted_stroke_value_shape() {
    let value = AdjustedStroke {
        slash_adjustment: 0,
        vertical_adjustment: 0,
        flick_adjustment: 0,
        triangle_adjustment: 0,
        foot_adjustment: 0,
        curve_adjustment: 0,
    };
    assert_eq!(value, value);
}
