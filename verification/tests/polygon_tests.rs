use kage::geom::Point;
use kage::line::special_line::{SpecialLineType, TransformType};
use kage::font::{FontWrapper, Typeface};
use kage::polygon::Polygon;
use kage::polygons::Polygons;

fn pt(x: i64, y: i64) -> Point {
    Point { x, y, off_curve: None }
}

fn tenths(x: i64, y: i64, off: bool) -> Point {
    Point { x, y, off_curve: Some(off) }
}

#[test]
fn test_polygon_construction() {
    let polygon_len3 = Polygon::new_with_length(3);
    assert_eq!(polygon_len3.len(), 3);
    for i in 0..3 {
        assert_eq!(polygon_len3.get(i), Some(tenths(0, 0, false)));
    }

    // whole-unit points are stored at ten tenths per unit
    let points = vec![tenths(1, 2, false), tenths(3, 4, true), tenths(5, 6, false)];
    let polygon_from_points = Polygon::new(points);
    assert_eq!(polygon_from_points.len(), 3);
    assert_eq!(polygon_from_points.get(0), Some(tenths(10, 20, false)));
    assert_eq!(polygon_from_points.get(1), Some(tenths(30, 40, true)));
    assert_eq!(polygon_from_points.get(2), Some(tenths(50, 60, false)));
}

#[test]
fn test_polygon_basic_operations() {
    let mut polygon = Polygon::new_empty();
    polygon.push(10, 20, Some(false));
    polygon.push_point(tenths(3, 4, true));
    assert_eq!(polygon.len(), 2);
    assert_eq!(polygon.get(0), Some(tenths(100, 200, false)));
    assert_eq!(polygon.get(1), Some(tenths(30, 40, true)));

    polygon.set_point(0, tenths(50, 60, true)).unwrap();
    assert_eq!(polygon.get(0), Some(tenths(500, 600, true)));

    polygon.push_point(tenths(70, 80, false));
    assert_eq!(polygon.len(), 3);
    assert_eq!(polygon.get(2), Some(tenths(700, 800, false)));
    assert!(polygon.set_point(9, tenths(0, 0, false)).is_err());
}

#[test]
fn test_polygon_modifications() {
    let mut polygon = Polygon::new(vec![
        tenths(1, 2, false),
        tenths(3, 4, true),
        tenths(5, 6, false),
    ]);
    polygon.reverse();
    assert_eq!(polygon.get(0), Some(tenths(50, 60, false)));
    assert_eq!(polygon.get(1), Some(tenths(30, 40, true)));
    assert_eq!(polygon.get(2), Some(tenths(10, 20, false)));

    polygon.shift();
    assert_eq!(polygon.len(), 2);
    assert_eq!(polygon.get(0), Some(tenths(30, 40, true)));

    polygon.unshift(7, 8, Some(true));
    assert_eq!(polygon.len(), 3);
    assert_eq!(polygon.get(0), Some(tenths(70, 80, true)));
}

#[test]
fn test_polygon_concat() {
    let mut polygon_1 = Polygon::new(vec![tenths(1, 2, false), tenths(3, 4, true)]);
    let polygon_2 = Polygon::new(vec![tenths(5, 6, false), tenths(7, 8, true)]);
    polygon_1.concat(polygon_2.clone());
    assert_eq!(polygon_1.len(), 4);
    assert_eq!(polygon_1.get(2), Some(tenths(50, 60, false)));
    assert_eq!(polygon_1.get(3), Some(tenths(70, 80, true)));
    assert_eq!(polygon_2.len(), 2);
}

#[test]
fn test_polygon_transformations() {
    let mut polygon_1 = Polygon::new(vec![
        tenths(1, 2, false),
        tenths(3, 4, true),
        tenths(5, 6, false),
    ]);
    // translation offsets are whole units, scaled to tenths inside
    polygon_1.translate(10, 20);
    assert_eq!(polygon_1.get(0), Some(tenths(110, 220, false)));
    assert_eq!(polygon_1.get(1), Some(tenths(130, 240, true)));
    assert_eq!(polygon_1.get(2), Some(tenths(150, 260, false)));

    polygon_1.reflect_x();
    assert_eq!(polygon_1.get(0), Some(tenths(-110, 220, false)));
    polygon_1.reflect_y();
    assert_eq!(polygon_1.get(0), Some(tenths(-110, -220, false)));

    let mut polygon_2 = Polygon::new(vec![tenths(1, 0, false), tenths(0, 1, false)]);
    polygon_2.rotate_90();
    assert_eq!(polygon_2.get(0), Some(tenths(0, 10, false)));
    assert_eq!(polygon_2.get(1), Some(tenths(-10, 0, false)));
    polygon_2.rotate_180();
    assert_eq!(polygon_2.get(0), Some(tenths(0, -10, false)));
    assert_eq!(polygon_2.get(1), Some(tenths(10, 0, false)));
    polygon_2.rotate_270();
    assert_eq!(polygon_2.get(0), Some(tenths(-10, 0, false)));
    assert_eq!(polygon_2.get(1), Some(tenths(0, -10, false)));
}

#[test]
fn test_push_filter_accepts_triangle() {
    let mut polygons = Polygons::new();
    let mut triangle = Polygon::new_empty();
    triangle.push_point(pt(50, 50));
    triangle.push_point(pt(150, 50));
    triangle.push_point(pt(100, 150));
    polygons.push(triangle);
    assert_eq!(polygons.len(), 1);
}

#[test]
fn test_push_filter_drops_short_contours() {
    let mut polygons = Polygons::new();
    let mut pair = Polygon::new_empty();
    pair.push_point(pt(50, 50));
    pair.push_point(pt(150, 50));
    polygons.push(pair);
    assert_eq!(polygons.len(), 0);
}

#[test]
fn test_degenerate_polygon_dropped() {
    // every point on one horizontal line: no y extent, so the set is
    // unchanged
    let mut polygons = Polygons::new();
    let mut flat = Polygon::new_empty();
    flat.push_point(pt(10, 50));
    flat.push_point(pt(90, 50));
    flat.push_point(pt(170, 50));
    polygons.push(flat);
    assert_eq!(polygons.len(), 0);

    let mut tall = Polygon::new_empty();
    tall.push_point(pt(50, 10));
    tall.push_point(pt(50, 90));
    tall.push_point(pt(50, 170));
    polygons.push(tall);
    assert_eq!(polygons.len(), 0);
}

#[test]
fn test_generate_svg() {
    let mut polygons1 = Polygons::new();
    let mut triangle = Polygon::new_empty();
    triangle.push_point(pt(50, 50));
    triangle.push_point(pt(150, 50));
    triangle.push_point(pt(100, 150));
    polygons1.push(triangle);

    assert_eq!(
        polygons1.generate_svg(true),
        "<svg xmlns=\"http://www.w3.org/2000/svg\" xmlns:xlink=\"http://www.w3.org/1999/xlink\" version=\"1.1\" baseProfile=\"full\" viewBox=\"0 0 200 200\" width=\"200\" height=\"200\">\n<path d=\"M 50,50 L 150,50 100,150 Z\" fill=\"black\" />\n</svg>\n"
    );
    assert_eq!(
        polygons1.generate_svg(false),
        "<svg xmlns=\"http://www.w3.org/2000/svg\" xmlns:xlink=\"http://www.w3.org/1999/xlink\" version=\"1.1\" baseProfile=\"full\" viewBox=\"0 0 200 200\" width=\"200\" height=\"200\">\n<g fill=\"black\">\n<polygon points=\"50,50 150,50 100,150 \" />\n</g>\n</svg>\n"
    );

    let mut polygons2 = Polygons::new();
    let mut square = Polygon::new_empty();
    square.push_point(pt(30, 30));
    square.push_point(pt(170, 30));
    square.push_point(pt(170, 170));
    square.push_point(pt(30, 170));
    polygons2.push(square);
    assert_eq!(
        polygons2.generate_svg(false),
        "<svg xmlns=\"http://www.w3.org/2000/svg\" xmlns:xlink=\"http://www.w3.org/1999/xlink\" version=\"1.1\" baseProfile=\"full\" viewBox=\"0 0 200 200\" width=\"200\" height=\"200\">\n<g fill=\"black\">\n<polygon points=\"30,30 170,30 170,170 30,170 \" />\n</g>\n</svg>\n"
    );
}

#[test]
fn test_generate_svg_curve_commands() {
    // an off-curve control point turns the path into a quadratic command
    let mut polygons = Polygons::new();
    let mut curved = Polygon::new_empty();
    curved.push_point(pt(30, 100));
    curved.push_point(pt(60, 100));
    curved.push_tenths(tenths(750, 1100, true));
    curved.push_point(pt(90, 130));
    polygons.push(Polygon::new(vec![]));
    polygons.push(curved);
    let svg = polygons.generate_svg(true);
    assert!(svg.contains("Q 75,110 90,130"));
    assert_eq!(
        svg,
        "<svg xmlns=\"http://www.w3.org/2000/svg\" xmlns:xlink=\"http://www.w3.org/1999/xlink\" version=\"1.1\" baseProfile=\"full\" viewBox=\"0 0 200 200\" width=\"200\" height=\"200\">\n<path d=\"M 30,100 L 60,100 Q 75,110 90,130 Z\" fill=\"black\" />\n</svg>\n"
    );
}

#[test]
fn test_generate_svg_tenth_coordinates() {
    let mut polygons = Polygons::new();
    let mut shape = Polygon::new_empty();
    shape.push_tenths(tenths(1732, 1537, false));
    shape.push_tenths(tenths(-55, 300, false));
    shape.push_tenths(tenths(400, -1205, false));
    polygons.push(shape);
    let svg = polygons.generate_svg(false);
    assert!(svg.contains("<polygon points=\"173.2,153.7 -5.5,30 40,-120.5 \" />"));
}

#[test]
fn test_generate_eps() {
    let mut polygons = Polygons::new();
    let mut triangle = Polygon::new_empty();
    triangle.push_point(pt(50, 50));
    triangle.push_point(pt(150, 50));
    triangle.push_point(pt(100, 150));
    polygons.push(triangle);

    let expected_body = "%%EndComments\n%%EndProlog\n250 550 newpath\nmoveto\n750 550 lineto\n500 50 lineto\nclosepath\nfill\n%%EOF\n";
    let with_stamp = polygons.generate_eps_with_timestamp("Mon Oct 13 2025 12:34:56 GMT+0800");
    assert!(with_stamp.starts_with(
        "%!PS-Adobe-3.0 EPSF-3.0\n%%BoundingBox: 0 -208 1024 816\n%%Pages: 0\n%%Title: Kanji glyph\n%%Creator: GlyphWiki powered by KAGE system\n%%CreationDate: Mon Oct 13 2025 12:34:56 GMT+0800\n"
    ));
    assert!(with_stamp.ends_with(expected_body));

    let live = polygons.generate_eps();
    assert!(live.ends_with(expected_body));
    assert!(live.starts_with("%!PS-Adobe-3.0 EPSF-3.0\n"));
}

#[test]
fn test_region_rotate_180() {
    // a horizontal bar near y = 30 rotates inside the unit box to y near 70
    let mut polygons = Polygons::new();
    let mut bar = Polygon::new_empty();
    bar.push_point(pt(30, 28));
    bar.push_point(pt(70, 28));
    bar.push_point(pt(70, 32));
    bar.push_point(pt(30, 32));
    polygons.push(bar);

    let font = FontWrapper::new(Typeface::Gothic, false);
    let line = SpecialLineType {
        transform_type: TransformType::Rotate180,
        box_diag_1: pt(0, 0),
        box_diag_2: pt(100, 100),
    };
    font.df_transform(&mut polygons, line);

    let moved = &polygons.array()[0];
    assert_eq!(moved.get(0), Some(Point { x: 700, y: 720, off_curve: None }));
    assert_eq!(moved.get(1), Some(Point { x: 300, y: 720, off_curve: None }));
    assert_eq!(moved.get(2), Some(Point { x: 300, y: 680, off_curve: None }));
    assert_eq!(moved.get(3), Some(Point { x: 700, y: 680, off_curve: None }));
}

#[test]
fn test_region_transform_leaves_outside_polygons_alone() {
    let mut polygons = Polygons::new();
    let mut inside = Polygon::new_empty();
    inside.push_point(pt(10, 10));
    inside.push_point(pt(40, 10));
    inside.push_point(pt(40, 40));
    polygons.push(inside);
    let mut outside = Polygon::new_empty();
    outside.push_point(pt(150, 150));
    outside.push_point(pt(180, 150));
    outside.push_point(pt(180, 180));
    polygons.push(outside);

    let font = FontWrapper::new(Typeface::Ming, true);
    let line = SpecialLineType {
        transform_type: TransformType::HorizontalFlip,
        box_diag_1: pt(0, 0),
        box_diag_2: pt(100, 100),
    };
    font.df_transform(&mut polygons, line);

    let flipped = &polygons.array()[0];
    assert_eq!(flipped.get(0), Some(Point { x: 900, y: 100, off_curve: None }));
    let untouched = &polygons.array()[1];
    assert_eq!(untouched.get(0), Some(Point { x: 1500, y: 1500, off_curve: None }));
    assert_eq!(untouched.get(1), Some(Point { x: 1800, y: 1500, off_curve: None }));
    assert_eq!(untouched.get(2), Some(Point { x: 1800, y: 1800, off_curve: None }));
}
