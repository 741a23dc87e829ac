use vector_canvas::color::Color;
use vector_canvas::fixed::{fx_from_int, FX_ONE};
use vector_canvas::geom::{BBox, Vec2};
use vector_canvas::shape::ShapeGeometry;
use vector_canvas::transform::Transform2D;

fn fx(units: i32) -> i64 {
    fx_from_int(units)
}

#[test]
fn test_color_hex_parsing() {
    let color = Color::from_hex("#ef4444").unwrap();
    // 0xef/255, 0x44/255, 0x44/255 in micro-units.
    assert!((color.r - 937_000).abs() < 10_000);
    assert!((color.g - 267_000).abs() < 10_000);
    assert!((color.b - 267_000).abs() < 10_000);
}

#[test]
fn test_color_hex_roundtrip() {
    let original = "#3b82f6";
    let color = Color::from_hex(original).unwrap();
    let hex = color.to_hex();
    assert_eq!(hex, original);
}

#[test]
fn test_color_hex_rejects_malformed() {
    assert!(Color::from_hex("").is_none());
    assert!(Color::from_hex("#12345").is_none());
    assert!(Color::from_hex("#12345g").is_none());
    assert!(Color::from_hex("#1234567").is_none());
}

#[test]
fn test_color_constants() {
    assert_eq!(Color::white().r, FX_ONE);
    assert_eq!(Color::black().r, 0);
    assert_eq!(Color::black().a, FX_ONE);
    assert_eq!(Color::transparent().a, 0);
}

#[test]
fn test_transform_identity() {
    let t = Transform2D::identity();
    let point = Vec2::new(fx(10), fx(20));
    let transformed = t.transform_point(point);
    assert_eq!(transformed, point);
}

#[test]
fn test_transform_translation() {
    let t = Transform2D::from_position(Vec2::new(fx(5), fx(10)));
    let point = Vec2::new(fx(10), fx(20));
    let transformed = t.transform_point(point);
    assert_eq!(transformed, Vec2::new(fx(15), fx(30)));
}

#[test]
fn test_bbox_from_points() {
    let points = vec![
        Vec2::new(fx(0), fx(0)),
        Vec2::new(fx(10), fx(5)),
        Vec2::new(fx(5), fx(15)),
    ];
    let bbox = BBox::from_points(&points).unwrap();
    assert_eq!(bbox.min, Vec2::new(fx(0), fx(0)));
    assert_eq!(bbox.max, Vec2::new(fx(10), fx(15)));
}

#[test]
fn test_bbox_from_no_points() {
    let points: Vec<Vec2> = vec![];
    assert!(BBox::from_points(&points).is_none());
}

#[test]
fn test_bbox_ops() {
    let a = BBox::new(Vec2::new(fx(0), fx(0)), Vec2::new(fx(10), fx(10)));
    let b = BBox::new(Vec2::new(fx(5), fx(5)), Vec2::new(fx(20), fx(20)));
    assert!(a.intersects(&b));
    assert!(a.contains(Vec2::new(fx(10), fx(10))));
    assert!(!a.contains(Vec2::new(fx(11), fx(10))));
    let u = a.union(&b);
    assert_eq!(u.min, Vec2::new(fx(0), fx(0)));
    assert_eq!(u.max, Vec2::new(fx(20), fx(20)));
    assert_eq!(a.width(), fx(10));
    assert_eq!(a.height(), fx(10));
    assert_eq!(a.center(), Vec2::new(fx(5), fx(5)));
}

#[test]
fn test_polygon_local_bounds() {
    let geometry = ShapeGeometry::polygon(vec![
        Vec2::new(fx(0), fx(0)),
        Vec2::new(fx(30), fx(0)),
        Vec2::new(fx(15), fx(30)),
    ]);
    let bounds = geometry.local_bounds();
    assert_eq!(bounds.min, Vec2::new(fx(0), fx(0)));
    assert_eq!(bounds.max, Vec2::new(fx(30), fx(30)));
}

#[test]
fn test_rectangle_local_bounds() {
    let geometry = ShapeGeometry::rectangle(fx(100), fx(50));
    let bounds = geometry.local_bounds();
    assert_eq!(bounds.min, Vec2::new(fx(0), fx(0)));
    assert_eq!(bounds.max, Vec2::new(fx(100), fx(50)));
}

#[test]
fn test_ellipse_local_bounds() {
    let geometry = ShapeGeometry::ellipse(fx(20), fx(10));
    let bounds = geometry.local_bounds();
    assert_eq!(bounds.min, Vec2::new(fx(-20), fx(-10)));
    assert_eq!(bounds.max, Vec2::new(fx(20), fx(10)));
}

#[test]
fn test_parse_svg_points() {
    let points = vector_canvas::points::parse_svg_points("230,220 260,220 245,250");
    assert_eq!(points.len(), 3);
    assert_eq!(points[0], Vec2::new(fx(230), fx(220)));
    assert_eq!(points[1], Vec2::new(fx(260), fx(220)));
    assert_eq!(points[2], Vec2::new(fx(245), fx(250)));
}

#[test]
fn test_parse_svg_points_skips_malformed() {
    let points = vector_canvas::points::parse_svg_points("1,2 nonsense 3 4,5x 6,7");
    assert_eq!(points.len(), 2);
    assert_eq!(points[0], Vec2::new(fx(1), fx(2)));
    assert_eq!(points[1], Vec2::new(fx(6), fx(7)));
}
