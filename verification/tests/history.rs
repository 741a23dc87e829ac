use vector_canvas::color::Color;
use vector_canvas::fixed::fx_from_int;
use vector_canvas::geom::Vec2;
use vector_canvas::ids::IdAllocator;
use vector_canvas::legacy::{shape_from_polygon, shape_to_polygon, stringify_points, Polygon};
use vector_canvas::shape::{Shape, ShapeGeometry, ShapeStyle};
use vector_canvas::transform::Transform2D;
use vector_canvas::version::VersionHistory;

fn fx(units: i32) -> i64 {
    fx_from_int(units)
}

fn create_test_shape() -> Shape {
    Shape::with_id(1, ShapeGeometry::rectangle(fx(100), fx(50)), ShapeStyle::default())
}

#[test]
fn test_new_history() {
    let history = VersionHistory::new();
    assert!(history.is_empty());
    assert_eq!(history.next_id, 1);
    assert!(history.current_version_idx.is_none());
}

#[test]
fn test_save_version() {
    let mut history = VersionHistory::new();
    let shapes = vec![create_test_shape()];

    history.save_version(shapes, None, 1000 * fx(1));

    assert_eq!(history.len(), 1);
    assert_eq!(history.next_id, 2);
    assert_eq!(history.current_version_idx, Some(0));

    let version = history.get_version(0).unwrap();
    assert_eq!(version.id, 1);
    assert_eq!(version.label, "Version 1");
    assert_eq!(version.shapes.len(), 1);
}

#[test]
fn test_set_current_version() {
    let mut history = VersionHistory::new();

    history.save_version(vec![create_test_shape()], None, 1000 * fx(1));
    history.save_version(vec![create_test_shape()], None, 2000 * fx(1));

    assert_eq!(history.current_version_idx, Some(1));

    history.set_current_version(0);
    assert_eq!(history.current_version_idx, Some(0));

    history.set_current_version(99);
    assert_eq!(history.current_version_idx, Some(0));
}

#[test]
fn test_stringify_points() {
    let points = vec![
        Vec2::new(fx(230), fx(220)),
        Vec2::new(fx(260), fx(220)),
        Vec2::new(fx(245), fx(250)),
    ];
    let transform = Transform2D::identity();
    let result = stringify_points(&points, &transform);
    assert_eq!(result, "230,220 260,220 245,250");
}

#[test]
fn test_polygon_shape_round_trip() {
    let mut ids = IdAllocator::new();
    let polygon = Polygon::default_triangle_1();
    let shape = shape_from_polygon(&mut ids, &polygon);
    assert!(matches!(&shape.geometry, ShapeGeometry::Polygon { points } if points.len() == 3));
    assert_eq!(shape.style.fill, Some(Color::from_hex("#ef4444").unwrap()));

    let back = shape_to_polygon(&shape).unwrap();
    assert_eq!(back.points, polygon.points);
    assert_eq!(back.fill, polygon.fill);
    assert_eq!(back.stroke, polygon.stroke);
}

#[test]
fn test_shape_to_polygon_non_polygon() {
    let shape = Shape::with_id(1, ShapeGeometry::ellipse(fx(5), fx(5)), ShapeStyle::default());
    assert!(shape_to_polygon(&shape).is_none());
}
