use vector_canvas::color::Color;
use vector_canvas::fixed::fx_from_int;
use vector_canvas::geom::Vec2;
use vector_canvas::mesh::{Mesh, Vertex};
use vector_canvas::render::{RenderError, Renderer};
use vector_canvas::shape::{Shape, ShapeGeometry, ShapeStyle, StrokeStyle};
use vector_canvas::tess::Tessellator;

fn fx(units: i32) -> i64 {
    fx_from_int(units)
}

fn triangle_shape() -> Shape {
    Shape::with_id(
        1,
        ShapeGeometry::polygon(vec![
            Vec2::new(fx(0), fx(0)),
            Vec2::new(fx(100), fx(0)),
            Vec2::new(fx(50), fx(100)),
        ]),
        ShapeStyle::fill_only(Color::rgb(fx(1), 0, 0)),
    )
}

#[test]
fn test_tessellate_triangle() {
    let mut tessellator = Tessellator::new();
    let shape = triangle_shape();

    let mesh = tessellator.tessellate_shape(&shape);
    assert!(!mesh.vertices.is_empty());
    assert!(!mesh.indices.is_empty());
    assert_eq!(mesh.indices.len() % 3, 0);
}

#[test]
fn test_tessellate_rectangle() {
    let mut tessellator = Tessellator::new();
    let shape = Shape::with_id(
        1,
        ShapeGeometry::rectangle(fx(100), fx(50)),
        ShapeStyle::fill_only(Color::rgb(0, fx(1), 0)),
    );

    let mesh = tessellator.tessellate_shape(&shape);
    assert!(!mesh.vertices.is_empty());
    assert!(!mesh.indices.is_empty());
}

#[test]
fn test_tessellate_ellipse() {
    let mut tessellator = Tessellator::new();
    let shape = Shape::with_id(
        1,
        ShapeGeometry::ellipse(fx(50), fx(30)),
        ShapeStyle::fill_only(Color::rgb(0, 0, fx(1))),
    );

    let mesh = tessellator.tessellate_shape(&shape);
    assert!(!mesh.vertices.is_empty());
    assert!(!mesh.indices.is_empty());
}

#[test]
fn test_tessellate_with_stroke() {
    let mut tessellator = Tessellator::new();
    let shape = Shape::with_id(
        1,
        ShapeGeometry::rectangle(fx(100), fx(50)),
        ShapeStyle::fill_and_stroke(Color::rgb(fx(1), 0, 0), StrokeStyle::new(Color::black(), fx(2))),
    );

    let mesh = tessellator.tessellate_shape(&shape);
    assert!(!mesh.vertices.is_empty());
}

#[test]
fn test_tessellate_fill_within_bounds() {
    let mut tessellator = Tessellator::new();
    let mut shape = triangle_shape();
    tessellator.get_or_tessellate_shape(&mut shape);
    let mesh = tessellator.cached_mesh(shape.id).unwrap();
    let bounds = shape.geometry.local_bounds();
    for v in mesh.vertices.iter() {
        assert!(bounds.contains(v.position));
    }
}

#[test]
fn test_cached_tessellation_hits() {
    let mut tessellator = Tessellator::new();
    let mut shape = triangle_shape();

    tessellator.get_or_tessellate_shape(&mut shape);
    assert_eq!(tessellator.tessellation_count(), 1);
    assert!(!shape.dirty);
    let first = tessellator.cached_mesh(shape.id).unwrap().clone();

    // A second call on the unchanged shape is a cache hit: the counter
    // stays put and the mesh is identical.
    tessellator.get_or_tessellate_shape(&mut shape);
    assert_eq!(tessellator.tessellation_count(), 1);
    let second = tessellator.cached_mesh(shape.id).unwrap();
    assert_eq!(first, *second);

    // Marking the shape dirty forces a rebuild.
    shape.mark_dirty();
    tessellator.get_or_tessellate_shape(&mut shape);
    assert_eq!(tessellator.tessellation_count(), 2);
}

#[test]
fn test_invalidate_and_clear_cache() {
    let mut tessellator = Tessellator::new();
    let mut shape = triangle_shape();
    tessellator.get_or_tessellate_shape(&mut shape);
    assert!(tessellator.cached_mesh(shape.id).is_some());

    tessellator.invalidate_shape(shape.id);
    assert!(tessellator.cached_mesh(shape.id).is_none());

    tessellator.get_or_tessellate_shape(&mut shape);
    tessellator.clear_cache();
    assert!(tessellator.cached_mesh(shape.id).is_none());
}

#[test]
fn test_prune_cache() {
    let mut tessellator = Tessellator::new();
    let mut a = triangle_shape();
    let mut b = triangle_shape();
    b.id = 2;
    tessellator.get_or_tessellate_shape(&mut a);
    tessellator.get_or_tessellate_shape(&mut b);
    tessellator.prune_cache(&[2]);
    assert!(tessellator.cached_mesh(1).is_none());
    assert!(tessellator.cached_mesh(2).is_some());
}

#[test]
fn test_mesh_extend() {
    let mut a = Mesh::new();
    a.vertices.push(Vertex::new(Vec2::new(fx(0), fx(0)), Color::black()));
    a.vertices.push(Vertex::new(Vec2::new(fx(1), fx(0)), Color::black()));
    a.vertices.push(Vertex::new(Vec2::new(fx(0), fx(1)), Color::black()));
    a.indices.extend_from_slice(&[0, 1, 2]);
    let old_len = a.vertices.len();

    let mut b = Mesh::new();
    b.vertices.push(Vertex::new(Vec2::new(fx(5), fx(5)), Color::white()));
    b.vertices.push(Vertex::new(Vec2::new(fx(6), fx(5)), Color::white()));
    b.vertices.push(Vertex::new(Vec2::new(fx(5), fx(6)), Color::white()));
    b.indices.extend_from_slice(&[0, 1, 2]);

    a.extend(&b);
    assert_eq!(a.vertices.len(), old_len + b.vertices.len());
    for i in a.indices.iter() {
        assert!((*i as usize) < a.vertices.len());
    }
    assert_eq!(a.indices[3..], [3, 4, 5]);
}

#[test]
fn test_renderer_capacity() {
    let renderer = Renderer::new(800, 600);
    let small = Mesh::new();
    assert!(renderer.check_capacity(&small).is_ok());

    let mut big = Mesh::new();
    for _ in 0..65537 {
        big.vertices.push(Vertex::new(Vec2::new(0, 0), Color::black()));
    }
    let err = renderer.check_capacity(&big).unwrap_err();
    assert_eq!(err, RenderError::TooManyVertices { count: 65537, max: 65536 });
    assert_eq!(err.message(), "mesh exceeds the vertex buffer capacity");
    assert_eq!(err.detail(), "too many vertices: 65537 (max 65536)");
}

#[test]
fn test_renderer_resize_idempotent() {
    let mut renderer = Renderer::new(800, 600);
    let before = renderer.projection();
    renderer.resize(800, 600);
    assert_eq!(renderer.width(), 800);
    assert_eq!(renderer.projection(), before);
    renderer.resize(0, 600);
    assert_eq!(renderer.width(), 800);
    renderer.resize(400, 300);
    assert_eq!(renderer.width(), 400);
    assert_eq!(renderer.height(), 300);
    assert_ne!(renderer.projection(), before);
}

#[test]
fn test_renderer_plan_frame() {
    let mut tessellator = Tessellator::new();
    let renderer = Renderer::new(800, 600);
    let mut shape = triangle_shape();
    tessellator.get_or_tessellate_shape(&mut shape);
    let shapes = vec![shape];
    let overrides: Vec<(u64, vector_canvas::transform::Transform2D)> = Vec::new();
    let plan = renderer.plan_frame(&shapes, &tessellator, &overrides).unwrap();
    assert_eq!(plan.len(), 1);
    assert_eq!(plan[0].id, 1);
    assert!(plan[0].override_transform.is_none());
}

#[test]
fn test_path_tessellation() {
    let mut tessellator = Tessellator::new();
    let cmds = vector_canvas::path::parse_svg_path("M0 0 L100 0 L50 100 Z");
    let shape = Shape::with_id(
        1,
        ShapeGeometry::Path { commands: cmds },
        ShapeStyle::fill_only(Color::rgb(fx(1), 0, 0)),
    );
    let mesh = tessellator.tessellate_shape(&shape);
    assert!(!mesh.vertices.is_empty());
    assert_eq!(mesh.indices.len() % 3, 0);
}

#[test]
fn test_filled_polygon_mesh_is_exactly_its_points() {
    let mut tessellator = Tessellator::new();
    let shape = triangle_shape();
    let mesh = tessellator.tessellate_shape(&shape);
    // A filled polygon tessellates to exactly its points, colored by the
    // fill, with one triangle list of 3 * (n - 2) indices.
    assert_eq!(mesh.vertices.len(), 3);
    assert_eq!(mesh.indices.len(), 3);
    let fill = Color::rgb(fx(1), 0, 0);
    assert_eq!(mesh.vertices[0].position, Vec2::new(fx(0), fx(0)));
    assert_eq!(mesh.vertices[1].position, Vec2::new(fx(100), fx(0)));
    assert_eq!(mesh.vertices[2].position, Vec2::new(fx(50), fx(100)));
    for v in mesh.vertices.iter() {
        assert_eq!(v.color, fill);
    }
}

#[test]
fn test_invisible_style_renders_nothing() {
    let mut tessellator = Tessellator::new();
    let shape = Shape::with_id(
        1,
        ShapeGeometry::rectangle(fx(10), fx(10)),
        ShapeStyle::default(),
    );
    let mesh = tessellator.tessellate_shape(&shape);
    assert!(mesh.vertices.is_empty());
    assert!(mesh.indices.is_empty());
}

#[test]
fn test_degenerate_geometry_renders_nothing() {
    let mut tessellator = Tessellator::new();
    // A two-point polygon has no fill.
    let flat = Shape::with_id(
        1,
        ShapeGeometry::polygon(vec![Vec2::new(fx(0), fx(0)), Vec2::new(fx(5), fx(0))]),
        ShapeStyle::fill_only(Color::black()),
    );
    assert!(tessellator.tessellate_shape(&flat).vertices.is_empty());
    // An empty path draws nothing at all.
    let empty = Shape::with_id(
        2,
        ShapeGeometry::Path { commands: vec![] },
        ShapeStyle::fill_and_stroke(Color::black(), StrokeStyle::new(Color::black(), fx(1))),
    );
    assert!(tessellator.tessellate_shape(&empty).vertices.is_empty());
}

#[test]
fn test_tessellate_shapes_concatenates() {
    let mut tessellator = Tessellator::new();
    let mut b = triangle_shape();
    b.id = 2;
    let shapes = vec![triangle_shape(), b];
    let combined = tessellator.tessellate_shapes(&shapes);
    // Two filled triangles: three vertices each, rebased indices.
    assert_eq!(combined.vertices.len(), 6);
    assert_eq!(combined.indices.len(), 6);
    assert!(combined.indices[3..].iter().all(|i| *i >= 3));
    let none: Vec<Shape> = vec![];
    assert!(tessellator.tessellate_shapes(&none).vertices.is_empty());
}
