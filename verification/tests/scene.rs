use vector_canvas::color::Color;
use vector_canvas::fixed::fx_from_int;
use vector_canvas::geom::Vec2;
use vector_canvas::graph::SceneGraph;
use vector_canvas::layer::LayerTree;
use vector_canvas::shape::{Shape, ShapeGeometry, ShapeStyle};
use vector_canvas::transform::Transform2D;

fn fx(units: i32) -> i64 {
    fx_from_int(units)
}

fn create_test_shape(id: u64) -> Shape {
    Shape::with_id(
        id,
        ShapeGeometry::polygon(vec![
            Vec2::new(fx(0), fx(0)),
            Vec2::new(fx(100), fx(0)),
            Vec2::new(fx(50), fx(100)),
        ]),
        ShapeStyle::fill_only(Color::rgb(fx(1), 0, 0)),
    )
}

#[test]
fn test_add_and_get_shape() {
    let mut scene = SceneGraph::new();
    let shape = create_test_shape(1);
    let id = shape.id;
    scene.add_shape(shape);

    assert_eq!(scene.len(), 1);
    assert!(scene.get_shape(id).is_some());
}

#[test]
fn graph_test_remove_shape() {
    let mut scene = SceneGraph::new();
    let shape = create_test_shape(1);
    let id = shape.id;
    scene.add_shape(shape);

    let removed = scene.remove_shape(id);
    assert!(removed.is_some());
    assert_eq!(scene.len(), 0);
}

#[test]
fn test_selection() {
    let mut scene = SceneGraph::new();
    let shape1 = create_test_shape(1);
    let shape2 = create_test_shape(2);
    let id1 = shape1.id;
    let id2 = shape2.id;
    scene.add_shape(shape1);
    scene.add_shape(shape2);

    scene.select(id1);
    assert!(scene.is_selected(id1));
    assert!(!scene.is_selected(id2));

    scene.select(id2);
    assert_eq!(scene.selection().len(), 2);

    scene.deselect(id1);
    assert!(!scene.is_selected(id1));
    assert!(scene.is_selected(id2));
}

#[test]
fn test_dirty_tracking() {
    let mut scene = SceneGraph::new();
    assert!(scene.is_dirty());

    scene.clear_dirty();
    assert!(!scene.is_dirty());

    let shape = create_test_shape(1);
    let id = shape.id;
    scene.add_shape(shape);
    assert!(scene.is_dirty());
    assert!(scene.dirty_shape_ids().contains(&id));

    scene.clear_dirty();
    assert!(!scene.is_dirty());
    assert!(scene.dirty_shape_ids().is_empty());
}

#[test]
fn test_z_order() {
    let mut scene = SceneGraph::new();
    let shape1 = create_test_shape(1);
    let shape2 = create_test_shape(2);
    let id1 = shape1.id;
    let id2 = shape2.id;
    scene.add_shape(shape1);
    scene.add_shape(shape2);

    assert_eq!(scene.shapes()[1].id, id2);

    scene.send_to_back(id2);
    assert_eq!(scene.shapes()[0].id, id2);
    assert_eq!(scene.shapes()[1].id, id1);

    scene.bring_to_front(id2);
    assert_eq!(scene.shapes()[1].id, id2);
}

#[test]
fn test_hit_test_topmost() {
    let mut scene = SceneGraph::new();
    // Two overlapping shapes; the one added later sits on top.
    scene.add_shape(create_test_shape(1));
    scene.add_shape(create_test_shape(2));
    let hit = scene.hit_test(Vec2::new(fx(50), fx(50)));
    assert_eq!(hit, Some(2));
    // A miss finds nothing.
    assert_eq!(scene.hit_test(Vec2::new(fx(500), fx(500))), None);
    // A shape off to the side does not shadow the one below.
    let far = create_test_shape(3)
        .with_transform(Transform2D::from_position(Vec2::new(fx(1000), fx(0))));
    scene.add_shape(far);
    assert_eq!(scene.hit_test(Vec2::new(fx(50), fx(50))), Some(2));
}

#[test]
fn test_create_shape_assigns_fresh_ids() {
    let mut scene = SceneGraph::new();
    let a = scene.create_shape(
        ShapeGeometry::rectangle(fx(10), fx(10)),
        ShapeStyle::default(),
    );
    let b = scene.create_shape(
        ShapeGeometry::rectangle(fx(20), fx(20)),
        ShapeStyle::default(),
    );
    assert_eq!(a, 1);
    assert_eq!(b, 2);
}

#[test]
fn test_query_rect() {
    let mut scene = SceneGraph::new();
    scene.add_shape(create_test_shape(1));
    let far = create_test_shape(2)
        .with_transform(Transform2D::from_position(Vec2::new(fx(1000), fx(0))));
    scene.add_shape(far);
    let rect = vector_canvas::geom::BBox::new(Vec2::new(fx(0), fx(0)), Vec2::new(fx(200), fx(200)));
    let hits = scene.query_rect(&rect);
    assert_eq!(hits, vec![1]);
}

#[test]
fn test_layer_tree_from_shapes() {
    let tree = LayerTree::from_shapes(&[1, 2, 3]);
    assert_eq!(tree.all_shape_ids(), vec![1, 2, 3]);
}

#[test]
fn test_group_shapes() {
    let mut tree = LayerTree::from_shapes(&[1, 2, 3, 4]);
    let group_id = tree.group_shapes(&[2, 3]).unwrap();

    assert!(group_id > 0);
    assert_eq!(tree.nodes.len(), 3);
    assert_eq!(tree.all_shape_ids(), vec![1, 2, 3, 4]);
}

#[test]
fn test_ungroup() {
    let mut tree = LayerTree::from_shapes(&[1, 2, 3, 4]);
    let group_id = tree.group_shapes(&[2, 3]).unwrap();

    assert!(tree.ungroup(group_id));
    assert_eq!(tree.nodes.len(), 4);
    assert_eq!(tree.all_shape_ids(), vec![1, 2, 3, 4]);
}

#[test]
fn layer_test_remove_shape() {
    let mut tree = LayerTree::from_shapes(&[1, 2, 3]);
    tree.remove_shape(2);
    assert_eq!(tree.all_shape_ids(), vec![1, 3]);
}

#[test]
fn test_nested_groups() {
    let mut tree = LayerTree::from_shapes(&[1, 2, 3, 4, 5]);
    tree.group_shapes(&[2, 3]).unwrap();

    let outer_group_id = tree.group_shapes(&[1, 2, 3]).unwrap();
    assert!(outer_group_id > 0);

    let all_ids = tree.all_shape_ids();
    assert_eq!(all_ids.len(), 5);
}

#[test]
fn test_group_selection_and_names() {
    let mut tree = LayerTree::from_shapes(&[1, 2, 3]);
    let gid = tree.group_shapes(&[1, 2]).unwrap();
    assert_eq!(tree.get_group_shape_ids(gid), vec![1, 2]);
    // Clicking a grouped shape selects the whole group.
    assert_eq!(tree.get_selection_for_shape(1), vec![1, 2]);
    // Clicking an ungrouped shape selects just it.
    assert_eq!(tree.get_selection_for_shape(3), vec![3]);
    match &tree.nodes[0] {
        vector_canvas::layer::LayerNode::Group { name, .. } => assert_eq!(name.as_str(), "Group 1"),
        _ => panic!("expected a group at the front"),
    }
}

#[test]
fn test_group_too_few() {
    let mut tree = LayerTree::from_shapes(&[1, 2, 3]);
    assert!(tree.group_shapes(&[1]).is_none());
    assert!(tree.group_shapes(&[7, 8]).is_none());
    assert_eq!(tree.all_shape_ids(), vec![1, 2, 3]);
}

#[test]
fn test_selected_shapes() {
    let mut scene = SceneGraph::new();
    scene.add_shape(create_test_shape(1));
    scene.add_shape(create_test_shape(2));
    scene.select(2);
    scene.select(7);
    let picked = scene.selected_shapes();
    assert_eq!(picked.len(), 1);
    assert_eq!(picked[0].id, 2);
}

#[test]
fn test_transform_selection() {
    let mut scene = SceneGraph::new();
    scene.add_shape(create_test_shape(1));
    scene.add_shape(create_test_shape(2));
    scene.clear_dirty();
    scene.select(1);
    scene.transform_selection(Vec2::new(fx(5), fx(10)), Vec2::new(fx(2), fx(2)));
    let moved = scene.get_shape(1).unwrap();
    assert_eq!(moved.transform.position, Vec2::new(fx(5), fx(10)));
    assert_eq!(moved.transform.scale, Vec2::new(fx(2), fx(2)));
    assert!(moved.dirty);
    let untouched = scene.get_shape(2).unwrap();
    assert_eq!(untouched.transform.position, Vec2::new(fx(0), fx(0)));
    assert!(scene.is_dirty());
    assert!(scene.dirty_shape_ids().contains(&1));
    assert!(!scene.dirty_shape_ids().contains(&2));
}

#[test]
fn test_delete_selection() {
    let mut scene = SceneGraph::new();
    scene.add_shape(create_test_shape(1));
    scene.add_shape(create_test_shape(2));
    scene.add_shape(create_test_shape(3));
    scene.select(1);
    scene.select(3);
    scene.delete_selection();
    assert_eq!(scene.len(), 1);
    assert!(scene.get_shape(2).is_some());
    assert!(scene.get_shape(1).is_none());
    assert!(scene.selection().is_empty());
}
