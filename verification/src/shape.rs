//! Shape geometry, styling, and shapes: the scene's source of truth.

use vstd::prelude::*;

verus! {

use crate::fixed::{FX_ONE, FX_MAX, fx_ok, fx_clamp, fx_abs, fx_add, fx_sub};
use crate::geom::{
    Vec2,
    BBox,
    vec2_ok,
    bbox_ok,
    bbox_contains,
    spec_bbox_of_points,
    lemma_bbox_of_points_contains,
    lemma_bbox_of_points_ok,
};
use crate::color::{Color, color_ok};
use crate::transform::{Transform2D, transform_ok, spec_transform_point};
use crate::ids::IdAllocator;

/// Stroke styling for shape outlines: a color and a line width.
#[derive(Clone, Copy, Debug, PartialEq)]
pub struct StrokeStyle {
    pub color: Color,
    pub width: i64,
}

/// A stroke's color is a valid color and its width a nonnegative coordinate.
pub open spec fn stroke_ok(s: StrokeStyle) -> bool {
    color_ok(s.color) && 0 <= s.width <= FX_MAX
}

impl StrokeStyle {
    pub fn new(color: Color, width: i64) -> (s: StrokeStyle)
        ensures
            s == (StrokeStyle { color, width }),
    {
        StrokeStyle { color, width }
    }
}

impl Default for StrokeStyle {
    /// Black, one unit wide.
    fn default() -> (s: StrokeStyle)
        ensures
            s == (StrokeStyle {
                color: Color { r: 0, g: 0, b: 0, a: FX_ONE as i64 },
                width: FX_ONE as i64,
            }),
    {
        StrokeStyle { color: Color::black(), width: FX_ONE }
    }
}

/// Complete styling for a shape. Either part may be absent; a shape with
/// neither fill nor stroke is legal and renders nothing.
#[derive(Clone, Copy, Debug, PartialEq)]
pub struct ShapeStyle {
    pub fill: Option<Color>,
    pub stroke: Option<StrokeStyle>,
}

/// Both style parts, where present, are valid.
pub open spec fn style_ok(s: ShapeStyle) -> bool {
    &&& (s.fill is Some ==> color_ok(s.fill->0))
    &&& (s.stroke is Some ==> stroke_ok(s.stroke->0))
}

impl ShapeStyle {
    pub fn new(fill: Option<Color>, stroke: Option<StrokeStyle>) -> (s: ShapeStyle)
        ensures
            s == (ShapeStyle { fill, stroke }),
    {
        ShapeStyle { fill, stroke }
    }

    pub fn fill_only(color: Color) -> (s: ShapeStyle)
        ensures
            s == (ShapeStyle { fill: Some(color), stroke: None::<StrokeStyle> }),
    {
        ShapeStyle { fill: Some(color), stroke: None }
    }

    pub fn stroke_only(stroke: StrokeStyle) -> (s: ShapeStyle)
        ensures
            s == (ShapeStyle { fill: None::<Color>, stroke: Some(stroke) }),
    {
        ShapeStyle { fill: None, stroke: Some(stroke) }
    }

    pub fn fill_and_stroke(fill: Color, stroke: StrokeStyle) -> (s: ShapeStyle)
        ensures
            s == (ShapeStyle { fill: Some(fill), stroke: Some(stroke) }),
    {
        ShapeStyle { fill: Some(fill), stroke: Some(stroke) }
    }
}

impl Default for ShapeStyle {
    /// No fill, no stroke.
    fn default() -> (s: ShapeStyle)
        ensures
            s == (ShapeStyle { fill: None::<Color>, stroke: None::<StrokeStyle> }),
    {
        ShapeStyle { fill: None, stroke: None }
    }
}

/// One command of a vector path. A path is a sequence of subpaths; `Close`
/// ends the current subpath and reconnects it to its starting point.
#[derive(Clone, Copy, Debug, PartialEq)]
pub enum PathCommand {
    MoveTo(Vec2),
    LineTo(Vec2),
    QuadraticTo { control: Vec2, to: Vec2 },
    CubicTo { ctrl1: Vec2, ctrl2: Vec2, to: Vec2 },
    ArcTo { rx: i64, ry: i64, x_rotation: i64, large_arc: bool, sweep: bool, to: Vec2 },
    Close,
}

/// All coordinates mentioned by a command are representable.
pub open spec fn path_cmd_ok(c: PathCommand) -> bool {
    match c {
        PathCommand::MoveTo(p) => vec2_ok(p),
        PathCommand::LineTo(p) => vec2_ok(p),
        PathCommand::QuadraticTo { control, to } => vec2_ok(control) && vec2_ok(to),
        PathCommand::CubicTo { ctrl1, ctrl2, to } => vec2_ok(ctrl1) && vec2_ok(ctrl2) && vec2_ok(
            to,
        ),
        PathCommand::ArcTo { rx, ry, x_rotation, to, .. } => fx_ok(rx as int) && fx_ok(ry as int)
            && fx_ok(x_rotation as int) && vec2_ok(to),
        PathCommand::Close => true,
    }
}

/// A conservative box that the tessellation of one elliptical arc stays
/// inside: the box of the two endpoints, grown by the radii plus the chord
/// extent.
pub open spec fn spec_arc_box(from: Vec2, rx: int, ry: int, to: Vec2) -> BBox {
    let arx = if rx >= 0 {
        rx
    } else {
        -rx
    };
    let ary = if ry >= 0 {
        ry
    } else {
        -ry
    };
    let cx = fx_clamp(if to.x >= from.x {
        to.x - from.x
    } else {
        from.x - to.x
    });
    let cy = fx_clamp(if to.y >= from.y {
        to.y - from.y
    } else {
        from.y - to.y
    });
    let margin = fx_clamp(fx_clamp(arx + ary) + fx_clamp(cx + cy));
    let lox = if from.x <= to.x {
        from.x as int
    } else {
        to.x as int
    };
    let loy = if from.y <= to.y {
        from.y as int
    } else {
        to.y as int
    };
    let hix = if from.x >= to.x {
        from.x as int
    } else {
        to.x as int
    };
    let hiy = if from.y >= to.y {
        from.y as int
    } else {
        to.y as int
    };
    BBox {
        min: Vec2 { x: fx_clamp(lox - margin) as i64, y: fx_clamp(loy - margin) as i64 },
        max: Vec2 { x: fx_clamp(hix + margin) as i64, y: fx_clamp(hiy + margin) as i64 },
    }
}

/// The conservative arc box, computed.
pub fn arc_box(from: Vec2, rx: i64, ry: i64, to: Vec2) -> (b: BBox)
    requires
        vec2_ok(from),
        vec2_ok(to),
        fx_ok(rx as int),
        fx_ok(ry as int),
    ensures
        b == spec_arc_box(from, rx as int, ry as int, to),
        bbox_ok(b),
{
    let arx = fx_abs(rx);
    let ary = fx_abs(ry);
    let cx = if to.x >= from.x {
        fx_sub(to.x, from.x)
    } else {
        fx_sub(from.x, to.x)
    };
    let cy = if to.y >= from.y {
        fx_sub(to.y, from.y)
    } else {
        fx_sub(from.y, to.y)
    };
    let margin = fx_add(fx_add(arx, ary), fx_add(cx, cy));
    let lo = from.min(to);
    let hi = from.max(to);
    BBox {
        min: Vec2 { x: fx_sub(lo.x, margin), y: fx_sub(lo.y, margin) },
        max: Vec2 { x: fx_add(hi.x, margin), y: fx_add(hi.y, margin) },
    }
}

/// The points that bound a path: endpoints and control points of every
/// command, and for arcs the corners of the conservative arc box. The
/// running pen position `cur` and subpath start `start` thread through the
/// recursion as they do through drawing.
pub open spec fn spec_path_pts(cmds: Seq<PathCommand>, i: int, cur: Vec2, start: Vec2) -> Seq<Vec2>
    decreases cmds.len() - i,
{
    if i < 0 || i >= cmds.len() {
        Seq::empty()
    } else {
        match cmds[i] {
            PathCommand::MoveTo(p) => seq![p] + spec_path_pts(cmds, i + 1, p, p),
            PathCommand::LineTo(p) => seq![p] + spec_path_pts(cmds, i + 1, p, start),
            PathCommand::QuadraticTo { control, to } => seq![control, to] + spec_path_pts(
                cmds,
                i + 1,
                to,
                start,
            ),
            PathCommand::CubicTo { ctrl1, ctrl2, to } => seq![ctrl1, ctrl2, to] + spec_path_pts(
                cmds,
                i + 1,
                to,
                start,
            ),
            PathCommand::ArcTo { rx, ry, to, .. } => {
                let b = spec_arc_box(cur, rx as int, ry as int, to);
                seq![b.min, b.max, to] + spec_path_pts(cmds, i + 1, to, start)
            },
            PathCommand::Close => spec_path_pts(cmds, i + 1, start, start),
        }
    }
}

/// Geometry of a shape, before any transform.
#[derive(Clone, Debug, PartialEq)]
pub enum ShapeGeometry {
    /// A closed polygon through a series of points.
    Polygon { points: Vec<Vec2> },
    /// A rectangle with corner `(0, 0)` and the given size; a positive
    /// corner radius rounds the corners.
    Rectangle { width: i64, height: i64, corner_radius: i64 },
    /// An ellipse centered on the origin with the given radii.
    Ellipse { rx: i64, ry: i64 },
    /// An arbitrary vector path.
    Path { commands: Vec<PathCommand> },
}

/// Geometry is well-formed: sizes and radii are nonnegative and every
/// coordinate is representable.
pub open spec fn geometry_ok(g: ShapeGeometry) -> bool {
    match g {
        ShapeGeometry::Polygon { points } => forall|i: int|
            0 <= i < points@.len() ==> vec2_ok(#[trigger] points@[i]),
        ShapeGeometry::Rectangle { width, height, corner_radius } => 0 <= width <= FX_MAX && 0
            <= height <= FX_MAX && 0 <= corner_radius <= FX_MAX,
        ShapeGeometry::Ellipse { rx, ry } => 0 <= rx <= FX_MAX && 0 <= ry <= FX_MAX,
        ShapeGeometry::Path { commands } => forall|i: int|
            0 <= i < commands@.len() ==> path_cmd_ok(#[trigger] commands@[i]),
    }
}

/// The local bounding box of a geometry, before any transform. Degenerate
/// geometry (no points, an empty path) yields the zero box at the origin.
pub open spec fn spec_local_bounds(g: ShapeGeometry) -> BBox {
    let zero = BBox { min: Vec2 { x: 0, y: 0 }, max: Vec2 { x: 0, y: 0 } };
    match g {
        ShapeGeometry::Polygon { points } => if points@.len() > 0 {
            spec_bbox_of_points(points@)
        } else {
            zero
        },
        ShapeGeometry::Rectangle { width, height, .. } => BBox {
            min: Vec2 { x: 0, y: 0 },
            max: Vec2 { x: width, y: height },
        },
        ShapeGeometry::Ellipse { rx, ry } => BBox {
            min: Vec2 { x: -rx as i64, y: -ry as i64 },
            max: Vec2 { x: rx, y: ry },
        },
        ShapeGeometry::Path { commands } => {
            let pts = spec_path_pts(
                commands@,
                0,
                Vec2 { x: 0, y: 0 },
                Vec2 { x: 0, y: 0 },
            );
            if pts.len() > 0 {
                spec_bbox_of_points(pts)
            } else {
                zero
            }
        },
    }
}

impl ShapeGeometry {
    /// A polygon through the given points.
    pub fn polygon(points: Vec<Vec2>) -> (g: ShapeGeometry)
        ensures
            g == (ShapeGeometry::Polygon { points }),
    {
        ShapeGeometry::Polygon { points }
    }

    /// A rectangle with square corners.
    pub fn rectangle(width: i64, height: i64) -> (g: ShapeGeometry)
        ensures
            g == (ShapeGeometry::Rectangle { width, height, corner_radius: 0i64 }),
    {
        ShapeGeometry::Rectangle { width, height, corner_radius: 0 }
    }

    /// A rectangle with rounded corners.
    pub fn rounded_rectangle(width: i64, height: i64, corner_radius: i64) -> (g: ShapeGeometry)
        ensures
            g == (ShapeGeometry::Rectangle { width, height, corner_radius }),
    {
        ShapeGeometry::Rectangle { width, height, corner_radius }
    }

    /// An ellipse with the given radii.
    pub fn ellipse(rx: i64, ry: i64) -> (g: ShapeGeometry)
        ensures
            g == (ShapeGeometry::Ellipse { rx, ry }),
    {
        ShapeGeometry::Ellipse { rx, ry }
    }

    /// A circle: an ellipse with equal radii.
    pub fn circle(radius: i64) -> (g: ShapeGeometry)
        ensures
            g == (ShapeGeometry::Ellipse { rx: radius, ry: radius }),
    {
        ShapeGeometry::Ellipse { rx: radius, ry: radius }
    }

    /// The polygon's points, for polygon geometry only.
    pub fn polygon_points(&self) -> (r: Option<&Vec<Vec2>>)
        ensures
            match *self {
                ShapeGeometry::Polygon { points } => r == Some(&points),
                _ => r is None,
            },
    {
        match self {
            ShapeGeometry::Polygon { points } => Some(points),
            _ => None,
        }
    }

    /// The local bounding box, before any transform.
    pub fn local_bounds(&self) -> (b: BBox)
        requires
            geometry_ok(*self),
        ensures
            b == spec_local_bounds(*self),
            bbox_ok(b),
    {
        let zero = BBox { min: Vec2 { x: 0, y: 0 }, max: Vec2 { x: 0, y: 0 } };
        match self {
            ShapeGeometry::Polygon { points } => {
                match BBox::from_points(points.as_slice()) {
                    Some(b) => {
                        proof {
                            lemma_bbox_of_points_contains(points@);
                            lemma_bbox_of_points_ok(points@);
                        }
                        b
                    },
                    None => zero,
                }
            },
            ShapeGeometry::Rectangle { width, height, .. } => {
                BBox { min: Vec2 { x: 0, y: 0 }, max: Vec2 { x: *width, y: *height } }
            },
            ShapeGeometry::Ellipse { rx, ry } => {
                BBox { min: Vec2 { x: -*rx, y: -*ry }, max: Vec2 { x: *rx, y: *ry } }
            },
            ShapeGeometry::Path { commands } => {
                let pts = path_bound_points(commands);
                match BBox::from_points(pts.as_slice()) {
                    Some(b) => {
                        proof {
                            lemma_bbox_of_points_contains(pts@);
                            lemma_bbox_of_points_ok(pts@);
                        }
                        b
                    },
                    None => zero,
                }
            },
        }
    }
}

/// The bounding points of a path, computed. See `spec_path_pts`.
pub fn path_bound_points(commands: &Vec<PathCommand>) -> (pts: Vec<Vec2>)
    requires
        forall|i: int| 0 <= i < commands@.len() ==> path_cmd_ok(#[trigger] commands@[i]),
    ensures
        pts@ == spec_path_pts(commands@, 0, Vec2 { x: 0, y: 0 }, Vec2 { x: 0, y: 0 }),
        forall|i: int| 0 <= i < pts@.len() ==> vec2_ok(#[trigger] pts@[i]),
{
    let zero = Vec2 { x: 0, y: 0 };
    let mut pts: Vec<Vec2> = Vec::new();
    let mut cur = zero;
    let mut start = zero;
    let mut i: usize = 0;
    while i < commands.len()
        invariant
            0 <= i <= commands@.len(),
            forall|k: int| 0 <= k < commands@.len() ==> path_cmd_ok(#[trigger] commands@[k]),
            vec2_ok(cur),
            vec2_ok(start),
            forall|k: int| 0 <= k < pts@.len() ==> vec2_ok(#[trigger] pts@[k]),
            spec_path_pts(commands@, 0, zero, zero) == pts@ + spec_path_pts(
                commands@,
                i as int,
                cur,
                start,
            ),
        decreases commands@.len() - i,
    {
        let ghost prev_pts = pts@;
        let ghost prev_cur = cur;
        let ghost prev_start = start;
        match commands[i] {
            PathCommand::MoveTo(p) => {
                pts.push(p);
                cur = p;
                start = p;
            },
            PathCommand::LineTo(p) => {
                pts.push(p);
                cur = p;
            },
            PathCommand::QuadraticTo { control, to } => {
                pts.push(control);
                pts.push(to);
                cur = to;
            },
            PathCommand::CubicTo { ctrl1, ctrl2, to } => {
                pts.push(ctrl1);
                pts.push(ctrl2);
                pts.push(to);
                cur = to;
            },
            PathCommand::ArcTo { rx, ry, to, .. } => {
                let b = arc_box(cur, rx, ry, to);
                pts.push(b.min);
                pts.push(b.max);
                pts.push(to);
                cur = to;
            },
            PathCommand::Close => {
                cur = start;
            },
        }
        proof {
            assert(spec_path_pts(commands@, i as int, prev_cur, prev_start) =~= pts@.skip(
                prev_pts.len() as int,
            ) + spec_path_pts(commands@, i + 1, cur, start));
            assert(pts@ + spec_path_pts(commands@, i + 1, cur, start) =~= prev_pts
                + spec_path_pts(commands@, i as int, prev_cur, prev_start));
        }
        i = i + 1;
    }
    proof {
        assert(spec_path_pts(commands@, commands@.len() as int, cur, start) =~= Seq::<
            Vec2,
        >::empty());
        assert(pts@ =~= pts@ + Seq::<Vec2>::empty());
    }
    pts
}

/// A shape in the scene: geometry, transform, style, and a dirty flag that
/// marks its cached mesh stale.
#[derive(Clone, Debug, PartialEq)]
pub struct Shape {
    /// Unique identifier, assigned at creation and never changed.
    pub id: u64,
    pub geometry: ShapeGeometry,
    pub transform: Transform2D,
    pub style: ShapeStyle,
    /// Whether the shape must be re-tessellated before its next draw.
    pub dirty: bool,
}

/// All parts of a shape are well-formed.
pub open spec fn shape_ok(s: Shape) -> bool {
    geometry_ok(s.geometry) && transform_ok(s.transform) && style_ok(s.style)
}

/// The world bounding box of a shape: the box of the four transformed
/// corners of its local bounds.
pub open spec fn spec_world_bounds(s: Shape) -> BBox {
    let local = spec_local_bounds(s.geometry);
    let c0 = spec_transform_point(s.transform, local.min);
    let c1 = spec_transform_point(s.transform, Vec2 { x: local.max.x, y: local.min.y });
    let c2 = spec_transform_point(s.transform, local.max);
    let c3 = spec_transform_point(s.transform, Vec2 { x: local.min.x, y: local.max.y });
    spec_bbox_of_points(seq![c0, c1, c2, c3])
}

impl Shape {
    /// A new shape with a freshly allocated identifier, the identity
    /// transform, and its dirty flag raised.
    pub fn new(ids: &mut IdAllocator, geometry: ShapeGeometry, style: ShapeStyle) -> (s: Shape)
        requires
            old(ids).next_id < u64::MAX,
        ensures
            s.id == old(ids).next_id,
            final(ids).next_id == old(ids).next_id + 1,
            final(ids).next_name == old(ids).next_name,
            s.geometry == geometry,
            s.style == style,
            s.transform == crate::transform::spec_identity(),
            s.dirty == true,
    {
        let id = ids.generate_shape_id();
        Shape { id, geometry, transform: Transform2D::identity(), style, dirty: true }
    }

    /// A new shape with a caller-chosen identifier.
    pub fn with_id(id: u64, geometry: ShapeGeometry, style: ShapeStyle) -> (s: Shape)
        ensures
            s.id == id,
            s.geometry == geometry,
            s.style == style,
            s.transform == crate::transform::spec_identity(),
            s.dirty == true,
    {
        Shape { id, geometry, transform: Transform2D::identity(), style, dirty: true }
    }

    /// The same shape with another transform.
    pub fn with_transform(self, transform: Transform2D) -> (s: Shape)
        ensures
            s == (Shape { transform, ..self }),
    {
        Shape { transform, ..self }
    }

    /// Mark the shape's cached mesh stale.
    pub fn mark_dirty(&mut self)
        ensures
            *final(self) == (Shape { dirty: true, ..*old(self) }),
    {
        self.dirty = true;
    }

    /// Mark the shape's cached mesh fresh.
    pub fn clear_dirty(&mut self)
        ensures
            *final(self) == (Shape { dirty: false, ..*old(self) }),
    {
        self.dirty = false;
    }

    /// The world-space bounding box.
    pub fn world_bounds(&self) -> (b: BBox)
        requires
            shape_ok(*self),
        ensures
            b == spec_world_bounds(*self),
            bbox_ok(b),
    {
        let local = self.geometry.local_bounds();
        let c0 = self.transform.transform_point(local.min);
        let c1 = self.transform.transform_point(Vec2 { x: local.max.x, y: local.min.y });
        let c2 = self.transform.transform_point(local.max);
        let c3 = self.transform.transform_point(Vec2 { x: local.min.x, y: local.max.y });
        let corners: Vec<Vec2> = vec![c0, c1, c2, c3];
        proof {
            assert(corners@ =~= seq![c0, c1, c2, c3]);
            lemma_bbox_of_points_contains(corners@);
            lemma_bbox_of_points_ok(corners@);
        }
        match BBox::from_points(corners.as_slice()) {
            Some(b) => b,
            None => BBox { min: Vec2 { x: 0, y: 0 }, max: Vec2 { x: 0, y: 0 } },
        }
    }

    /// Whether a world-space point lies inside this shape. The test is the
    /// shape's world bounding box; exact path containment is a finer test
    /// that callers may layer on top.
    pub fn contains_point(&self, point: Vec2) -> (r: bool)
        requires
            shape_ok(*self),
        ensures
            r == bbox_contains(spec_world_bounds(*self), point),
    {
        let b = self.world_bounds();
        b.contains(point)
    }
}

} // verus!
