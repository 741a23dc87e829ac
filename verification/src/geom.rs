//! 2D points and axis-aligned bounding boxes in fixed-point coordinates.

use vstd::prelude::*;

verus! {

use crate::fixed::{fx_ok, fx_clamp, fx_add, fx_sub, fx_min, fx_max, fx_avg};

/// A 2D point or vector. Coordinates are fixed-point micro-units.
#[derive(Clone, Copy, Debug, PartialEq, Eq, Structural)]
pub struct Vec2 {
    pub x: i64,
    pub y: i64,
}

/// Both coordinates of a point are in the representable range.
pub open spec fn vec2_ok(v: Vec2) -> bool {
    fx_ok(v.x as int) && fx_ok(v.y as int)
}

impl Vec2 {
    pub fn new(x: i64, y: i64) -> (r: Vec2)
        ensures
            r.x == x,
            r.y == y,
    {
        Vec2 { x, y }
    }

    /// The origin.
    pub fn zero() -> (r: Vec2)
        ensures
            r.x == 0,
            r.y == 0,
    {
        Vec2 { x: 0, y: 0 }
    }

    /// Component-wise saturating addition.
    pub fn add(self, o: Vec2) -> (r: Vec2)
        requires
            vec2_ok(self),
            vec2_ok(o),
        ensures
            r.x == fx_clamp(self.x + o.x),
            r.y == fx_clamp(self.y + o.y),
            vec2_ok(r),
    {
        Vec2 { x: fx_add(self.x, o.x), y: fx_add(self.y, o.y) }
    }

    /// Component-wise saturating subtraction.
    pub fn sub(self, o: Vec2) -> (r: Vec2)
        requires
            vec2_ok(self),
            vec2_ok(o),
        ensures
            r.x == fx_clamp(self.x - o.x),
            r.y == fx_clamp(self.y - o.y),
            vec2_ok(r),
    {
        Vec2 { x: fx_sub(self.x, o.x), y: fx_sub(self.y, o.y) }
    }

    /// Component-wise minimum.
    pub fn min(self, o: Vec2) -> (r: Vec2)
        ensures
            r.x == if self.x <= o.x { self.x as int } else { o.x as int },
            r.y == if self.y <= o.y { self.y as int } else { o.y as int },
    {
        Vec2 { x: fx_min(self.x, o.x), y: fx_min(self.y, o.y) }
    }

    /// Component-wise maximum.
    pub fn max(self, o: Vec2) -> (r: Vec2)
        ensures
            r.x == if self.x >= o.x { self.x as int } else { o.x as int },
            r.y == if self.y >= o.y { self.y as int } else { o.y as int },
    {
        Vec2 { x: fx_max(self.x, o.x), y: fx_max(self.y, o.y) }
    }
}

/// An axis-aligned bounding box, as a pair of corner points.
#[derive(Clone, Copy, Debug, PartialEq, Eq, Structural)]
pub struct BBox {
    pub min: Vec2,
    pub max: Vec2,
}

/// All four corner coordinates are in the representable range.
pub open spec fn bbox_ok(b: BBox) -> bool {
    vec2_ok(b.min) && vec2_ok(b.max)
}

/// A point lies inside a box (closed on all sides).
pub open spec fn bbox_contains(b: BBox, p: Vec2) -> bool {
    b.min.x <= p.x <= b.max.x && b.min.y <= p.y <= b.max.y
}

/// Two boxes overlap, comparing closed intervals on each axis.
pub open spec fn bbox_intersects(a: BBox, b: BBox) -> bool {
    a.min.x <= b.max.x && a.max.x >= b.min.x && a.min.y <= b.max.y && a.max.y >= b.min.y
}

/// The smallest box containing two boxes.
pub open spec fn spec_bbox_union(a: BBox, b: BBox) -> BBox {
    BBox {
        min: Vec2 {
            x: if a.min.x <= b.min.x {
                a.min.x
            } else {
                b.min.x
            },
            y: if a.min.y <= b.min.y {
                a.min.y
            } else {
                b.min.y
            },
        },
        max: Vec2 {
            x: if a.max.x >= b.max.x {
                a.max.x
            } else {
                b.max.x
            },
            y: if a.max.y >= b.max.y {
                a.max.y
            } else {
                b.max.y
            },
        },
    }
}

/// Grow a box to include one more point.
pub open spec fn spec_bbox_extend(b: BBox, p: Vec2) -> BBox {
    spec_bbox_union(b, BBox { min: p, max: p })
}

/// The bounding box of a non-empty point sequence.
pub open spec fn spec_bbox_of_points(s: Seq<Vec2>) -> BBox
    recommends
        s.len() > 0,
    decreases s.len(),
{
    if s.len() <= 1 {
        BBox { min: s[0], max: s[0] }
    } else {
        spec_bbox_extend(spec_bbox_of_points(s.drop_last()), s.last())
    }
}

/// The bounding box of a point sequence contains each of its points, and its
/// corners are ordered.
pub proof fn lemma_bbox_of_points_contains(s: Seq<Vec2>)
    requires
        s.len() > 0,
    ensures
        forall|i: int| 0 <= i < s.len() ==> bbox_contains(spec_bbox_of_points(s), #[trigger] s[i]),
        spec_bbox_of_points(s).min.x <= spec_bbox_of_points(s).max.x,
        spec_bbox_of_points(s).min.y <= spec_bbox_of_points(s).max.y,
    decreases s.len(),
{
    if s.len() > 1 {
        lemma_bbox_of_points_contains(s.drop_last());
        assert(forall|i: int|
            0 <= i < s.len() - 1 ==> s.drop_last()[i] == #[trigger] s[i]);
    }
}

/// The bounding box of representable points has representable corners.
pub proof fn lemma_bbox_of_points_ok(s: Seq<Vec2>)
    requires
        s.len() > 0,
        forall|i: int| 0 <= i < s.len() ==> vec2_ok(#[trigger] s[i]),
    ensures
        bbox_ok(spec_bbox_of_points(s)),
    decreases s.len(),
{
    if s.len() > 1 {
        assert(forall|i: int| 0 <= i < s.len() - 1 ==> s.drop_last()[i] == #[trigger] s[i]);
        lemma_bbox_of_points_ok(s.drop_last());
    }
}

impl BBox {
    pub fn new(min: Vec2, max: Vec2) -> (r: BBox)
        ensures
            r.min == min,
            r.max == max,
    {
        BBox { min, max }
    }

    /// The bounding box of a point slice; `None` when the slice is empty.
    pub fn from_points(points: &[Vec2]) -> (r: Option<BBox>)
        ensures
            r is Some <==> points@.len() > 0,
            points@.len() > 0 ==> r->Some_0 == spec_bbox_of_points(points@),
    {
        if points.len() == 0 {
            return None;
        }
        let mut b = BBox { min: points[0], max: points[0] };
        let mut i: usize = 1;
        proof {
            assert(points@.take(1) =~= seq![points@[0]]);
        }
        while i < points.len()
            invariant
                1 <= i <= points@.len(),
                b == spec_bbox_of_points(points@.take(i as int)),
            decreases points@.len() - i,
        {
            let p = points[i];
            b = BBox { min: b.min.min(p), max: b.max.max(p) };
            proof {
                assert(points@.take(i + 1).drop_last() =~= points@.take(i as int));
                assert(points@.take(i + 1).last() == points@[i as int]);
            }
            i = i + 1;
        }
        proof {
            assert(points@.take(points@.len() as int) =~= points@);
        }
        Some(b)
    }

    /// Horizontal extent.
    pub fn width(&self) -> (r: i64)
        requires
            bbox_ok(*self),
        ensures
            r == fx_clamp(self.max.x - self.min.x),
    {
        fx_sub(self.max.x, self.min.x)
    }

    /// Vertical extent.
    pub fn height(&self) -> (r: i64)
        requires
            bbox_ok(*self),
        ensures
            r == fx_clamp(self.max.y - self.min.y),
    {
        fx_sub(self.max.y, self.min.y)
    }

    /// The midpoint of the two corners, rounded toward negative infinity.
    pub fn center(&self) -> (r: Vec2)
        requires
            bbox_ok(*self),
        ensures
            r.x == (self.min.x + self.max.x) / 2,
            r.y == (self.min.y + self.max.y) / 2,
            vec2_ok(r),
    {
        Vec2 { x: fx_avg(self.min.x, self.max.x), y: fx_avg(self.min.y, self.max.y) }
    }

    /// Whether a point lies inside the box.
    pub fn contains(&self, point: Vec2) -> (r: bool)
        ensures
            r == bbox_contains(*self, point),
    {
        point.x >= self.min.x && point.x <= self.max.x && point.y >= self.min.y && point.y
            <= self.max.y
    }

    /// Whether two boxes overlap.
    pub fn intersects(&self, other: &BBox) -> (r: bool)
        ensures
            r == bbox_intersects(*self, *other),
    {
        self.min.x <= other.max.x && self.max.x >= other.min.x && self.min.y <= other.max.y
            && self.max.y >= other.min.y
    }

    /// The smallest box containing both boxes.
    pub fn union(&self, other: &BBox) -> (r: BBox)
        ensures
            r == spec_bbox_union(*self, *other),
    {
        BBox { min: self.min.min(other.min), max: self.max.max(other.max) }
    }

    /// Grow the box by a margin on every side, saturating at the
    /// representable range.
    pub fn expand(&self, margin: i64) -> (r: BBox)
        requires
            bbox_ok(*self),
            fx_ok(margin as int),
        ensures
            r.min.x == fx_clamp(self.min.x - margin),
            r.min.y == fx_clamp(self.min.y - margin),
            r.max.x == fx_clamp(self.max.x + margin),
            r.max.y == fx_clamp(self.max.y + margin),
            bbox_ok(r),
    {
        BBox {
            min: Vec2 { x: fx_sub(self.min.x, margin), y: fx_sub(self.min.y, margin) },
            max: Vec2 { x: fx_add(self.max.x, margin), y: fx_add(self.max.y, margin) },
        }
    }
}

/// Whether a horizontal ray from `p` crosses the edge from `a` to `b`.
/// The test compares cross-multiplied differences, so it is exact; no
/// division rounds the intersection.
pub open spec fn spec_edge_crosses(p: Vec2, a: Vec2, b: Vec2) -> bool {
    ((a.y > p.y) != (b.y > p.y)) && {
        let lhs = (p.x - a.x) * (b.y - a.y);
        let rhs = (b.x - a.x) * (p.y - a.y);
        if b.y > a.y {
            lhs < rhs
        } else {
            lhs > rhs
        }
    }
}

/// The ray-crossing parity over the edges from index `i` on; each edge
/// runs from a vertex to its predecessor (cyclically).
pub open spec fn spec_crossings_odd(p: Vec2, pts: Seq<Vec2>, i: int) -> bool
    decreases pts.len() - i,
{
    if i < 0 || i >= pts.len() {
        false
    } else {
        let j = if i == 0 {
            pts.len() - 1
        } else {
            i - 1
        };
        spec_edge_crosses(p, pts[i], pts[j]) != spec_crossings_odd(p, pts, i + 1)
    }
}

/// Whether a point lies inside a polygon, by ray casting: a polygon of
/// fewer than three points contains nothing.
pub open spec fn spec_point_in_polygon(p: Vec2, pts: Seq<Vec2>) -> bool {
    pts.len() >= 3 && spec_crossings_odd(p, pts, 0)
}

/// Whether a horizontal ray from `p` crosses the edge from `a` to `b`.
fn edge_crosses(p: Vec2, a: Vec2, b: Vec2) -> (r: bool)
    requires
        vec2_ok(p),
        vec2_ok(a),
        vec2_ok(b),
    ensures
        r == spec_edge_crosses(p, a, b),
{
    if (a.y > p.y) == (b.y > p.y) {
        return false;
    }
    let dx1: i128 = p.x as i128 - a.x as i128;
    let dy1: i128 = b.y as i128 - a.y as i128;
    let dx2: i128 = b.x as i128 - a.x as i128;
    let dy2: i128 = p.y as i128 - a.y as i128;
    proof {
        assert(-87_000_000_000_000_000_000_000_000_000_000_000_000 <= dx1 * dy1
            <= 87_000_000_000_000_000_000_000_000_000_000_000_000
            && -87_000_000_000_000_000_000_000_000_000_000_000_000 <= dx2 * dy2
            <= 87_000_000_000_000_000_000_000_000_000_000_000_000) by (nonlinear_arith)
            requires
                -9_300_000_000_000_000_000 <= dx1 <= 9_300_000_000_000_000_000,
                -9_300_000_000_000_000_000 <= dy1 <= 9_300_000_000_000_000_000,
                -9_300_000_000_000_000_000 <= dx2 <= 9_300_000_000_000_000_000,
                -9_300_000_000_000_000_000 <= dy2 <= 9_300_000_000_000_000_000,
        ;
    }
    let lhs: i128 = dx1 * dy1;
    let rhs: i128 = dx2 * dy2;
    if b.y > a.y {
        lhs < rhs
    } else {
        lhs > rhs
    }
}

/// Whether a point lies inside a polygon, by ray casting over its edges.
pub fn point_in_polygon(point: Vec2, polygon_points: &Vec<Vec2>) -> (r: bool)
    requires
        vec2_ok(point),
        forall|k: int| 0 <= k < polygon_points@.len() ==> vec2_ok(#[trigger] polygon_points@[k]),
    ensures
        r == spec_point_in_polygon(point, polygon_points@),
{
    let n = polygon_points.len();
    if n < 3 {
        return false;
    }
    let mut inside = false;
    let mut i: usize = n;
    while i > 0
        invariant
            0 <= i <= n,
            n == polygon_points@.len(),
            n >= 3,
            vec2_ok(point),
            forall|k: int|
                0 <= k < polygon_points@.len() ==> vec2_ok(#[trigger] polygon_points@[k]),
            inside == spec_crossings_odd(point, polygon_points@, i as int),
        decreases i,
    {
        i = i - 1;
        let j = if i == 0 {
            n - 1
        } else {
            i - 1
        };
        if edge_crosses(point, polygon_points[i], polygon_points[j]) {
            inside = !inside;
        }
    }
    inside
}

} // verus!
