//! The tessellator: converts shape geometry and style into triangle
//! meshes, with a per-shape cache keyed by shape identity.
//!
//! Curves are flattened by repeated midpoint subdivision, which keeps
//! every generated point inside the bounding box of its control points;
//! at the identity transform that pins the whole fill mesh inside the
//! geometry's local bounds. Fills are triangulated by ear clipping (with a
//! fan fallback for degenerate outlines), strokes as one quad per
//! segment, offset by half the line width.

use vstd::prelude::*;

verus! {

broadcast use vstd::std_specs::hash::group_hash_axioms;

use std::collections::HashMap;
use crate::fixed::{
    FX_ONE,
    FX_MAX,
    fx_ok,
    fx_clamp,
    fx_add,
    fx_sub,
    fx_avg,
    fx_half,
    fx_abs,
    lemma_fx_clamp_monotone,
};
use crate::geom::{Vec2, vec2_ok, BBox, bbox_ok, bbox_contains, lemma_bbox_of_points_contains};
use crate::color::{Color, color_ok};
use crate::mesh::{Vertex, Mesh, mesh_wf, mesh_within, mesh_vertices_ok};
use crate::shape::{
    Shape,
    ShapeGeometry,
    ShapeStyle,
    PathCommand,
    shape_ok,
    geometry_ok,
    spec_local_bounds,
    spec_arc_box,
    spec_path_pts,
    arc_box,
    path_bound_points,
};
use crate::transform::{Transform2D, transform_ok, spec_identity, lemma_identity_transform_point};

/// The fixed-point circle constant: the control-point offset that makes
/// four cubic segments approximate a circle.
pub const FX_CIRCLE_K: i64 = 552_285;

/// Two to the power of a subdivision depth.
pub open spec fn spec_pow2(d: int) -> int
    decreases d,
{
    if d <= 0 {
        1
    } else {
        2 * spec_pow2(d - 1)
    }
}

/// Whether an outline has at least one segment of nonzero length,
/// counting the closing segment when the outline is closed.
pub open spec fn spec_live_segment(c: Seq<Vec2>, closed: bool) -> bool {
    exists|k: int|
        0 <= k < (if closed {
            c.len() as int
        } else {
            c.len() - 1
        }) && #[trigger] c[k] != c[if k + 1 == c.len() {
            0int
        } else {
            k + 1
        }]
}

/// Index values shifted up by a vertex offset.
pub open spec fn spec_rebased(indices: Seq<u32>, off: int) -> Seq<u32> {
    Seq::new(indices.len(), |k: int| (indices[k] + off) as u32)
}

/// Subdivision counts are at least one.
proof fn lemma_pow2_pos(d: int)
    ensures
        spec_pow2(d) >= 1,
    decreases d,
{
    if d > 0 {
        lemma_pow2_pos(d - 1);
    }
}

/// Subdivision counts grow with the depth.
proof fn lemma_pow2_mono(a: int, b: int)
    requires
        a <= b,
    ensures
        spec_pow2(a) <= spec_pow2(b),
    decreases b,
{
    if a < b && b > 0 {
        lemma_pow2_mono(a, b - 1);
        lemma_pow2_pos(b - 1);
    }
}

/// A box grown by a margin on every side, saturating.
pub open spec fn spec_bbox_expand(b: BBox, m: int) -> BBox {
    BBox {
        min: Vec2 { x: fx_clamp(b.min.x - m) as i64, y: fx_clamp(b.min.y - m) as i64 },
        max: Vec2 { x: fx_clamp(b.max.x + m) as i64, y: fx_clamp(b.max.y + m) as i64 },
    }
}

/// All points of a vector slice starting at an index lie inside a box.
pub open spec fn pts_within_from(pts: Seq<Vec2>, from: int, b: BBox) -> bool {
    forall|k: int| from <= k < pts.len() ==> bbox_contains(b, #[trigger] pts[k])
}

/// All points of a vector slice starting at an index are representable.
pub open spec fn pts_ok_from(pts: Seq<Vec2>, from: int) -> bool {
    forall|k: int| from <= k < pts.len() ==> vec2_ok(#[trigger] pts[k])
}

/// Transform a point, and note that the identity transform returns it
/// unchanged.
fn tf_point(tf: &Transform2D, p: Vec2) -> (r: Vec2)
    requires
        transform_ok(*tf),
        vec2_ok(p),
    ensures
        r == crate::transform::spec_transform_point(*tf, p),
        vec2_ok(r),
        *tf == spec_identity() ==> r == p,
{
    proof {
        if *tf == spec_identity() {
            lemma_identity_transform_point(p);
        }
    }
    tf.transform_point(p)
}

/// Flatten one quadratic segment from `p0` to `p1` with control `c`,
/// pushing the transformed points of every subdivision endpoint except
/// `p0`'s. Every pushed point, at the identity transform, stays inside
/// any box that holds the three control points.
fn flatten_quad(
    tf: &Transform2D,
    p0: Vec2,
    c: Vec2,
    p1: Vec2,
    depth: u32,
    out: &mut Vec<Vec2>,
    Ghost(env): Ghost<BBox>,
)
    requires
        transform_ok(*tf),
        vec2_ok(p0),
        vec2_ok(c),
        vec2_ok(p1),
        bbox_contains(env, p0),
        bbox_contains(env, c),
        bbox_contains(env, p1),
    ensures
        final(out)@.len() > old(out)@.len(),
        final(out)@.take(old(out)@.len() as int) == old(out)@,
        pts_ok_from(final(out)@, old(out)@.len() as int),
        *tf == spec_identity() ==> pts_within_from(final(out)@, old(out)@.len() as int, env),
        pts_ok_from(old(out)@, 0) ==> pts_ok_from(final(out)@, 0),
        (*tf == spec_identity() && pts_within_from(old(out)@, 0, env)) ==> pts_within_from(
            final(out)@,
            0,
            env,
        ),
        final(out)@.len() <= old(out)@.len() + spec_pow2(depth as int),
    decreases depth,
{
    if depth == 0 {
        let q = tf_point(tf, p1);
        out.push(q);
        proof {
            assert(out@.take(old(out)@.len() as int) =~= old(out)@);
        }
    } else {
        let l1 = fx_avg_pt(p0, c);
        let r1 = fx_avg_pt(c, p1);
        let m = fx_avg_pt(l1, r1);
        proof {
            lemma_avg_within(env, p0, c, l1);
            lemma_avg_within(env, c, p1, r1);
            lemma_avg_within(env, l1, r1, m);
        }
        flatten_quad(tf, p0, l1, m, depth - 1, out, Ghost(env));
        let ghost mid = out@.len() as int;
        flatten_quad(tf, m, r1, p1, depth - 1, out, Ghost(env));
        proof {
            assert(out@.take(old(out)@.len() as int) =~= out@.take(mid).take(
                old(out)@.len() as int,
            ));
            assert forall|k: int| old(out)@.len() <= k < out@.len() implies vec2_ok(
                #[trigger] out@[k],
            ) by {
                if k < mid {
                    assert(out@[k] == out@.take(mid)[k]);
                }
            }
            if *tf == spec_identity() {
                assert forall|k: int| old(out)@.len() <= k < out@.len() implies bbox_contains(
                    env,
                    #[trigger] out@[k],
                ) by {
                    if k < mid {
                        assert(out@[k] == out@.take(mid)[k]);
                    }
                }
            }
        }
    }
    proof {
        if pts_ok_from(old(out)@, 0) {
            assert forall|k: int| 0 <= k < out@.len() implies vec2_ok(#[trigger] out@[k]) by {
                if k < old(out)@.len() {
                    assert(out@[k] == out@.take(old(out)@.len() as int)[k]);
                }
            }
        }
        if *tf == spec_identity() && pts_within_from(old(out)@, 0, env) {
            assert forall|k: int| 0 <= k < out@.len() implies bbox_contains(
                env,
                #[trigger] out@[k],
            ) by {
                if k < old(out)@.len() {
                    assert(out@[k] == out@.take(old(out)@.len() as int)[k]);
                }
            }
        }
    }
}

/// Flatten one cubic segment from `p0` to `p1` with controls `c1`, `c2`.
fn flatten_cubic(
    tf: &Transform2D,
    p0: Vec2,
    c1: Vec2,
    c2: Vec2,
    p1: Vec2,
    depth: u32,
    out: &mut Vec<Vec2>,
    Ghost(env): Ghost<BBox>,
)
    requires
        transform_ok(*tf),
        vec2_ok(p0),
        vec2_ok(c1),
        vec2_ok(c2),
        vec2_ok(p1),
        bbox_contains(env, p0),
        bbox_contains(env, c1),
        bbox_contains(env, c2),
        bbox_contains(env, p1),
    ensures
        final(out)@.len() > old(out)@.len(),
        final(out)@.take(old(out)@.len() as int) == old(out)@,
        pts_ok_from(final(out)@, old(out)@.len() as int),
        *tf == spec_identity() ==> pts_within_from(final(out)@, old(out)@.len() as int, env),
        pts_ok_from(old(out)@, 0) ==> pts_ok_from(final(out)@, 0),
        (*tf == spec_identity() && pts_within_from(old(out)@, 0, env)) ==> pts_within_from(
            final(out)@,
            0,
            env,
        ),
        final(out)@.len() <= old(out)@.len() + spec_pow2(depth as int),
    decreases depth,
{
    if depth == 0 {
        let q = tf_point(tf, p1);
        out.push(q);
        proof {
            assert(out@.take(old(out)@.len() as int) =~= old(out)@);
        }
    } else {
        let l1 = fx_avg_pt(p0, c1);
        let h = fx_avg_pt(c1, c2);
        let r2 = fx_avg_pt(c2, p1);
        let l2 = fx_avg_pt(l1, h);
        let r1 = fx_avg_pt(h, r2);
        let m = fx_avg_pt(l2, r1);
        proof {
            lemma_avg_within(env, p0, c1, l1);
            lemma_avg_within(env, c1, c2, h);
            lemma_avg_within(env, c2, p1, r2);
            lemma_avg_within(env, l1, h, l2);
            lemma_avg_within(env, h, r2, r1);
            lemma_avg_within(env, l2, r1, m);
        }
        flatten_cubic(tf, p0, l1, l2, m, depth - 1, out, Ghost(env));
        let ghost mid = out@.len() as int;
        flatten_cubic(tf, m, r1, r2, p1, depth - 1, out, Ghost(env));
        proof {
            assert(out@.take(old(out)@.len() as int) =~= out@.take(mid).take(
                old(out)@.len() as int,
            ));
            assert forall|k: int| old(out)@.len() <= k < out@.len() implies vec2_ok(
                #[trigger] out@[k],
            ) by {
                if k < mid {
                    assert(out@[k] == out@.take(mid)[k]);
                }
            }
            if *tf == spec_identity() {
                assert forall|k: int| old(out)@.len() <= k < out@.len() implies bbox_contains(
                    env,
                    #[trigger] out@[k],
                ) by {
                    if k < mid {
                        assert(out@[k] == out@.take(mid)[k]);
                    }
                }
            }
        }
    }
    proof {
        if pts_ok_from(old(out)@, 0) {
            assert forall|k: int| 0 <= k < out@.len() implies vec2_ok(#[trigger] out@[k]) by {
                if k < old(out)@.len() {
                    assert(out@[k] == out@.take(old(out)@.len() as int)[k]);
                }
            }
        }
        if *tf == spec_identity() && pts_within_from(old(out)@, 0, env) {
            assert forall|k: int| 0 <= k < out@.len() implies bbox_contains(
                env,
                #[trigger] out@[k],
            ) by {
                if k < old(out)@.len() {
                    assert(out@[k] == out@.take(old(out)@.len() as int)[k]);
                }
            }
        }
    }
}

/// The component-wise midpoint of two points.
fn fx_avg_pt(a: Vec2, b: Vec2) -> (r: Vec2)
    requires
        vec2_ok(a),
        vec2_ok(b),
    ensures
        vec2_ok(r),
        r.x == (a.x + b.x) / 2,
        r.y == (a.y + b.y) / 2,
{
    Vec2 { x: fx_avg(a.x, b.x), y: fx_avg(a.y, b.y) }
}

/// Integer square root: the largest `r` with `r * r <= v`.
fn isqrt_u128(v: u128) -> (r: u128)
    ensures
        r * r <= v,
        (r + 1) * (r + 1) > v,
        r < 0x1_0000_0000_0000_0000,
{
    let mut lo: u128 = 0;
    let mut hi: u128 = 0x1_0000_0000_0000_0000;
    while lo + 1 < hi
        invariant
            lo < hi <= 0x1_0000_0000_0000_0000,
            lo * lo <= v,
            hi * hi > v,
        decreases hi - lo,
    {
        let mid: u128 = lo + (hi - lo) / 2;
        proof {
            assert(mid * mid < 0x1_0000_0000_0000_0000 * 0x1_0000_0000_0000_0000)
                by (nonlinear_arith)
                requires
                    mid < 0x1_0000_0000_0000_0000,
            ;
            assert(lo < mid < hi) by (nonlinear_arith)
                requires
                    lo + 1 < hi,
                    mid == lo + (hi - lo) / 2,
                    hi - lo >= 2,
                    (hi - lo) / 2 >= 1,
                    (hi - lo) / 2 < hi - lo,
            ;
        }
        if mid * mid <= v {
            lo = mid;
        } else {
            hi = mid;
        }
    }
    lo
}

/// Clamp a point into a box, component-wise. A point already inside comes
/// back unchanged.
fn clamp_to_box(p: Vec2, b: BBox) -> (r: Vec2)
    requires
        bbox_ok(b),
        b.min.x <= b.max.x,
        b.min.y <= b.max.y,
    ensures
        vec2_ok(r),
        bbox_contains(b, r),
        bbox_contains(b, p) ==> r == p,
{
    let x = if p.x < b.min.x {
        b.min.x
    } else if p.x > b.max.x {
        b.max.x
    } else {
        p.x
    };
    let y = if p.y < b.min.y {
        b.min.y
    } else if p.y > b.max.y {
        b.max.y
    } else {
        p.y
    };
    Vec2 { x, y }
}

/// The sign of the cross product of `b - a` and `c - a`: positive for a
/// counter-clockwise turn. Used only to choose ears; no caller relies on
/// its value.
fn cross_sign(a: Vec2, b: Vec2, c: Vec2) -> (r: i32)
    requires
        vec2_ok(a),
        vec2_ok(b),
        vec2_ok(c),
{
    let ux: i128 = b.x as i128 - a.x as i128;
    let uy: i128 = b.y as i128 - a.y as i128;
    let vx: i128 = c.x as i128 - a.x as i128;
    let vy: i128 = c.y as i128 - a.y as i128;
    proof {
        assert(-90_000_000_000_000_000_000_000_000_000_000_000_000 <= ux * vy
            <= 90_000_000_000_000_000_000_000_000_000_000_000_000 &&
            -90_000_000_000_000_000_000_000_000_000_000_000_000 <= uy * vx
            <= 90_000_000_000_000_000_000_000_000_000_000_000_000) by (nonlinear_arith)
            requires
                -9_300_000_000_000_000_000 <= ux <= 9_300_000_000_000_000_000,
                -9_300_000_000_000_000_000 <= uy <= 9_300_000_000_000_000_000,
                -9_300_000_000_000_000_000 <= vx <= 9_300_000_000_000_000_000,
                -9_300_000_000_000_000_000 <= vy <= 9_300_000_000_000_000_000,
        ;
    }
    let p1: i128 = ux * vy;
    let p2: i128 = uy * vx;
    if p1 > p2 {
        1
    } else if p1 < p2 {
        -1
    } else {
        0
    }
}

/// Whether any point of the working outline other than the ear's corners
/// falls inside the candidate ear triangle. Heuristic only.
fn point_blocks_ear(contour: &Vec<Vec2>, rem: &Vec<usize>, pa: usize, pb: usize, pc: usize) -> (r:
    bool)
    requires
        forall|k: int| 0 <= k < rem@.len() ==> (#[trigger] rem@[k]) < contour@.len(),
        pa < contour@.len(),
        pb < contour@.len(),
        pc < contour@.len(),
        forall|k: int| 0 <= k < contour@.len() ==> vec2_ok(#[trigger] contour@[k]),
{
    let a = contour[pa];
    let b = contour[pb];
    let c = contour[pc];
    let mut k: usize = 0;
    while k < rem.len()
        invariant
            0 <= k <= rem@.len(),
            forall|j: int| 0 <= j < rem@.len() ==> (#[trigger] rem@[j]) < contour@.len(),
            forall|j: int| 0 <= j < contour@.len() ==> vec2_ok(#[trigger] contour@[j]),
            vec2_ok(a),
            vec2_ok(b),
            vec2_ok(c),
            pa < contour@.len(),
            pb < contour@.len(),
            pc < contour@.len(),
        decreases rem@.len() - k,
    {
        let idx = rem[k];
        if idx != pa && idx != pb && idx != pc {
            let p = contour[idx];
            let s1 = cross_sign(a, b, p);
            let s2 = cross_sign(b, c, p);
            let s3 = cross_sign(c, a, p);
            if s1 >= 0 && s2 >= 0 && s3 >= 0 {
                return true;
            }
            if s1 <= 0 && s2 <= 0 && s3 <= 0 {
                return true;
            }
        }
        k = k + 1;
    }
    false
}

/// Triangulate a closed outline into a fill mesh by ear clipping, with a
/// fan fallback when no ear can be found. The mesh's vertices are exactly
/// the outline's points; an outline of fewer than three points fills
/// nothing.
fn fill_contour(contour: &Vec<Vec2>, color: Color) -> (m: Mesh)
    requires
        forall|k: int| 0 <= k < contour@.len() ==> vec2_ok(#[trigger] contour@[k]),
    ensures
        mesh_wf(m),
        m.vertices@.len() == if 3 <= contour@.len() <= 0xffff_ffff {
            contour@.len() as int
        } else {
            0
        },
        forall|k: int|
            0 <= k < m.vertices@.len() ==> (#[trigger] m.vertices@[k]) == (Vertex {
                position: contour@[k],
                color,
            }),
        m.indices@.len() == if 3 <= contour@.len() <= 0xffff_ffff {
            3 * (contour@.len() - 2)
        } else {
            0
        },
{
    let n = contour.len();
    let mut m = Mesh::new();
    if n < 3 || n > 0xffff_ffff {
        return m;
    }
    let mut i: usize = 0;
    while i < n
        invariant
            0 <= i <= contour@.len(),
            n == contour@.len(),
            m.indices@.len() == 0,
            m.vertices@.len() == i,
            forall|k: int|
                0 <= k < i ==> (#[trigger] m.vertices@[k]) == (Vertex {
                    position: contour@[k],
                    color,
                }),
        decreases contour@.len() - i,
    {
        m.vertices.push(Vertex { position: contour[i], color });
        i = i + 1;
    }
    let mut rem: Vec<usize> = Vec::new();
    let mut j: usize = 0;
    while j < n
        invariant
            0 <= j <= contour@.len(),
            n == contour@.len(),
            rem@.len() == j,
            forall|k: int| 0 <= k < j ==> (#[trigger] rem@[k]) == k,
        decreases contour@.len() - j,
    {
        rem.push(j);
        j = j + 1;
    }
    while rem.len() > 3
        invariant
            3 <= rem@.len() <= contour@.len(),
            n == contour@.len(),
            3 <= n <= 0xffff_ffff,
            forall|k: int| 0 <= k < rem@.len() ==> (#[trigger] rem@[k]) < contour@.len(),
            forall|k: int| 0 <= k < contour@.len() ==> vec2_ok(#[trigger] contour@[k]),
            m.vertices@.len() == contour@.len(),
            forall|k: int|
                0 <= k < m.vertices@.len() ==> (#[trigger] m.vertices@[k]) == (Vertex {
                    position: contour@[k],
                    color,
                }),
            m.indices@.len() == 3 * (contour@.len() - rem@.len()),
            forall|k: int|
                0 <= k < m.indices@.len() ==> (#[trigger] m.indices@[k]) < m.vertices@.len(),
        decreases rem@.len(),
    {
        let rlen = rem.len();
        let mut ear: usize = 0;
        let mut e: usize = 0;
        let mut found = false;
        while e < rlen && !found
            invariant
                0 <= e <= rlen,
                rlen == rem@.len(),
                ear < rlen,
                forall|k: int| 0 <= k < rem@.len() ==> (#[trigger] rem@[k]) < contour@.len(),
                forall|k: int| 0 <= k < contour@.len() ==> vec2_ok(#[trigger] contour@[k]),
            decreases rlen - e, (if found {
                0int
            } else {
                1int
            }),
        {
            let pa = rem[if e == 0 {
                rlen - 1
            } else {
                e - 1
            }];
            let pb = rem[e];
            let pc = rem[if e + 1 == rlen {
                0
            } else {
                e + 1
            }];
            let convex = cross_sign(contour[pa], contour[pb], contour[pc]);
            if convex != 0 && !point_blocks_ear(contour, &rem, pa, pb, pc) {
                ear = e;
                found = true;
            } else {
                e = e + 1;
            }
        }
        let pa = rem[if ear == 0 {
            rlen - 1
        } else {
            ear - 1
        }];
        let pb = rem[ear];
        let pc = rem[if ear + 1 == rlen {
            0
        } else {
            ear + 1
        }];
        m.indices.push(pa as u32);
        m.indices.push(pb as u32);
        m.indices.push(pc as u32);
        rem.remove(ear);
        proof {
            assert(m.indices@.len() % 3 == 0) by (nonlinear_arith)
                requires
                    m.indices@.len() == 3 * (n - rem@.len()),
            ;
        }
    }
    let pa = rem[0];
    let pb = rem[1];
    let pc = rem[2];
    m.indices.push(pa as u32);
    m.indices.push(pb as u32);
    m.indices.push(pc as u32);
    proof {
        assert(m.indices@.len() % 3 == 0) by (nonlinear_arith)
            requires
                m.indices@.len() == 3 * (n - 2),
        ;
    }
    m
}

/// Build a stroke mesh for an outline: one rectangle per segment, offset
/// perpendicular to it by half the line width. When `cond` holds, every
/// outline point lies inside `env`, and then every stroke vertex lies
/// inside `env` grown by the half-width.
fn stroke_contour(
    contour: &Vec<Vec2>,
    closed: bool,
    color: Color,
    half_width: i64,
    Ghost(env): Ghost<BBox>,
    Ghost(cond): Ghost<bool>,
) -> (m: Mesh)
    requires
        forall|k: int| 0 <= k < contour@.len() ==> vec2_ok(#[trigger] contour@[k]),
        0 <= half_width <= FX_MAX,
        bbox_ok(env),
        cond ==> forall|k: int| 0 <= k < contour@.len() ==> bbox_contains(
            env,
            #[trigger] contour@[k],
        ),
    ensures
        mesh_wf(m),
        mesh_vertices_ok(m),
        cond ==> mesh_within(m, spec_bbox_expand(env, half_width as int)),
        m.vertices@.len() % 4 == 0,
        m.vertices@.len() <= 4 * contour@.len(),
        contour@.len() < 2 ==> m.vertices@.len() == 0 && m.indices@.len() == 0,
        m.indices@.len() * 2 == m.vertices@.len() * 3,
        forall|k: int| 0 <= k < m.vertices@.len() ==> (#[trigger] m.vertices@[k]).color == color,
        (2 <= contour@.len() <= 0x3fff_ffff && spec_live_segment(contour@, closed))
            ==> m.vertices@.len() >= 4,
{
    let mut m = Mesh::new();
    if contour.len() < 2 || contour.len() > 0x3fff_ffff {
        return m;
    }
    let segs = if closed {
        contour.len()
    } else {
        contour.len() - 1
    };
    let mut i: usize = 0;
    while i < segs
        invariant
            0 <= i <= segs,
            segs <= contour@.len(),
            segs == (if closed {
                contour@.len() as int
            } else {
                contour@.len() - 1
            }),
            2 <= contour@.len() <= 0x3fff_ffff,
            forall|k: int| 0 <= k < contour@.len() ==> vec2_ok(#[trigger] contour@[k]),
            0 <= half_width <= FX_MAX,
            bbox_ok(env),
            cond ==> forall|k: int|
                0 <= k < contour@.len() ==> bbox_contains(env, #[trigger] contour@[k]),
            mesh_wf(m),
            mesh_vertices_ok(m),
            m.vertices@.len() <= 4 * i,
            m.vertices@.len() % 4 == 0,
            m.indices@.len() * 2 == m.vertices@.len() * 3,
            forall|k: int|
                0 <= k < m.vertices@.len() ==> (#[trigger] m.vertices@[k]).color == color,
            m.vertices@.len() >= 4 || forall|k: int|
                0 <= k < i ==> #[trigger] contour@[k] == contour@[if k + 1 == contour@.len() {
                    0int
                } else {
                    k + 1
                }],
            cond ==> mesh_within(m, spec_bbox_expand(env, half_width as int)),
        decreases segs - i,
    {
        let p = contour[i];
        let q = contour[if i + 1 == contour.len() {
            0
        } else {
            i + 1
        }];
        let dx = fx_sub(q.x, p.x);
        let dy = fx_sub(q.y, p.y);
        if dx != 0 || dy != 0 {
            proof {
                assert((dx as int) * (dx as int) >= 0 && (dx as int) * (dx as int)
                    <= 21_267_647_932_558_653_966_460_912_964_485_513_216 && (dy as int) * (
                dy as int) >= 0 && (dy as int) * (dy as int)
                    <= 21_267_647_932_558_653_966_460_912_964_485_513_216) by (nonlinear_arith)
                    requires
                        -4_611_686_018_427_387_903 <= dx <= 4_611_686_018_427_387_903,
                        -4_611_686_018_427_387_903 <= dy <= 4_611_686_018_427_387_903,
                ;
            }
            let sq: u128 = ((dx as i128) * (dx as i128)) as u128 + ((dy as i128) * (dy as i128)) as u128;
            proof {
                assert(sq >= 1) by (nonlinear_arith)
                    requires
                        sq == (dx as int) * (dx as int) + (dy as int) * (dy as int),
                        dx != 0 || dy != 0,
                ;
            }
            let len = isqrt_u128(sq);
            proof {
                assert(len >= 1) by (nonlinear_arith)
                    requires
                        ((len as int) + 1) * ((len as int) + 1) > sq as int,
                        sq >= 1,
                        len >= 0,
                ;
            }
            if len > 0 {
                proof {
                    assert(len < 9_223_372_036_854_775_808) by (nonlinear_arith)
                        requires
                            (len as int) * (len as int) <= sq as int,
                            sq as int
                                <= 42_535_295_865_117_307_932_921_825_928_971_026_432,
                    ;
                    lemma_component_le_isqrt(dx as int, dy as int, sq as int, len as int);
                    lemma_component_le_isqrt(dy as int, dx as int, sq as int, len as int);
                }
                let nx = offset_div(dy, half_width, len as i64);
                let ny = offset_div(-dx, half_width, len as i64);
                proof {
                    assert(m.vertices@.len() <= 4 * segs - 4);
                }
                let base = m.vertices.len() as u32;
                let v0 = Vec2 { x: fx_add(p.x, nx), y: fx_add(p.y, ny) };
                let v1 = Vec2 { x: fx_sub(p.x, nx), y: fx_sub(p.y, ny) };
                let v2 = Vec2 { x: fx_add(q.x, nx), y: fx_add(q.y, ny) };
                let v3 = Vec2 { x: fx_sub(q.x, nx), y: fx_sub(q.y, ny) };
                proof {
                    if cond {
                        lemma_offset_within(env, p, nx, ny, half_width);
                        lemma_offset_within(env, q, nx, ny, half_width);
                    }
                }
                m.vertices.push(Vertex { position: v0, color });
                m.vertices.push(Vertex { position: v1, color });
                m.vertices.push(Vertex { position: v2, color });
                m.vertices.push(Vertex { position: v3, color });
                m.indices.push(base);
                m.indices.push(base + 1);
                m.indices.push(base + 2);
                m.indices.push(base + 2);
                m.indices.push(base + 1);
                m.indices.push(base + 3);
            }
        } else {
            proof {
                assert(p == q);
            }
        }
        i = i + 1;
    }
    proof {
        if m.vertices@.len() < 4 && spec_live_segment(contour@, closed) {
            let k = choose|k: int|
                0 <= k < (if closed {
                    contour@.len() as int
                } else {
                    contour@.len() - 1
                }) && #[trigger] contour@[k] != contour@[if k + 1 == contour@.len() {
                    0int
                } else {
                    k + 1
                }];
            assert(contour@[k] == contour@[if k + 1 == contour@.len() {
                0int
            } else {
                k + 1
            }]);
        }
    }
    m
}

/// One coordinate of a segment fits under the segment's length.
proof fn lemma_component_le_isqrt(d: int, o: int, sq: int, len: int)
    requires
        sq == d * d + o * o,
        len * len <= sq,
        (len + 1) * (len + 1) > sq,
        len >= 0,
    ensures
        -len <= d <= len,
{
    assert(-len <= d <= len) by (nonlinear_arith)
        requires
            sq == d * d + o * o,
            (len + 1) * (len + 1) > sq,
            len >= 0,
    ;
}

/// The perpendicular offset `d * half / len`, whose magnitude stays under
/// the half-width.
fn offset_div(d: i64, half: i64, len: i64) -> (r: i64)
    requires
        fx_ok(d as int),
        0 <= half <= FX_MAX,
        1 <= len,
        -len <= d <= len,
    ensures
        -half <= r <= half,
        fx_ok(r as int),
{
    let dd: i128 = d as i128;
    let hh: i128 = half as i128;
    let ll: i128 = len as i128;
    proof {
        assert(-(ll * hh) <= dd * hh <= ll * hh && 0 <= ll * hh
            <= 42_535_295_865_117_307_932_921_825_928_971_026_432) by (nonlinear_arith)
            requires
                -ll <= dd <= ll,
                0 <= hh <= 4_611_686_018_427_387_903,
                1 <= ll <= 9_223_372_036_854_775_807,
        ;
    }
    let p: i128 = dd * hh;
    proof {
        assert((ll as int) * (hh as int) / (ll as int) == hh as int) by {
            vstd::arithmetic::div_mod::lemma_div_multiples_vanish(hh as int, ll as int);
        }
        if p >= 0 {
            vstd::arithmetic::div_mod::lemma_div_is_ordered(
                p as int,
                (ll as int) * (hh as int),
                ll as int,
            );
            vstd::arithmetic::div_mod::lemma_div_pos_is_pos(p as int, ll as int);
        } else {
            assert(-(p as int) <= (ll as int) * (hh as int));
            vstd::arithmetic::div_mod::lemma_div_is_ordered(
                -(p as int),
                (ll as int) * (hh as int),
                ll as int,
            );
            vstd::arithmetic::div_mod::lemma_div_pos_is_pos(-(p as int), ll as int);
        }
    }
    let q: i128 = p / ll;
    q as i64
}

/// An offset point stays inside the expanded box.
proof fn lemma_offset_within(env: BBox, p: Vec2, nx: i64, ny: i64, half: i64)
    requires
        bbox_contains(env, p),
        bbox_ok(env),
        vec2_ok(p),
        -half <= nx <= half,
        -half <= ny <= half,
        0 <= half,
    ensures
        bbox_contains(
            spec_bbox_expand(env, half as int),
            Vec2 { x: fx_clamp(p.x + nx) as i64, y: fx_clamp(p.y + ny) as i64 },
        ),
        bbox_contains(
            spec_bbox_expand(env, half as int),
            Vec2 { x: fx_clamp(p.x - nx) as i64, y: fx_clamp(p.y - ny) as i64 },
        ),
{
    lemma_fx_clamp_monotone(env.min.x - half, p.x + nx);
    lemma_fx_clamp_monotone(p.x + nx, env.max.x + half);
    lemma_fx_clamp_monotone(env.min.y - half, p.y + ny);
    lemma_fx_clamp_monotone(p.y + ny, env.max.y + half);
    lemma_fx_clamp_monotone(env.min.x - half, p.x - nx);
    lemma_fx_clamp_monotone(p.x - nx, env.max.x + half);
    lemma_fx_clamp_monotone(env.min.y - half, p.y - ny);
    lemma_fx_clamp_monotone(p.y - ny, env.max.y + half);
}

/// Append another mesh if the combined vertex count still fits the index
/// type; a mesh too large to index renders nothing extra.
fn mesh_extend_checked(m: &mut Mesh, other: &Mesh, Ghost(env): Ghost<BBox>, Ghost(cond): Ghost<
    bool,
>)
    requires
        mesh_wf(*old(m)),
        mesh_wf(*other),
        mesh_vertices_ok(*old(m)),
        mesh_vertices_ok(*other),
        cond ==> mesh_within(*old(m), env) && mesh_within(*other, env),
    ensures
        mesh_wf(*final(m)),
        mesh_vertices_ok(*final(m)),
        cond ==> mesh_within(*final(m), env),
        ({
            if old(m).vertices@.len() + other.vertices@.len() <= 0xffff_ffff {
                final(m).vertices@ == old(m).vertices@ + other.vertices@ && final(m).indices@
                    == old(m).indices@ + spec_rebased(
                    other.indices@,
                    old(m).vertices@.len() as int,
                )
            } else {
                *final(m) == *old(m)
            }
        }),
{
    if other.vertices.len() <= 0xffff_ffff && m.vertices.len() <= 0xffff_ffff_usize
        - other.vertices.len() {
        let ghost mb = *m;
        m.extend(other);
        proof {
            assert(m.vertices@ =~= mb.vertices@ + other.vertices@);
            assert(m.indices@ =~= mb.indices@ + spec_rebased(
                other.indices@,
                mb.vertices@.len() as int,
            ));
            assert forall|k: int| 0 <= k < m.vertices@.len() implies vec2_ok(
                (#[trigger] m.vertices@[k]).position,
            ) by {
                if k < mb.vertices@.len() {
                    assert(m.vertices@[k] == mb.vertices@[k]);
                } else {
                    assert(m.vertices@[k] == other.vertices@[k - mb.vertices@.len()]);
                }
            }
            if cond {
                assert forall|k: int| 0 <= k < m.vertices@.len() implies bbox_contains(
                    env,
                    (#[trigger] m.vertices@[k]).position,
                ) by {
                    if k < mb.vertices@.len() {
                        assert(m.vertices@[k] == mb.vertices@[k]);
                    } else {
                        assert(m.vertices@[k] == other.vertices@[k - mb.vertices@.len()]);
                    }
                }
            }
        }
    }
}

/// Map an outline through the shape transform. At the identity transform
/// the outline is returned unchanged.
fn polygon_contour(tf: &Transform2D, points: &Vec<Vec2>) -> (c: Vec<Vec2>)
    requires
        transform_ok(*tf),
        forall|k: int| 0 <= k < points@.len() ==> vec2_ok(#[trigger] points@[k]),
    ensures
        c@.len() == points@.len(),
        forall|k: int| 0 <= k < c@.len() ==> vec2_ok(#[trigger] c@[k]),
        forall|k: int|
            0 <= k < c@.len() ==> #[trigger] c@[k] == crate::transform::spec_transform_point(
                *tf,
                points@[k],
            ),
        *tf == spec_identity() ==> c@ == points@,
{
    let mut c: Vec<Vec2> = Vec::new();
    let mut i: usize = 0;
    while i < points.len()
        invariant
            0 <= i <= points@.len(),
            transform_ok(*tf),
            forall|k: int| 0 <= k < points@.len() ==> vec2_ok(#[trigger] points@[k]),
            c@.len() == i,
            forall|k: int| 0 <= k < c@.len() ==> vec2_ok(#[trigger] c@[k]),
            forall|k: int|
                0 <= k < c@.len() ==> #[trigger] c@[k] == crate::transform::spec_transform_point(
                    *tf,
                    points@[k],
                ),
            *tf == spec_identity() ==> c@ == points@.take(i as int),
        decreases points@.len() - i,
    {
        let p = tf_point(tf, points[i]);
        c.push(p);
        proof {
            if *tf == spec_identity() {
                assert(c@ =~= points@.take(i + 1));
            }
        }
        i = i + 1;
    }
    proof {
        assert(points@.take(points@.len() as int) =~= points@);
    }
    c
}

/// The outline of a rectangle, with rounded corners flattened from
/// quadratic segments when a corner radius is set. At the identity
/// transform every outline point stays inside the rectangle.
#[verifier::rlimit(100)]
fn rect_contour(tf: &Transform2D, width: i64, height: i64, corner_radius: i64, depth: u32) -> (c:
    Vec<Vec2>)
    requires
        transform_ok(*tf),
        0 <= width <= FX_MAX,
        0 <= height <= FX_MAX,
        0 <= corner_radius <= FX_MAX,
    ensures
        forall|k: int| 0 <= k < c@.len() ==> vec2_ok(#[trigger] c@[k]),
        *tf == spec_identity() ==> forall|k: int|
            0 <= k < c@.len() ==> bbox_contains(
                BBox { min: Vec2 { x: 0, y: 0 }, max: Vec2 { x: width, y: height } },
                #[trigger] c@[k],
            ),
        4 <= c@.len() <= 5 + 4 * spec_pow2(depth as int),
{
    let ghost env = BBox { min: Vec2 { x: 0, y: 0 }, max: Vec2 { x: width, y: height } };
    proof {
        lemma_pow2_pos(depth as int);
    }
    let mut c: Vec<Vec2> = Vec::new();
    let r = crate::fixed::fx_min(
        corner_radius,
        crate::fixed::fx_min(fx_half(width), fx_half(height)),
    );
    if r <= 0 {
        c.push(tf_point(tf, Vec2 { x: 0, y: 0 }));
        c.push(tf_point(tf, Vec2 { x: width, y: 0 }));
        c.push(tf_point(tf, Vec2 { x: width, y: height }));
        c.push(tf_point(tf, Vec2 { x: 0, y: height }));
    } else {
        let wr = fx_sub(width, r);
        let hr = fx_sub(height, r);
        c.push(tf_point(tf, Vec2 { x: r, y: 0 }));
        c.push(tf_point(tf, Vec2 { x: wr, y: 0 }));
        flatten_quad(
            tf,
            Vec2 { x: wr, y: 0 },
            Vec2 { x: width, y: 0 },
            Vec2 { x: width, y: r },
            depth,
            &mut c,
            Ghost(env),
        );
        c.push(tf_point(tf, Vec2 { x: width, y: hr }));
        flatten_quad(
            tf,
            Vec2 { x: width, y: hr },
            Vec2 { x: width, y: height },
            Vec2 { x: wr, y: height },
            depth,
            &mut c,
            Ghost(env),
        );
        c.push(tf_point(tf, Vec2 { x: r, y: height }));
        flatten_quad(
            tf,
            Vec2 { x: r, y: height },
            Vec2 { x: 0, y: height },
            Vec2 { x: 0, y: hr },
            depth,
            &mut c,
            Ghost(env),
        );
        c.push(tf_point(tf, Vec2 { x: 0, y: r }));
        flatten_quad(
            tf,
            Vec2 { x: 0, y: r },
            Vec2 { x: 0, y: 0 },
            Vec2 { x: r, y: 0 },
            depth,
            &mut c,
            Ghost(env),
        );
    }
    c
}

/// A radius scaled by the circle constant; never more than the radius.
fn mul_circle_k(r: i64) -> (v: i64)
    requires
        0 <= r <= FX_MAX,
    ensures
        0 <= v <= r,
{
    let p: i128 = (r as i128) * (FX_CIRCLE_K as i128);
    proof {
        assert(0 <= (r as int) * (FX_CIRCLE_K as int) <= (r as int) * (FX_ONE as int))
            by (nonlinear_arith)
            requires
                0 <= r,
                0 <= FX_CIRCLE_K <= FX_ONE,
        ;
        vstd::arithmetic::div_mod::lemma_div_is_ordered(
            (r as int) * (FX_CIRCLE_K as int),
            (r as int) * (FX_ONE as int),
            FX_ONE as int,
        );
        vstd::arithmetic::div_mod::lemma_div_pos_is_pos(
            (r as int) * (FX_CIRCLE_K as int),
            FX_ONE as int,
        );
        assert((r as int) * (FX_ONE as int) / (FX_ONE as int) == r as int) by {
            vstd::arithmetic::div_mod::lemma_div_multiples_vanish(r as int, FX_ONE as int);
            assert((r as int) * (FX_ONE as int) == (FX_ONE as int) * (r as int))
                by (nonlinear_arith);
        }
    }
    let q: i128 = p / (FX_ONE as i128);
    q as i64
}

/// The outline of an ellipse: four cubic quadrants through the four
/// extreme points, using the circle constant for the control offsets. At
/// the identity transform every outline point stays inside the radius box.
fn ellipse_contour(tf: &Transform2D, rx: i64, ry: i64, depth: u32) -> (c: Vec<Vec2>)
    requires
        transform_ok(*tf),
        0 <= rx <= FX_MAX,
        0 <= ry <= FX_MAX,
    ensures
        forall|k: int| 0 <= k < c@.len() ==> vec2_ok(#[trigger] c@[k]),
        *tf == spec_identity() ==> forall|k: int|
            0 <= k < c@.len() ==> bbox_contains(
                BBox { min: Vec2 { x: -rx as i64, y: -ry as i64 }, max: Vec2 { x: rx, y: ry } },
                #[trigger] c@[k],
            ),
        5 <= c@.len() <= 1 + 4 * spec_pow2(depth as int),
{
    let ghost env = BBox {
        min: Vec2 { x: -rx as i64, y: -ry as i64 },
        max: Vec2 { x: rx, y: ry },
    };
    proof {
        lemma_pow2_pos(depth as int);
    }
    let kx = mul_circle_k(rx);
    let ky = mul_circle_k(ry);
    let mut c: Vec<Vec2> = Vec::new();
    c.push(tf_point(tf, Vec2 { x: rx, y: 0 }));
    flatten_cubic(
        tf,
        Vec2 { x: rx, y: 0 },
        Vec2 { x: rx, y: ky },
        Vec2 { x: kx, y: ry },
        Vec2 { x: 0, y: ry },
        depth,
        &mut c,
        Ghost(env),
    );
    flatten_cubic(
        tf,
        Vec2 { x: 0, y: ry },
        Vec2 { x: -kx, y: ry },
        Vec2 { x: -rx, y: ky },
        Vec2 { x: -rx, y: 0 },
        depth,
        &mut c,
        Ghost(env),
    );
    flatten_cubic(
        tf,
        Vec2 { x: -rx, y: 0 },
        Vec2 { x: -rx, y: -ky },
        Vec2 { x: -kx, y: -ry },
        Vec2 { x: 0, y: -ry },
        depth,
        &mut c,
        Ghost(env),
    );
    flatten_cubic(
        tf,
        Vec2 { x: 0, y: -ry },
        Vec2 { x: kx, y: -ry },
        Vec2 { x: rx, y: -ky },
        Vec2 { x: rx, y: 0 },
        depth,
        &mut c,
        Ghost(env),
    );
    c
}

/// Fixed-point square root of a nonnegative value.
fn sqrt_fx(v: i64) -> (r: i64)
    requires
        0 <= v <= FX_MAX,
    ensures
        0 <= r <= FX_MAX,
{
    proof {
        assert(0 <= (v as int) * (FX_ONE as int) <= 4_611_686_018_427_387_903_000_000)
            by (nonlinear_arith)
            requires
                0 <= v <= 4_611_686_018_427_387_903,
        ;
    }
    let s: u128 = (v as u128) * (FX_ONE as u128);
    let r = isqrt_u128(s);
    proof {
        assert(r <= 4_611_686_018_427_387_903) by (nonlinear_arith)
            requires
                (r as int) * (r as int) <= s as int,
                s as int <= 4_611_686_018_427_387_903_000_000,
        ;
    }
    r as i64
}

/// A value clamped to be nonnegative.
fn clamp0(v: i64) -> (r: i64)
    requires
        fx_ok(v as int),
    ensures
        0 <= r <= FX_MAX,
        v >= 0 ==> r == v,
{
    if v < 0 {
        0
    } else {
        v
    }
}

/// The whole representable plane, as a box.
fn whole_plane() -> (b: BBox)
    ensures
        b == (BBox {
            min: Vec2 { x: crate::fixed::FX_MIN, y: crate::fixed::FX_MIN },
            max: Vec2 { x: FX_MAX, y: FX_MAX },
        }),
{
    BBox {
        min: Vec2 { x: crate::fixed::FX_MIN, y: crate::fixed::FX_MIN },
        max: Vec2 { x: FX_MAX, y: FX_MAX },
    }
}

/// The midpoint of an arc between two unit vectors, as a unit vector; the
/// far midpoint when `flip` asks for the large arc. Numeric best effort:
/// callers clamp whatever comes out of the arc machinery.
fn arc_mid(u: Vec2, v: Vec2, flip: bool, sweep: bool) -> (m: Vec2)
    requires
        vec2_ok(u),
        vec2_ok(v),
    ensures
        vec2_ok(m),
{
    let sx = fx_add(u.x, v.x);
    let sy = fx_add(u.y, v.y);
    proof {
        assert(0 <= (sx as int) * (sx as int) && (sx as int) * (sx as int)
            <= 21_267_647_932_558_653_966_460_912_964_485_513_216 && 0 <= (sy as int) * (
        sy as int) && (sy as int) * (sy as int)
            <= 21_267_647_932_558_653_966_460_912_964_485_513_216) by (nonlinear_arith)
            requires
                -4_611_686_018_427_387_903 <= sx <= 4_611_686_018_427_387_903,
                -4_611_686_018_427_387_903 <= sy <= 4_611_686_018_427_387_903,
        ;
    }
    let sq: u128 = ((sx as i128) * (sx as i128)) as u128 + ((sy as i128) * (sy as i128)) as u128;
    let len = isqrt_u128(sq);
    let base = if len == 0 {
        // Antipodal endpoints: take the perpendicular.
        if sweep {
            Vec2 { x: fx_neg_checked(u.y), y: u.x }
        } else {
            Vec2 { x: u.y, y: fx_neg_checked(u.x) }
        }
    } else {
        proof {
            assert(len < 9_223_372_036_854_775_808) by (nonlinear_arith)
                requires
                    (len as int) * (len as int) <= sq as int,
                    sq as int <= 42_535_295_865_117_307_932_921_825_928_971_026_432,
            ;
        }
        Vec2 { x: crate::fixed::fx_div(sx, len as i64), y: crate::fixed::fx_div(sy, len as i64) }
    };
    if flip {
        Vec2 { x: fx_neg_checked(base.x), y: fx_neg_checked(base.y) }
    } else {
        base
    }
}

/// Negation within the representable range.
fn fx_neg_checked(a: i64) -> (r: i64)
    requires
        fx_ok(a as int),
    ensures
        r == -(a as int),
        fx_ok(r as int),
{
    -a
}

/// One point of an ellipse frame: `center + R(phi) * (rx*ux, ry*uy)`.
fn arc_point(
    cx: i64,
    cy: i64,
    cphi: i64,
    sphi: i64,
    rx: i64,
    ry: i64,
    ux: i64,
    uy: i64,
) -> (p: Vec2)
    requires
        fx_ok(cx as int),
        fx_ok(cy as int),
        fx_ok(cphi as int),
        fx_ok(sphi as int),
        fx_ok(rx as int),
        fx_ok(ry as int),
        fx_ok(ux as int),
        fx_ok(uy as int),
    ensures
        vec2_ok(p),
{
    let ex = crate::fixed::fx_mul(rx, ux);
    let ey = crate::fixed::fx_mul(ry, uy);
    Vec2 {
        x: fx_add(cx, fx_sub(crate::fixed::fx_mul(cphi, ex), crate::fixed::fx_mul(sphi, ey))),
        y: fx_add(cy, fx_add(crate::fixed::fx_mul(sphi, ex), crate::fixed::fx_mul(cphi, ey))),
    }
}

/// Flatten one elliptical arc into raw (untransformed) points, using the
/// standard center parameterization: radii made positive, scaled up when
/// too small for the endpoints, the arc split into four sub-arcs of at
/// most a quarter turn, each approximated by one cubic segment. The
/// numeric work saturates; callers clamp the points into the declared
/// bounds.
#[verifier::rlimit(100)]
fn arc_flatten(
    cur: Vec2,
    rx0: i64,
    ry0: i64,
    x_rotation: i64,
    large_arc: bool,
    sweep: bool,
    to: Vec2,
    depth: u32,
    out: &mut Vec<Vec2>,
)
    requires
        vec2_ok(cur),
        vec2_ok(to),
        fx_ok(rx0 as int),
        fx_ok(ry0 as int),
        fx_ok(x_rotation as int),
    ensures
        final(out)@.len() >= old(out)@.len(),
        final(out)@.take(old(out)@.len() as int) == old(out)@,
        pts_ok_from(final(out)@, old(out)@.len() as int),
{
    let ghost n0 = old(out)@.len() as int;
    let ghost world = BBox {
        min: Vec2 { x: crate::fixed::FX_MIN, y: crate::fixed::FX_MIN },
        max: Vec2 { x: FX_MAX, y: FX_MAX },
    };
    let mut rx = fx_abs(rx0);
    let mut ry = fx_abs(ry0);
    if cur.x == to.x && cur.y == to.y {
        // A degenerate arc draws nothing.
        proof {
            assert(out@.take(n0) =~= old(out)@);
        }
        return ;
    }
    if rx == 0 || ry == 0 {
        // Zero radius: the arc degenerates to a straight line.
        out.push(to);
        proof {
            assert(out@.take(n0) =~= old(out)@);
        }
        return ;
    }
    let phi = crate::fixed::fx_mul(x_rotation, 17_453);
    let cphi = crate::transform::cos_fx(phi);
    let sphi = crate::transform::sin_fx(phi);
    let mx = fx_avg(cur.x, to.x);
    let my = fx_avg(cur.y, to.y);
    let dx2 = fx_sub(cur.x, mx);
    let dy2 = fx_sub(cur.y, my);
    let x1p = fx_add(crate::fixed::fx_mul(cphi, dx2), crate::fixed::fx_mul(sphi, dy2));
    let y1p = fx_sub(crate::fixed::fx_mul(cphi, dy2), crate::fixed::fx_mul(sphi, dx2));
    let mut ux0 = crate::fixed::fx_div(x1p, rx);
    let mut uy0 = crate::fixed::fx_div(y1p, ry);
    let lam = fx_add(
        clamp0(crate::fixed::fx_mul(ux0, ux0)),
        clamp0(crate::fixed::fx_mul(uy0, uy0)),
    );
    if lam > FX_ONE {
        // Radii too small for the endpoints: scale them up.
        let s = sqrt_fx(if lam > FX_MAX {
            FX_MAX
        } else {
            lam
        });
        rx = crate::fixed::fx_mul(rx, s);
        ry = crate::fixed::fx_mul(ry, s);
        if rx < 1 {
            rx = 1;
        }
        if ry < 1 {
            ry = 1;
        }
        ux0 = crate::fixed::fx_div(x1p, rx);
        uy0 = crate::fixed::fx_div(y1p, ry);
    }
    let uxsq = clamp0(crate::fixed::fx_mul(ux0, ux0));
    let uysq = clamp0(crate::fixed::fx_mul(uy0, uy0));
    let den = fx_add(uxsq, uysq);
    if den < 1 {
        out.push(to);
        proof {
            assert(out@.take(n0) =~= old(out)@);
        }
        return ;
    }
    let num = clamp0(fx_sub(fx_sub(FX_ONE, uxsq), uysq));
    let cc = sqrt_fx(
        {
            let q = crate::fixed::fx_div(num, den);
            if q > FX_MAX {
                FX_MAX
            } else {
                clamp0(q)
            }
        },
    );
    let scc = if large_arc != sweep {
        cc
    } else {
        fx_neg_checked(cc)
    };
    let cxp = crate::fixed::fx_mul(
        scc,
        crate::fixed::fx_div(crate::fixed::fx_mul(rx, y1p), ry),
    );
    let cyp = crate::fixed::fx_mul(
        fx_neg_checked(scc),
        crate::fixed::fx_div(crate::fixed::fx_mul(ry, x1p), rx),
    );
    let cx = fx_add(
        fx_sub(crate::fixed::fx_mul(cphi, cxp), crate::fixed::fx_mul(sphi, cyp)),
        mx,
    );
    let cy = fx_add(
        fx_add(crate::fixed::fx_mul(sphi, cxp), crate::fixed::fx_mul(cphi, cyp)),
        my,
    );
    let u1 = Vec2 {
        x: crate::fixed::fx_div(fx_sub(x1p, cxp), rx),
        y: crate::fixed::fx_div(fx_sub(y1p, cyp), ry),
    };
    let u2 = Vec2 {
        x: crate::fixed::fx_div(fx_sub(fx_neg_checked(x1p), cxp), rx),
        y: crate::fixed::fx_div(fx_sub(fx_neg_checked(y1p), cyp), ry),
    };
    let m0 = arc_mid(u1, u2, large_arc, sweep);
    let a = arc_mid(u1, m0, false, sweep);
    let b = arc_mid(m0, u2, false, sweep);
    let units: Vec<Vec2> = vec![u1, a, m0, b, u2];
    let ident = Transform2D::identity();
    let mut i: usize = 0;
    while i < 4
        invariant
            0 <= i <= 4,
            units@.len() == 5,
            forall|k: int| 0 <= k < 5 ==> vec2_ok(#[trigger] units@[k]),
            fx_ok(cx as int),
            fx_ok(cy as int),
            fx_ok(cphi as int),
            fx_ok(sphi as int),
            fx_ok(rx as int),
            fx_ok(ry as int),
            ident == spec_identity(),
            world == (BBox {
                min: Vec2 { x: crate::fixed::FX_MIN, y: crate::fixed::FX_MIN },
                max: Vec2 { x: FX_MAX, y: FX_MAX },
            }),
            vec2_ok(to),
            out@.len() >= n0,
            out@.take(n0) == old(out)@,
            n0 == old(out)@.len(),
            pts_ok_from(out@, n0),
        decreases 4 - i,
    {
        let ua = units[i];
        let ub = units[i + 1];
        let d = fx_add(
            crate::fixed::fx_mul(ua.x, ub.x),
            crate::fixed::fx_mul(ua.y, ub.y),
        );
        let dc = if d > FX_ONE {
            FX_ONE
        } else if d < -FX_ONE {
            -FX_ONE
        } else {
            d
        };
        let ch = sqrt_fx(clamp0(fx_avg(FX_ONE, dc)));
        let sh = sqrt_fx(clamp0(fx_avg(FX_ONE, fx_neg_checked(dc))));
        let kcoef = if sh < 1 {
            0
        } else {
            crate::fixed::fx_div(crate::fixed::fx_mul(fx_sub(FX_ONE, ch), 1_333_333), sh)
        };
        let dir: i64 = if sweep {
            1
        } else {
            -1
        };
        let p0 = arc_point(cx, cy, cphi, sphi, rx, ry, ua.x, ua.y);
        let p1 = arc_point(cx, cy, cphi, sphi, rx, ry, ub.x, ub.y);
        let ta = arc_tangent(cphi, sphi, rx, ry, ua.x, ua.y, dir);
        let tb = arc_tangent(cphi, sphi, rx, ry, ub.x, ub.y, dir);
        let c1 = Vec2 {
            x: fx_add(p0.x, crate::fixed::fx_mul(kcoef, ta.x)),
            y: fx_add(p0.y, crate::fixed::fx_mul(kcoef, ta.y)),
        };
        let c2 = Vec2 {
            x: fx_sub(p1.x, crate::fixed::fx_mul(kcoef, tb.x)),
            y: fx_sub(p1.y, crate::fixed::fx_mul(kcoef, tb.y)),
        };
        let ghost prevlen = out@.len() as int;
        flatten_cubic(
            &ident,
            p0,
            c1,
            c2,
            p1,
            depth,
            out,
            Ghost(world),
        );
        proof {
            assert(out@.take(n0) =~= out@.take(prevlen).take(n0));
            assert forall|k: int| n0 <= k < out@.len() implies vec2_ok(#[trigger] out@[k]) by {
                if k < prevlen {
                    assert(out@[k] == out@.take(prevlen)[k]);
                }
            }
        }
        i = i + 1;
    }
    out.push(to);
    proof {
        assert(out@.take(n0) =~= old(out)@);
    }
}

/// The tangent direction of an ellipse frame at a unit vector, oriented by
/// the sweep direction.
fn arc_tangent(cphi: i64, sphi: i64, rx: i64, ry: i64, ux: i64, uy: i64, dir: i64) -> (t: Vec2)
    requires
        fx_ok(cphi as int),
        fx_ok(sphi as int),
        fx_ok(rx as int),
        fx_ok(ry as int),
        fx_ok(ux as int),
        fx_ok(uy as int),
        dir == 1 || dir == -1,
    ensures
        vec2_ok(t),
{
    let tx = fx_neg_checked(crate::fixed::fx_mul(rx, uy));
    let ty = crate::fixed::fx_mul(ry, ux);
    let wx = fx_sub(crate::fixed::fx_mul(cphi, tx), crate::fixed::fx_mul(sphi, ty));
    let wy = fx_add(crate::fixed::fx_mul(sphi, tx), crate::fixed::fx_mul(cphi, ty));
    if dir == 1 {
        Vec2 { x: wx, y: wy }
    } else {
        Vec2 { x: fx_neg_checked(wx), y: fx_neg_checked(wy) }
    }
}

/// The midpoint of two points inside a box stays inside the box.
proof fn lemma_avg_within(env: BBox, a: Vec2, b: Vec2, m: Vec2)
    requires
        bbox_contains(env, a),
        bbox_contains(env, b),
        m.x == (a.x + b.x) / 2,
        m.y == (a.y + b.y) / 2,
    ensures
        bbox_contains(env, m),
{
    vstd::arithmetic::div_mod::lemma_div_is_ordered(
        2 * (env.min.x as int),
        a.x + b.x,
        2,
    );
    vstd::arithmetic::div_mod::lemma_div_is_ordered(a.x + b.x, 2 * (env.max.x as int), 2);
    vstd::arithmetic::div_mod::lemma_div_multiples_vanish(env.min.x as int, 2);
    vstd::arithmetic::div_mod::lemma_div_multiples_vanish(env.max.x as int, 2);
    vstd::arithmetic::div_mod::lemma_div_is_ordered(
        2 * (env.min.y as int),
        a.y + b.y,
        2,
    );
    vstd::arithmetic::div_mod::lemma_div_is_ordered(a.y + b.y, 2 * (env.max.y as int), 2);
    vstd::arithmetic::div_mod::lemma_div_multiples_vanish(env.min.y as int, 2);
    vstd::arithmetic::div_mod::lemma_div_multiples_vanish(env.max.y as int, 2);
}

/// Push one raw point through clamping and the shape transform. The raw
/// point is clamped into the declared bounds first, so at the identity
/// transform everything pushed stays inside them.
fn push_clamped(tf: &Transform2D, b: BBox, raw: Vec2, c: &mut Vec<Vec2>)
    requires
        transform_ok(*tf),
        vec2_ok(raw),
        bbox_ok(b),
        b.min.x <= b.max.x,
        b.min.y <= b.max.y,
        pts_ok_from(old(c)@, 0),
    ensures
        final(c)@.len() == old(c)@.len() + 1,
        pts_ok_from(final(c)@, 0),
        (*tf == spec_identity() && pts_within_from(old(c)@, 0, b)) ==> pts_within_from(
            final(c)@,
            0,
            b,
        ),
{
    let q = tf_point(tf, clamp_to_box(raw, b));
    c.push(q);
    proof {
        assert(forall|k: int| 0 <= k < old(c)@.len() ==> c@[k] == old(c)@[k]);
    }
}

/// The outlines of a path: one per subpath, with a flag saying whether the
/// subpath was closed. Drawing starts at the first `MoveTo`; curves and
/// arcs are flattened in the path's own coordinates, clamped into the
/// declared bounds `b`, then transformed. At the identity transform every
/// outline point therefore stays inside `b`.
#[verifier::rlimit(100)]
fn path_contours(tf: &Transform2D, commands: &Vec<PathCommand>, b: BBox, depth: u32) -> (out: Vec<
    (Vec<Vec2>, bool),
>)
    requires
        transform_ok(*tf),
        forall|k: int|
            0 <= k < commands@.len() ==> crate::shape::path_cmd_ok(#[trigger] commands@[k]),
        bbox_ok(b),
        b.min.x <= b.max.x,
        b.min.y <= b.max.y,
    ensures
        forall|i: int|
            0 <= i < out@.len() ==> pts_ok_from((#[trigger] out@[i]).0@, 0),
        *tf == spec_identity() ==> forall|i: int|
            0 <= i < out@.len() ==> pts_within_from((#[trigger] out@[i]).0@, 0, b),
        commands@.len() == 0 ==> out@.len() == 0,
{
    let mut out: Vec<(Vec<Vec2>, bool)> = Vec::new();
    let mut contour: Vec<Vec2> = Vec::new();
    let mut cur = Vec2 { x: 0, y: 0 };
    let mut start = Vec2 { x: 0, y: 0 };
    let mut started = false;
    let mut i: usize = 0;
    while i < commands.len()
        invariant
            0 <= i <= commands@.len(),
            transform_ok(*tf),
            forall|k: int|
                0 <= k < commands@.len() ==> crate::shape::path_cmd_ok(#[trigger] commands@[k]),
            bbox_ok(b),
            b.min.x <= b.max.x,
            b.min.y <= b.max.y,
            vec2_ok(cur),
            vec2_ok(start),
            pts_ok_from(contour@, 0),
            *tf == spec_identity() ==> pts_within_from(contour@, 0, b),
            forall|j: int| 0 <= j < out@.len() ==> pts_ok_from((#[trigger] out@[j]).0@, 0),
            *tf == spec_identity() ==> forall|j: int|
                0 <= j < out@.len() ==> pts_within_from((#[trigger] out@[j]).0@, 0, b),
            commands@.len() == 0 ==> out@.len() == 0 && !started,
        decreases commands@.len() - i,
    {
        let ghost outb = out@;
        match &commands[i] {
            PathCommand::MoveTo(p) => {
                if started && contour.len() > 0 {
                    out.push((contour, false));
                    contour = Vec::new();
                }
                push_clamped(tf, b, *p, &mut contour);
                cur = *p;
                start = *p;
                started = true;
            },
            PathCommand::LineTo(p) => {
                if started {
                    push_clamped(tf, b, *p, &mut contour);
                    cur = *p;
                }
            },
            PathCommand::QuadraticTo { control, to } => {
                if started {
                    let mut tmp: Vec<Vec2> = Vec::new();
                    let ident = Transform2D::identity();
                    flatten_quad(
                        &ident,
                        cur,
                        *control,
                        *to,
                        depth,
                        &mut tmp,
                        Ghost(
                            BBox {
                                min: Vec2 { x: crate::fixed::FX_MIN, y: crate::fixed::FX_MIN },
                                max: Vec2 { x: FX_MAX, y: FX_MAX },
                            },
                        ),
                    );
                    push_all_clamped(tf, b, &tmp, &mut contour);
                    cur = *to;
                }
            },
            PathCommand::CubicTo { ctrl1, ctrl2, to } => {
                if started {
                    let mut tmp: Vec<Vec2> = Vec::new();
                    let ident = Transform2D::identity();
                    flatten_cubic(
                        &ident,
                        cur,
                        *ctrl1,
                        *ctrl2,
                        *to,
                        depth,
                        &mut tmp,
                        Ghost(
                            BBox {
                                min: Vec2 { x: crate::fixed::FX_MIN, y: crate::fixed::FX_MIN },
                                max: Vec2 { x: FX_MAX, y: FX_MAX },
                            },
                        ),
                    );
                    push_all_clamped(tf, b, &tmp, &mut contour);
                    cur = *to;
                }
            },
            PathCommand::ArcTo { rx, ry, x_rotation, large_arc, sweep, to } => {
                if started {
                    let mut tmp: Vec<Vec2> = Vec::new();
                    arc_flatten(
                        cur,
                        *rx,
                        *ry,
                        *x_rotation,
                        *large_arc,
                        *sweep,
                        *to,
                        depth,
                        &mut tmp,
                    );
                    push_all_clamped(tf, b, &tmp, &mut contour);
                    cur = *to;
                }
            },
            PathCommand::Close => {
                if started {
                    if contour.len() > 0 {
                        out.push((contour, true));
                        contour = Vec::new();
                    }
                    cur = start;
                    started = false;
                }
            },
        }
        i = i + 1;
    }
    if started && contour.len() > 0 {
        out.push((contour, false));
    }
    out
}

/// Push a whole list of raw points through clamping and the transform.
fn push_all_clamped(tf: &Transform2D, b: BBox, raw: &Vec<Vec2>, c: &mut Vec<Vec2>)
    requires
        transform_ok(*tf),
        forall|k: int| 0 <= k < raw@.len() ==> vec2_ok(#[trigger] raw@[k]),
        bbox_ok(b),
        b.min.x <= b.max.x,
        b.min.y <= b.max.y,
        pts_ok_from(old(c)@, 0),
    ensures
        pts_ok_from(final(c)@, 0),
        (*tf == spec_identity() && pts_within_from(old(c)@, 0, b)) ==> pts_within_from(
            final(c)@,
            0,
            b,
        ),
{
    let mut j: usize = 0;
    while j < raw.len()
        invariant
            0 <= j <= raw@.len(),
            transform_ok(*tf),
            forall|k: int| 0 <= k < raw@.len() ==> vec2_ok(#[trigger] raw@[k]),
            bbox_ok(b),
            b.min.x <= b.max.x,
            b.min.y <= b.max.y,
            pts_ok_from(c@, 0),
            (*tf == spec_identity() && pts_within_from(old(c)@, 0, b)) ==> pts_within_from(
                c@,
                0,
                b,
            ),
        decreases raw@.len() - j,
    {
        push_clamped(tf, b, raw[j], c);
        j = j + 1;
    }
}

/// Half the stroke width of a style, or zero without a stroke.
pub open spec fn spec_stroke_margin(style: ShapeStyle) -> int {
    match style.stroke {
        Some(st) => st.width / 2,
        None => 0,
    }
}

/// The exact fill mesh of a polygon: one vertex per point, transformed,
/// in the fill color, and one triangle list of `3 * (n - 2)` indices; a
/// polygon with fewer than three points (or more than the index type can
/// address) fills nothing.
pub open spec fn spec_polygon_fill_mesh(pts: Seq<Vec2>, tf: Transform2D, color: Color, m: Mesh) -> bool {
    if 3 <= pts.len() <= 0xffff_ffff {
        &&& m.vertices@.len() == pts.len()
        &&& forall|k: int|
            0 <= k < pts.len() ==> #[trigger] m.vertices@[k] == (Vertex {
                position: crate::transform::spec_transform_point(tf, pts[k]),
                color,
            })
        &&& m.indices@.len() == 3 * (pts.len() - 2)
    } else {
        m.vertices@.len() == 0 && m.indices@.len() == 0
    }
}

/// What tessellating a shape promises of the produced mesh, under a given
/// transform. Beyond well-formedness and the bounds containment at the
/// identity transform, the mesh is tied to the geometry and style: an
/// invisible style draws nothing, every vertex carries a style color, a
/// filled polygon is exactly its transformed points triangulated, filled
/// rectangles and ellipses are one non-empty triangulated outline, an
/// empty path draws nothing, and a stroked polygon with a real segment
/// draws whole quads, at least one.
pub open spec fn spec_mesh_of(shape: Shape, tf: Transform2D, m: Mesh) -> bool {
    let local = spec_local_bounds(shape.geometry);
    let fill = shape.style.fill;
    let stroke = shape.style.stroke;
    &&& mesh_wf(m)
    &&& mesh_vertices_ok(m)
    &&& (fill is None && stroke is None) ==> m.vertices@.len() == 0 && m.indices@.len() == 0
    &&& forall|k: int|
        0 <= k < m.vertices@.len() ==> ((fill is Some && (#[trigger] m.vertices@[k]).color
            == fill->0) || (stroke is Some && m.vertices@[k].color == stroke->0.color))
    &&& tf == spec_identity() ==> mesh_within(
        m,
        spec_bbox_expand(local, spec_stroke_margin(shape.style)),
    )
    &&& (tf == spec_identity() && stroke is None) ==> mesh_within(m, local)
    &&& (shape.geometry is Polygon && fill is Some && stroke is None) ==> spec_polygon_fill_mesh(
        shape.geometry->Polygon_points@,
        tf,
        fill->0,
        m,
    )
    &&& (shape.geometry is Polygon && fill is Some && 3
        <= shape.geometry->Polygon_points@.len() <= 0xffff_ffff) ==> m.vertices@.len()
        >= shape.geometry->Polygon_points@.len()
    &&& (shape.geometry is Rectangle && fill is Some) ==> m.vertices@.len() >= 4
    &&& (shape.geometry is Rectangle && fill is Some && stroke is None) ==> m.indices@.len() == 3
        * (m.vertices@.len() - 2)
    &&& (shape.geometry is Ellipse && fill is Some) ==> m.vertices@.len() >= 5
    &&& (shape.geometry is Ellipse && fill is Some && stroke is None) ==> m.indices@.len() == 3 * (
    m.vertices@.len() - 2)
    &&& (shape.geometry is Path && shape.geometry->Path_commands@.len() == 0)
        ==> m.vertices@.len() == 0 && m.indices@.len() == 0
    &&& (shape.geometry is Polygon && fill is None && stroke is Some) ==> {
        &&& m.vertices@.len() % 4 == 0
        &&& m.indices@.len() * 2 == m.vertices@.len() * 3
        &&& (tf == spec_identity() && 2 <= shape.geometry->Polygon_points@.len()
            <= 0x3fff_ffff && spec_live_segment(shape.geometry->Polygon_points@, true))
            ==> m.vertices@.len() >= 4
        &&& shape.geometry->Polygon_points@.len() < 2 ==> m.vertices@.len() == 0
            && m.indices@.len() == 0
    }
}

/// Build the fill and stroke mesh of one outline. The contract is the
/// outline-level half of `spec_mesh_of`: nothing for an invisible style,
/// style colors on every vertex, the exact point-for-point fill with its
/// triangle count, whole stroke quads, and containment in the declared
/// box (grown by the half stroke width) when `cond` says the outline lies
/// inside it.
fn contour_mesh(
    contour: &Vec<Vec2>,
    closed: bool,
    style: &ShapeStyle,
    Ghost(b): Ghost<BBox>,
    Ghost(cond): Ghost<bool>,
) -> (m: Mesh)
    requires
        forall|k: int| 0 <= k < contour@.len() ==> vec2_ok(#[trigger] contour@[k]),
        crate::shape::style_ok(*style),
        bbox_ok(b),
        cond ==> forall|k: int|
            0 <= k < contour@.len() ==> bbox_contains(b, #[trigger] contour@[k]),
    ensures
        mesh_wf(m),
        mesh_vertices_ok(m),
        cond ==> mesh_within(m, spec_bbox_expand(b, spec_stroke_margin(*style))),
        (cond && style.stroke is None) ==> mesh_within(m, b),
        (style.fill is None && style.stroke is None) ==> m.vertices@.len() == 0
            && m.indices@.len() == 0,
        forall|k: int|
            0 <= k < m.vertices@.len() ==> ((style.fill is Some && (
            #[trigger] m.vertices@[k]).color == style.fill->0) || (style.stroke is Some
                && m.vertices@[k].color == style.stroke->0.color)),
        style.fill is Some ==> ({
            let nf: int = if 3 <= contour@.len() <= 0xffff_ffff {
                contour@.len() as int
            } else {
                0
            };
            &&& m.vertices@.len() >= nf
            &&& forall|k: int|
                0 <= k < nf ==> #[trigger] m.vertices@[k] == (Vertex {
                    position: contour@[k],
                    color: style.fill->0,
                })
            &&& style.stroke is None ==> m.vertices@.len() == nf && m.indices@.len() == (if nf
                > 0 {
                3 * (nf - 2)
            } else {
                0int
            })
        }),
        (style.fill is None && style.stroke is Some) ==> ({
            &&& m.vertices@.len() % 4 == 0
            &&& m.indices@.len() * 2 == m.vertices@.len() * 3
            &&& (2 <= contour@.len() <= 0x3fff_ffff && spec_live_segment(contour@, closed))
                ==> m.vertices@.len() >= 4
            &&& contour@.len() < 2 ==> m.vertices@.len() == 0 && m.indices@.len() == 0
        }),
{
    let ghost margin = spec_stroke_margin(*style);
    let ghost envx = spec_bbox_expand(b, margin);
    proof {
        lemma_expand_contains(b, margin);
    }
    let mut m = Mesh::new();
    match style.fill {
        Some(color) => {
            let fm = fill_contour(contour, color);
            proof {
                if cond {
                    assert forall|k: int| 0 <= k < fm.vertices@.len() implies bbox_contains(
                        b,
                        (#[trigger] fm.vertices@[k]).position,
                    ) by {
                        assert(fm.vertices@[k].position == contour@[k]);
                    }
                    assert(mesh_within(fm, b));
                    assert(mesh_within(fm, envx));
                }
            }
            mesh_extend_checked(&mut m, &fm, Ghost(envx), Ghost(cond));
            proof {
                assert(m.vertices@ =~= fm.vertices@);
                assert(m.indices@ =~= spec_rebased(fm.indices@, 0));
                assert(m.indices@.len() == fm.indices@.len());
                if cond && style.stroke is None {
                    assert(margin == 0);
                    assert(mesh_within(m, b));
                }
            }
        },
        None => {},
    }
    let ghost mfill = m;
    match style.stroke {
        Some(st) => {
            let half = fx_half(st.width);
            let sm = stroke_contour(contour, closed, st.color, half, Ghost(b), Ghost(cond));
            mesh_extend_checked(&mut m, &sm, Ghost(envx), Ghost(cond));
            proof {
                if mfill.vertices@.len() + sm.vertices@.len() <= 0xffff_ffff {
                    assert(forall|k: int|
                        0 <= k < mfill.vertices@.len() ==> #[trigger] m.vertices@[k]
                            == mfill.vertices@[k]);
                    assert(forall|k: int|
                        mfill.vertices@.len() <= k < m.vertices@.len()
                            ==> #[trigger] m.vertices@[k] == sm.vertices@[k
                            - mfill.vertices@.len()]);
                    if style.fill is None {
                        assert(mfill.vertices@.len() == 0);
                        assert(m.vertices@ =~= sm.vertices@);
                        assert(m.indices@ =~= spec_rebased(sm.indices@, 0));
                        assert(m.indices@.len() == sm.indices@.len());
                    }
                } else {
                    assert(m == mfill);
                }
            }
        },
        None => {},
    }
    m
}

/// Fold a list of meshes into one vertex and index sequence the way the
/// batched tessellation does: each mesh is appended with its indices
/// rebased past the vertices so far, except that a mesh is skipped when
/// appending it would push the vertex count past the index type's range.
pub open spec fn spec_accum_meshes(ms: Seq<Mesh>, i: int, vs: Seq<Vertex>, is: Seq<u32>) -> (
    Seq<Vertex>,
    Seq<u32>,
)
    decreases ms.len() - i,
{
    if i < 0 || i >= ms.len() {
        (vs, is)
    } else {
        if vs.len() + ms[i].vertices@.len() <= 0xffff_ffff {
            spec_accum_meshes(
                ms,
                i + 1,
                vs + ms[i].vertices@,
                is + spec_rebased(ms[i].indices@, vs.len() as int),
            )
        } else {
            spec_accum_meshes(ms, i + 1, vs, is)
        }
    }
}

/// Folding over one more mesh applies one more append step.
proof fn lemma_accum_push(ms: Seq<Mesh>, x: Mesh, i: int, vs: Seq<Vertex>, is: Seq<u32>)
    requires
        0 <= i <= ms.len(),
    ensures
        spec_accum_meshes(ms.push(x), i, vs, is) == ({
            let t = spec_accum_meshes(ms, i, vs, is);
            if t.0.len() + x.vertices@.len() <= 0xffff_ffff {
                (t.0 + x.vertices@, t.1 + spec_rebased(x.indices@, t.0.len() as int))
            } else {
                t
            }
        }),
    decreases ms.len() - i,
{
    assert(ms.push(x).len() == ms.len() + 1);
    if i < ms.len() {
        assert(ms.push(x)[i] == ms[i]);
        if vs.len() + ms[i].vertices@.len() <= 0xffff_ffff {
            lemma_accum_push(
                ms,
                x,
                i + 1,
                vs + ms[i].vertices@,
                is + spec_rebased(ms[i].indices@, vs.len() as int),
            );
        } else {
            lemma_accum_push(ms, x, i + 1, vs, is);
        }
    } else {
        assert(ms.push(x)[i] == x);
        if vs.len() + x.vertices@.len() <= 0xffff_ffff {
            assert(spec_accum_meshes(
                ms.push(x),
                i + 1,
                vs + x.vertices@,
                is + spec_rebased(x.indices@, vs.len() as int),
            ) == (vs + x.vertices@, is + spec_rebased(x.indices@, vs.len() as int)));
        } else {
            assert(spec_accum_meshes(ms.push(x), i + 1, vs, is) == (vs, is));
        }
    }
}

/// The tessellator: converts shapes to meshes and caches the result per
/// shape, keyed by the shape's identifier. Cached meshes are built at the
/// identity transform, so a drag only changes the per-shape transform, not
/// the mesh.
pub struct Tessellator {
    /// Midpoint-subdivision depth for curve flattening: each curve becomes
    /// `2^depth` segments.
    curve_depth: u32,
    /// Cached meshes, one per shape identifier.
    cache: HashMap<u64, Mesh>,
    /// How many times geometry has actually been tessellated.
    tess_count: u64,
}

impl Tessellator {
    /// The cached meshes.
    pub closed spec fn cache_view(self) -> Map<u64, Mesh> {
        self.cache@
    }

    /// How many times geometry has actually been tessellated.
    pub closed spec fn count(self) -> u64 {
        self.tess_count
    }

    /// A tessellator with an empty cache and the default flattening depth.
    pub fn new() -> (t: Tessellator)
        ensures
            t.cache_view() == Map::<u64, Mesh>::empty(),
            t.count() == 0,
    {
        Tessellator { curve_depth: 4, cache: HashMap::new(), tess_count: 0 }
    }

    /// How many times geometry has actually been tessellated; a cache hit
    /// does not move this counter.
    pub fn tessellation_count(&self) -> (r: u64)
        ensures
            r == self.count(),
    {
        self.tess_count
    }

    /// Tessellate a shape's geometry and style under the given transform.
    /// The result is pinned by `spec_mesh_of`: well-formed, inside the
    /// (expanded) local bounds at the identity transform, empty for an
    /// invisible style, colored from the style, and — for the closed
    /// geometries — tied to the outline point for point.
    #[verifier::rlimit(100)]
    fn tessellate_at(&mut self, shape: &Shape, tf: &Transform2D) -> (m: Mesh)
        requires
            shape_ok(*shape),
            transform_ok(*tf),
            old(self).count() < u64::MAX,
        ensures
            spec_mesh_of(*shape, *tf, m),
            final(self).cache_view() == old(self).cache_view(),
            final(self).count() == old(self).count() + 1,
            final(self).curve_depth == old(self).curve_depth,
    {
        self.tess_count = self.tess_count + 1;
        // Guard the configured flattening depth so outline sizes stay far
        // under the index type's range.
        let depth = if self.curve_depth <= 8 {
            self.curve_depth
        } else {
            8
        };
        let b = shape.geometry.local_bounds();
        proof {
            lemma_local_bounds_ordered(shape.geometry);
            lemma_pow2_pos(depth as int);
            lemma_pow2_mono(depth as int, 8);
            assert(spec_pow2(8) == 256) by {
                reveal_with_fuel(spec_pow2, 10);
            }
            if shape.style.stroke is None {
                assert(b == spec_bbox_expand(b, spec_stroke_margin(shape.style)));
            }
        }
        let ghost cond = *tf == spec_identity();
        match &shape.geometry {
            ShapeGeometry::Polygon { points } => {
                let c = polygon_contour(tf, points);
                proof {
                    if cond {
                        if points@.len() > 0 {
                            lemma_bbox_of_points_contains(points@);
                        }
                        assert(forall|k: int|
                            0 <= k < c@.len() ==> bbox_contains(b, #[trigger] c@[k]));
                    }
                }
                let m = contour_mesh(&c, true, &shape.style, Ghost(b), Ghost(cond));
                proof {
                    if shape.style.fill is Some {
                        let pts = points@;
                        if 3 <= pts.len() <= 0xffff_ffff {
                            assert(forall|k: int|
                                0 <= k < pts.len() ==> #[trigger] c@[k]
                                    == crate::transform::spec_transform_point(*tf, pts[k]));
                        }
                    }
                }
                m
            },
            ShapeGeometry::Rectangle { width, height, corner_radius } => {
                let c = rect_contour(tf, *width, *height, *corner_radius, depth);
                let m = contour_mesh(&c, true, &shape.style, Ghost(b), Ghost(cond));
                proof {
                    assert(c@.len() <= 5 + 4 * 256);
                }
                m
            },
            ShapeGeometry::Ellipse { rx, ry } => {
                let c = ellipse_contour(tf, *rx, *ry, depth);
                let m = contour_mesh(&c, true, &shape.style, Ghost(b), Ghost(cond));
                proof {
                    assert(c@.len() <= 1 + 4 * 256);
                }
                m
            },
            ShapeGeometry::Path { commands } => {
                let contours = path_contours(tf, commands, b, depth);
                let ghost margin = spec_stroke_margin(shape.style);
                let ghost envx = spec_bbox_expand(b, margin);
                proof {
                    lemma_expand_contains(b, margin);
                }
                let mut pm = Mesh::new();
                let mut ci: usize = 0;
                while ci < contours.len()
                    invariant
                        0 <= ci <= contours@.len(),
                        crate::shape::style_ok(shape.style),
                        bbox_ok(b),
                        margin == spec_stroke_margin(shape.style),
                        0 <= margin,
                        envx == spec_bbox_expand(b, margin),
                        bbox_ok(envx),
                        shape.style.stroke is None ==> b == envx,
                        forall|j: int|
                            0 <= j < contours@.len() ==> pts_ok_from(
                                (#[trigger] contours@[j]).0@,
                                0,
                            ),
                        cond ==> forall|j: int|
                            0 <= j < contours@.len() ==> pts_within_from(
                                (#[trigger] contours@[j]).0@,
                                0,
                                b,
                            ),
                        mesh_wf(pm),
                        mesh_vertices_ok(pm),
                        cond ==> mesh_within(pm, envx),
                        contours@.len() == 0 ==> pm.vertices@.len() == 0 && pm.indices@.len()
                            == 0,
                        (shape.style.fill is None && shape.style.stroke is None)
                            ==> pm.vertices@.len() == 0 && pm.indices@.len() == 0,
                        forall|k: int|
                            0 <= k < pm.vertices@.len() ==> ((shape.style.fill is Some && (
                            #[trigger] pm.vertices@[k]).color == shape.style.fill->0) || (
                            shape.style.stroke is Some && pm.vertices@[k].color
                                == shape.style.stroke->0.color)),
                    decreases contours@.len() - ci,
                {
                    let ghost pmb = pm;
                    let cm = contour_mesh(
                        &contours[ci].0,
                        contours[ci].1,
                        &shape.style,
                        Ghost(b),
                        Ghost(cond),
                    );
                    mesh_extend_checked(&mut pm, &cm, Ghost(envx), Ghost(cond));
                    proof {
                        if pmb.vertices@.len() + cm.vertices@.len() <= 0xffff_ffff {
                            assert forall|k: int|
                                0 <= k < pm.vertices@.len() implies ((shape.style.fill is Some
                                && (#[trigger] pm.vertices@[k]).color == shape.style.fill->0)
                                || (shape.style.stroke is Some && pm.vertices@[k].color
                                    == shape.style.stroke->0.color)) by {
                                if k < pmb.vertices@.len() {
                                    assert(pm.vertices@[k] == pmb.vertices@[k]);
                                } else {
                                    assert(pm.vertices@[k] == cm.vertices@[k
                                        - pmb.vertices@.len()]);
                                }
                            }
                        }
                    }
                    ci = ci + 1;
                }
                pm
            },
        }
    }

    /// Tessellate a shape under its own transform: the one-shot path, used
    /// when the whole scene is rebuilt into a single mesh.
    pub fn tessellate_shape(&mut self, shape: &Shape) -> (m: Mesh)
        requires
            shape_ok(*shape),
            old(self).count() < u64::MAX,
        ensures
            spec_mesh_of(*shape, shape.transform, m),
            final(self).cache_view() == old(self).cache_view(),
            final(self).count() == old(self).count() + 1,
    {
        let tf = shape.transform;
        self.tessellate_at(shape, &tf)
    }

    /// Tessellate several shapes into one combined mesh: each shape's
    /// mesh is appended in order with its indices rebased, skipping a
    /// sub-mesh only when appending it would push the vertex count past
    /// the index type's range. No shapes, no mesh.
    pub fn tessellate_shapes(&mut self, shapes: &Vec<Shape>) -> (m: Mesh)
        requires
            forall|i: int| 0 <= i < shapes@.len() ==> shape_ok(#[trigger] shapes@[i]),
            old(self).count() + shapes@.len() <= u64::MAX,
        ensures
            mesh_wf(m),
            mesh_vertices_ok(m),
            shapes@.len() == 0 ==> m.vertices@.len() == 0 && m.indices@.len() == 0,
            exists|ms: Seq<Mesh>|
                {
                    &&& (#[trigger] ms.len()) == shapes@.len()
                    &&& forall|i: int|
                        0 <= i < shapes@.len() ==> spec_mesh_of(
                            #[trigger] shapes@[i],
                            shapes@[i].transform,
                            ms[i],
                        )
                    &&& m.vertices@ == spec_accum_meshes(
                        ms,
                        0,
                        Seq::empty(),
                        Seq::empty(),
                    ).0
                    &&& m.indices@ == spec_accum_meshes(ms, 0, Seq::empty(), Seq::empty()).1
                },
            final(self).cache_view() == old(self).cache_view(),
    {
        let mut m = Mesh::new();
        let ghost mut msq: Seq<Mesh> = Seq::empty();
        let mut i: usize = 0;
        proof {
            assert(m.vertices@ =~= spec_accum_meshes(msq, 0, Seq::empty(), Seq::empty()).0);
            assert(m.indices@ =~= spec_accum_meshes(msq, 0, Seq::empty(), Seq::empty()).1);
        }
        while i < shapes.len()
            invariant
                0 <= i <= shapes@.len(),
                forall|k: int| 0 <= k < shapes@.len() ==> shape_ok(#[trigger] shapes@[k]),
                self.count() == old(self).count() + i,
                old(self).count() + shapes@.len() <= u64::MAX,
                self.cache_view() == old(self).cache_view(),
                mesh_wf(m),
                mesh_vertices_ok(m),
                msq.len() == i,
                forall|k: int|
                    0 <= k < i ==> spec_mesh_of(
                        #[trigger] shapes@[k],
                        shapes@[k].transform,
                        msq[k],
                    ),
                m.vertices@ == spec_accum_meshes(msq, 0, Seq::empty(), Seq::empty()).0,
                m.indices@ == spec_accum_meshes(msq, 0, Seq::empty(), Seq::empty()).1,
            decreases shapes@.len() - i,
        {
            let sm = self.tessellate_shape(&shapes[i]);
            proof {
                lemma_accum_push(msq, sm, 0, Seq::empty(), Seq::empty());
            }
            mesh_extend_checked(
                &mut m,
                &sm,
                Ghost(
                    BBox {
                        min: Vec2 { x: crate::fixed::FX_MIN, y: crate::fixed::FX_MIN },
                        max: Vec2 { x: FX_MAX, y: FX_MAX },
                    },
                ),
                Ghost(false),
            );
            proof {
                msq = msq.push(sm);
            }
            i = i + 1;
        }
        proof {
            assert(msq.len() == shapes@.len());
        }
        m
    }

    /// Return the cached mesh for a shape, tessellating at the identity
    /// transform first when the shape is dirty or absent from the cache.
    /// On a cache hit nothing changes at all: the cache keeps the very
    /// same mesh and the tessellation counter does not move.
    pub fn get_or_tessellate_shape(&mut self, shape: &mut Shape)
        requires
            shape_ok(*old(shape)),
            old(self).count() < u64::MAX,
        ensures
            ({
                if !old(shape).dirty && old(self).cache_view().contains_key(old(shape).id) {
                    *final(self) == *old(self) && *final(shape) == *old(shape)
                } else {
                    &&& final(self).count() == old(self).count() + 1
                    &&& final(self).cache_view().contains_key(old(shape).id)
                    &&& final(self).cache_view() == old(self).cache_view().insert(
                        old(shape).id,
                        final(self).cache_view()[old(shape).id],
                    )
                    &&& spec_mesh_of(
                        *old(shape),
                        spec_identity(),
                        final(self).cache_view()[old(shape).id],
                    )
                    &&& *final(shape) == (Shape { dirty: false, ..*old(shape) })
                }
            }),
    {
        if !shape.dirty && self.cache.contains_key(&shape.id) {
            return ;
        }
        let ident = Transform2D::identity();
        let m = self.tessellate_at(shape, &ident);
        self.cache.insert(shape.id, m);
        shape.clear_dirty();
    }

    /// The cached mesh for a shape identifier, if one is cached.
    pub fn cached_mesh(&self, id: u64) -> (r: Option<&Mesh>)
        ensures
            r is Some <==> self.cache_view().contains_key(id),
            r is Some ==> *r->0 == self.cache_view()[id],
    {
        self.cache.get(&id)
    }

    /// Drop one shape's cached mesh.
    pub fn invalidate_shape(&mut self, id: u64)
        ensures
            final(self).cache_view() == old(self).cache_view().remove(id),
            final(self).count() == old(self).count(),
    {
        self.cache.remove(&id);
    }

    /// Drop every cached mesh.
    pub fn clear_cache(&mut self)
        ensures
            final(self).cache_view() == Map::<u64, Mesh>::empty(),
            final(self).count() == old(self).count(),
    {
        self.cache.clear();
    }

    /// Keep only the cached meshes of shapes that still exist: the
    /// per-frame sweep that stops the cache growing when shapes are
    /// deleted.
    pub fn prune_cache(&mut self, live: &[u64])
        ensures
            forall|id: u64|
                #[trigger] final(self).cache_view().contains_key(id) <==> old(
                    self,
                ).cache_view().contains_key(id) && live@.contains(id),
            forall|id: u64|
                final(self).cache_view().contains_key(id) ==> final(self).cache_view()[id] == old(
                    self,
                ).cache_view()[id],
            final(self).count() == old(self).count(),
    {
        let mut kept: HashMap<u64, Mesh> = HashMap::new();
        let mut i: usize = 0;
        while i < live.len()
            invariant
                0 <= i <= live@.len(),
                self.tess_count == old(self).count(),
                self.curve_depth == old(self).curve_depth,
                forall|id: u64|
                    #[trigger] self.cache@.contains_key(id) <==> old(
                        self,
                    ).cache_view().contains_key(id) && !kept@.contains_key(id),
                forall|id: u64|
                    #[trigger] self.cache@.contains_key(id) ==> self.cache@[id] == old(
                        self,
                    ).cache_view()[id],
                forall|id: u64|
                    #[trigger] kept@.contains_key(id) <==> old(self).cache_view().contains_key(
                        id,
                    ) && live@.take(i as int).contains(id),
                forall|id: u64|
                    #[trigger] kept@.contains_key(id) ==> kept@[id] == old(
                        self,
                    ).cache_view()[id],
            decreases live@.len() - i,
        {
            let id = live[i];
            let ghost keptb = kept@;
            if !kept.contains_key(&id) {
                match self.cache.remove(&id) {
                    Some(mesh) => {
                        kept.insert(id, mesh);
                    },
                    None => {},
                }
            }
            proof {
                assert(live@.take(i + 1)[i as int] == live@[i as int]);
                assert forall|idq: u64| #[trigger]
                    kept@.contains_key(idq) <==> old(self).cache_view().contains_key(idq)
                        && live@.take(i + 1).contains(idq) by {
                    if kept@.contains_key(idq) {
                        if keptb.contains_key(idq) {
                            let kq = choose|kq: int|
                                0 <= kq < i && (#[trigger] live@.take(i as int)[kq]) == idq;
                            assert(live@.take(i + 1)[kq] == idq);
                        } else {
                            assert(idq == id);
                        }
                    }
                    if old(self).cache_view().contains_key(idq) && live@.take(i + 1).contains(
                        idq,
                    ) {
                        if live@.take(i as int).contains(idq) {
                            assert(keptb.contains_key(idq));
                        } else {
                            let kq = choose|kq: int|
                                0 <= kq < i + 1 && (#[trigger] live@.take(i + 1)[kq]) == idq;
                            assert(kq == i);
                            assert(idq == id);
                        }
                    }
                }
            }
            i = i + 1;
        }
        proof {
            assert(live@.take(live@.len() as int) =~= live@);
        }
        self.cache = kept;
    }
}

/// The corners of a local-bounds box are ordered.
proof fn lemma_local_bounds_ordered(g: ShapeGeometry)
    requires
        geometry_ok(g),
    ensures
        spec_local_bounds(g).min.x <= spec_local_bounds(g).max.x,
        spec_local_bounds(g).min.y <= spec_local_bounds(g).max.y,
        bbox_ok(spec_local_bounds(g)),
{
    match g {
        ShapeGeometry::Polygon { points } => {
            if points@.len() > 0 {
                lemma_bbox_of_points_contains(points@);
                crate::geom::lemma_bbox_of_points_ok(points@);
            }
        },
        ShapeGeometry::Rectangle { .. } => {},
        ShapeGeometry::Ellipse { .. } => {},
        ShapeGeometry::Path { commands } => {
            let pts = spec_path_pts(commands@, 0, Vec2 { x: 0, y: 0 }, Vec2 { x: 0, y: 0 });
            if pts.len() > 0 {
                lemma_bbox_of_points_contains(pts);
                lemma_path_pts_ok(commands@, 0, Vec2 { x: 0, y: 0 }, Vec2 { x: 0, y: 0 });
                crate::geom::lemma_bbox_of_points_ok(pts);
            }
        },
    }
}

/// Every bound point of a well-formed path is representable.
proof fn lemma_path_pts_ok(cmds: Seq<PathCommand>, i: int, cur: Vec2, start: Vec2)
    requires
        forall|k: int| 0 <= k < cmds.len() ==> crate::shape::path_cmd_ok(#[trigger] cmds[k]),
        vec2_ok(cur),
        vec2_ok(start),
    ensures
        forall|k: int|
            0 <= k < spec_path_pts(cmds, i, cur, start).len() ==> vec2_ok(
                #[trigger] spec_path_pts(cmds, i, cur, start)[k],
            ),
    decreases cmds.len() - i,
{
    if 0 <= i < cmds.len() {
        let pts = spec_path_pts(cmds, i, cur, start);
        match cmds[i] {
            PathCommand::MoveTo(p) => {
                lemma_path_pts_ok(cmds, i + 1, p, p);
                assert forall|k: int| 0 <= k < pts.len() implies vec2_ok(
                    #[trigger] pts[k],
                ) by {
                    if k >= 1 {
                        assert(pts[k] == spec_path_pts(cmds, i + 1, p, p)[k - 1]);
                    }
                }
            },
            PathCommand::LineTo(p) => {
                lemma_path_pts_ok(cmds, i + 1, p, start);
                assert forall|k: int| 0 <= k < pts.len() implies vec2_ok(
                    #[trigger] pts[k],
                ) by {
                    if k >= 1 {
                        assert(pts[k] == spec_path_pts(cmds, i + 1, p, start)[k - 1]);
                    }
                }
            },
            PathCommand::QuadraticTo { control, to } => {
                lemma_path_pts_ok(cmds, i + 1, to, start);
                assert forall|k: int| 0 <= k < pts.len() implies vec2_ok(
                    #[trigger] pts[k],
                ) by {
                    if k >= 2 {
                        assert(pts[k] == spec_path_pts(cmds, i + 1, to, start)[k - 2]);
                    }
                }
            },
            PathCommand::CubicTo { ctrl1, ctrl2, to } => {
                lemma_path_pts_ok(cmds, i + 1, to, start);
                assert forall|k: int| 0 <= k < pts.len() implies vec2_ok(
                    #[trigger] pts[k],
                ) by {
                    if k >= 3 {
                        assert(pts[k] == spec_path_pts(cmds, i + 1, to, start)[k - 3]);
                    }
                }
            },
            PathCommand::ArcTo { rx, ry, to, .. } => {
                lemma_path_pts_ok(cmds, i + 1, to, start);
                let ab = spec_arc_box(cur, rx as int, ry as int, to);
                assert(vec2_ok(ab.min) && vec2_ok(ab.max));
                assert forall|k: int| 0 <= k < pts.len() implies vec2_ok(
                    #[trigger] pts[k],
                ) by {
                    if k >= 3 {
                        assert(pts[k] == spec_path_pts(cmds, i + 1, to, start)[k - 3]);
                    } else if k == 0 {
                        assert(pts[k] == ab.min);
                    } else if k == 1 {
                        assert(pts[k] == ab.max);
                    } else {
                        assert(pts[k] == to);
                    }
                }
            },
            PathCommand::Close => {
                lemma_path_pts_ok(cmds, i + 1, start, start);
                assert forall|k: int| 0 <= k < pts.len() implies vec2_ok(
                    #[trigger] pts[k],
                ) by {
                    assert(pts[k] == spec_path_pts(cmds, i + 1, start, start)[k]);
                }
            },
        }
    }
}

/// Growing a box keeps everything the box held.
proof fn lemma_expand_contains(b: BBox, m: int)
    requires
        bbox_ok(b),
        0 <= m,
    ensures
        bbox_ok(spec_bbox_expand(b, m)),
        forall|p: Vec2| bbox_contains(b, p) ==> bbox_contains(spec_bbox_expand(b, m), p),
{
    assert forall|p: Vec2| bbox_contains(b, p) implies bbox_contains(
        spec_bbox_expand(b, m),
        p,
    ) by {
        lemma_fx_clamp_monotone(b.min.x - m, b.min.x as int);
        lemma_fx_clamp_monotone(b.max.x as int, b.max.x + m);
        lemma_fx_clamp_monotone(b.min.y - m, b.min.y as int);
        lemma_fx_clamp_monotone(b.max.y as int, b.max.y + m);
    }
}

} // verus!
