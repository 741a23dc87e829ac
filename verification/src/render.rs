//! The renderer's decision layer: surface size, projection, buffer
//! capacity, and per-frame draw planning.
//!
//! The GPU itself sits outside this library. What is verified here is
//! everything the render loop decides: when a resize really reconfigures,
//! the orthographic projection coefficients, the fixed buffer capacities a
//! mesh must fit, and which cached mesh is drawn with which transform.

use vstd::prelude::*;

verus! {

use crate::fixed::FX_ONE;
use crate::mesh::Mesh;
use crate::shape::Shape;
use crate::transform::Transform2D;
use crate::tess::Tessellator;

/// Why a frame could not be drawn: the offending count and the buffer's
/// fixed capacity.
#[derive(Clone, Copy, Debug, PartialEq, Eq, Structural)]
pub enum RenderError {
    /// A mesh holds more vertices than the fixed vertex buffer.
    TooManyVertices { count: usize, max: usize },
    /// A mesh holds more indices than the fixed index buffer.
    TooManyIndices { count: usize, max: usize },
}

/// The full description of a capacity error, with the counts.
pub open spec fn spec_render_error_detail(e: RenderError) -> Seq<char> {
    match e {
        RenderError::TooManyVertices { count, max } => "too many vertices: "@
            + crate::text::spec_dec_digits(count as int) + " (max "@
            + crate::text::spec_dec_digits(max as int) + ")"@,
        RenderError::TooManyIndices { count, max } => "too many indices: "@
            + crate::text::spec_dec_digits(count as int) + " (max "@
            + crate::text::spec_dec_digits(max as int) + ")"@,
    }
}

impl RenderError {
    /// A short description for logs.
    pub fn message(&self) -> (r: &'static str)
        ensures
            r@ == match *self {
                RenderError::TooManyVertices { .. } => "mesh exceeds the vertex buffer capacity"@,
                RenderError::TooManyIndices { .. } => "mesh exceeds the index buffer capacity"@,
            },
    {
        match self {
            RenderError::TooManyVertices { .. } => "mesh exceeds the vertex buffer capacity",
            RenderError::TooManyIndices { .. } => "mesh exceeds the index buffer capacity",
        }
    }

    /// The full description, naming the offending count and the limit.
    pub fn detail(&self) -> (r: String)
        ensures
            r@ == spec_render_error_detail(*self),
    {
        let mut s = String::new();
        let (count, max, vertices) = match self {
            RenderError::TooManyVertices { count, max } => (*count, *max, true),
            RenderError::TooManyIndices { count, max } => (*count, *max, false),
        };
        crate::text::push_char(&mut s, 't');
        crate::text::push_char(&mut s, 'o');
        crate::text::push_char(&mut s, 'o');
        crate::text::push_char(&mut s, ' ');
        crate::text::push_char(&mut s, 'm');
        crate::text::push_char(&mut s, 'a');
        crate::text::push_char(&mut s, 'n');
        crate::text::push_char(&mut s, 'y');
        crate::text::push_char(&mut s, ' ');
        if vertices {
            crate::text::push_char(&mut s, 'v');
            crate::text::push_char(&mut s, 'e');
            crate::text::push_char(&mut s, 'r');
            crate::text::push_char(&mut s, 't');
            crate::text::push_char(&mut s, 'i');
            crate::text::push_char(&mut s, 'c');
            crate::text::push_char(&mut s, 'e');
            crate::text::push_char(&mut s, 's');
        } else {
            crate::text::push_char(&mut s, 'i');
            crate::text::push_char(&mut s, 'n');
            crate::text::push_char(&mut s, 'd');
            crate::text::push_char(&mut s, 'i');
            crate::text::push_char(&mut s, 'c');
            crate::text::push_char(&mut s, 'e');
            crate::text::push_char(&mut s, 's');
        }
        crate::text::push_char(&mut s, ':');
        crate::text::push_char(&mut s, ' ');
        crate::text::push_decimal(&mut s, count as u64);
        crate::text::push_char(&mut s, ' ');
        crate::text::push_char(&mut s, '(');
        crate::text::push_char(&mut s, 'm');
        crate::text::push_char(&mut s, 'a');
        crate::text::push_char(&mut s, 'x');
        crate::text::push_char(&mut s, ' ');
        crate::text::push_decimal(&mut s, max as u64);
        crate::text::push_char(&mut s, ')');
        proof {
            reveal_strlit("too many vertices: ");
            reveal_strlit("too many indices: ");
            reveal_strlit(" (max ");
            reveal_strlit(")");
            assert(s@ =~= spec_render_error_detail(*self));
        }
        s
    }
}

/// The orthographic projection from canvas pixel space onto clip space:
/// `x' = sx * x_px + tx`, `y' = sy * y_px + ty` in fixed point, with the
/// vertical axis flipped because screen space grows downward.
#[derive(Clone, Copy, Debug, PartialEq, Eq, Structural)]
pub struct OrthoProjection {
    pub sx: i64,
    pub sy: i64,
    pub tx: i64,
    pub ty: i64,
}

/// The projection for a canvas of the given pixel size.
pub open spec fn spec_ortho(width: u32, height: u32) -> OrthoProjection {
    OrthoProjection {
        sx: (2 * (FX_ONE as int) / (width as int)) as i64,
        sy: (-(2 * (FX_ONE as int) / (height as int))) as i64,
        tx: (-(FX_ONE as int)) as i64,
        ty: FX_ONE as i64,
    }
}

/// One planned draw: a cached mesh, its shape's own transform, and the
/// transform override to compose on top of it during a drag, if any. The
/// final draw of a frame resolves the multisampled target.
#[derive(Clone, Copy, Debug, PartialEq)]
pub struct DrawCommand {
    pub id: u64,
    pub base: Transform2D,
    pub override_transform: Option<Transform2D>,
}

/// The first transform override recorded for a shape.
pub open spec fn spec_find_override(ov: Seq<(u64, Transform2D)>, id: u64) -> Option<Transform2D>
    decreases ov.len(),
{
    if ov.len() == 0 {
        None
    } else if ov[0].0 == id {
        Some(ov[0].1)
    } else {
        spec_find_override(ov.drop_first(), id)
    }
}

/// The draw list for the cached per-shape strategy: one draw per shape
/// whose mesh is cached, in z-order; `None` when some cached mesh exceeds
/// the buffer capacities.
pub open spec fn spec_plan(
    shapes: Seq<Shape>,
    cache: Map<u64, Mesh>,
    ov: Seq<(u64, Transform2D)>,
    max_v: int,
    max_i: int,
) -> Option<Seq<DrawCommand>>
    decreases shapes.len(),
{
    if shapes.len() == 0 {
        Some(Seq::empty())
    } else {
        let rest = spec_plan(shapes.drop_first(), cache, ov, max_v, max_i);
        let sh = shapes[0];
        if !cache.contains_key(sh.id) {
            rest
        } else if cache[sh.id].vertices@.len() > max_v {
            None
        } else if cache[sh.id].indices@.len() > max_i {
            None
        } else {
            match rest {
                None => None,
                Some(cmds) => Some(
                    seq![
                        DrawCommand {
                            id: sh.id,
                            base: sh.transform,
                            override_transform: spec_find_override(ov, sh.id),
                        },
                    ] + cmds,
                ),
            }
        }
    }
}

/// Once planning fails at some suffix, it fails for the whole list.
proof fn lemma_plan_none_prefix(
    shapes: Seq<Shape>,
    cache: Map<u64, Mesh>,
    ov: Seq<(u64, Transform2D)>,
    max_v: int,
    max_i: int,
    j: int,
    i: int,
)
    requires
        0 <= j <= i <= shapes.len(),
        spec_plan(shapes.skip(i), cache, ov, max_v, max_i) is None,
    ensures
        spec_plan(shapes.skip(j), cache, ov, max_v, max_i) is None,
    decreases i - j,
{
    if j < i {
        lemma_plan_none_prefix(shapes, cache, ov, max_v, max_i, j + 1, i);
        assert(shapes.skip(j)[0] == shapes[j]);
        assert(shapes.skip(j).drop_first() =~= shapes.skip(j + 1));
    }
}

/// The renderer's state: canvas size, projection, and the fixed buffer
/// capacities a single draw submission must fit.
pub struct Renderer {
    width: u32,
    height: u32,
    projection: OrthoProjection,
    max_vertices: usize,
    max_indices: usize,
}

impl Renderer {
    pub closed spec fn w(self) -> u32 {
        self.width
    }

    pub closed spec fn h(self) -> u32 {
        self.height
    }

    pub closed spec fn proj(self) -> OrthoProjection {
        self.projection
    }

    pub closed spec fn max_v(self) -> int {
        self.max_vertices as int
    }

    pub closed spec fn max_i(self) -> int {
        self.max_indices as int
    }

    /// The projection always matches the current size.
    pub open spec fn wf(self) -> bool {
        self.proj() == spec_ortho(self.w(), self.h()) && self.w() > 0 && self.h() > 0 && self.max_v()
            == 65536 && self.max_i() == 196608
    }

    /// A renderer for a canvas of the given pixel size.
    pub fn new(width: u32, height: u32) -> (r: Renderer)
        requires
            width > 0,
            height > 0,
        ensures
            r.w() == width,
            r.h() == height,
            r.wf(),
    {
        Renderer {
            width,
            height,
            projection: ortho(width, height),
            max_vertices: 65536,
            max_indices: 196608,
        }
    }

    /// The current canvas width, in pixels.
    pub fn width(&self) -> (r: u32)
        ensures
            r == self.w(),
    {
        self.width
    }

    /// The current canvas height, in pixels.
    pub fn height(&self) -> (r: u32)
        ensures
            r == self.h(),
    {
        self.height
    }

    /// The current projection coefficients.
    pub fn projection(&self) -> (r: OrthoProjection)
        ensures
            r == self.proj(),
    {
        self.projection
    }

    /// React to a canvas size change. A zero or unchanged size changes
    /// nothing at all, so calling this again with the same size is a
    /// no-op; a real change updates the size and recomputes the
    /// projection.
    pub fn resize(&mut self, width: u32, height: u32)
        requires
            old(self).wf(),
        ensures
            final(self).wf(),
            (width == 0 || height == 0 || (width == old(self).w() && height == old(self).h()))
                ==> *final(self) == *old(self),
            !(width == 0 || height == 0 || (width == old(self).w() && height == old(self).h()))
                ==> final(self).w() == width && final(self).h() == height,
    {
        if width > 0 && height > 0 && (width != self.width || height != self.height) {
            self.width = width;
            self.height = height;
            self.projection = ortho(width, height);
        }
    }

    /// Whether a mesh fits the fixed buffers: `Ok` exactly when both the
    /// vertex and index counts are within capacity, and otherwise the
    /// error names the buffer that overflowed (vertices checked first),
    /// the offending count, and the limit.
    pub fn check_capacity(&self, mesh: &Mesh) -> (r: Result<(), RenderError>)
        ensures
            r is Ok <==> mesh.vertices@.len() <= self.max_v() && mesh.indices@.len()
                <= self.max_i(),
            mesh.vertices@.len() > self.max_v() ==> r == Err::<(), RenderError>(
                RenderError::TooManyVertices {
                    count: mesh.vertices@.len() as usize,
                    max: self.max_v() as usize,
                },
            ),
            (mesh.vertices@.len() <= self.max_v() && mesh.indices@.len() > self.max_i()) ==> r
                == Err::<(), RenderError>(
                RenderError::TooManyIndices {
                    count: mesh.indices@.len() as usize,
                    max: self.max_i() as usize,
                },
            ),
    {
        if mesh.vertices.len() > self.max_vertices {
            Err(RenderError::TooManyVertices { count: mesh.vertices.len(), max: self.max_vertices })
        } else if mesh.indices.len() > self.max_indices {
            Err(RenderError::TooManyIndices { count: mesh.indices.len(), max: self.max_indices })
        } else {
            Ok(())
        }
    }

    /// Plan one frame of the cached per-shape strategy: walk the shapes in
    /// z-order, draw each one's cached mesh with its own transform and the
    /// drag override when one is recorded, and reject the frame when any
    /// cached mesh exceeds the buffers.
    pub fn plan_frame(
        &self,
        shapes: &Vec<Shape>,
        tess: &Tessellator,
        overrides: &Vec<(u64, Transform2D)>,
    ) -> (r: Result<Vec<DrawCommand>, RenderError>)
        ensures
            r is Ok <==> spec_plan(
                shapes@,
                tess.cache_view(),
                overrides@,
                self.max_v(),
                self.max_i(),
            ) is Some,
            r is Ok ==> r->Ok_0@ == spec_plan(
                shapes@,
                tess.cache_view(),
                overrides@,
                self.max_v(),
                self.max_i(),
            )->0,
    {
        let ghost cache = tess.cache_view();
        let mut out: Vec<DrawCommand> = Vec::new();
        let mut i: usize = shapes.len();
        proof {
            assert(shapes@.skip(shapes@.len() as int) =~= Seq::<Shape>::empty());
        }
        // Walk backward so each planned head can be pushed to the front's
        // place cheaply: the list is built in reverse z-order, then turned
        // around.
        while i > 0
            invariant
                0 <= i <= shapes@.len(),
                cache == tess.cache_view(),
                spec_plan(shapes@.skip(i as int), cache, overrides@, self.max_v(), self.max_i())
                    == Some(out@.reverse()),
            decreases i,
        {
            i = i - 1;
            proof {
                assert(shapes@.skip(i as int)[0] == shapes@[i as int]);
                assert(shapes@.skip(i as int).drop_first() =~= shapes@.skip(i + 1));
            }
            match tess.cached_mesh(shapes[i].id) {
                Some(m) => {
                    if m.vertices.len() > self.max_vertices {
                        proof {
                            assert(spec_plan(
                                shapes@.skip(i as int),
                                cache,
                                overrides@,
                                self.max_v(),
                                self.max_i(),
                            ) is None);
                            lemma_plan_none_prefix(
                                shapes@,
                                cache,
                                overrides@,
                                self.max_v(),
                                self.max_i(),
                                0,
                                i as int,
                            );
                            assert(shapes@.skip(0) =~= shapes@);
                        }
                        return Err(
                            RenderError::TooManyVertices {
                                count: m.vertices.len(),
                                max: self.max_vertices,
                            },
                        );
                    }
                    if m.indices.len() > self.max_indices {
                        proof {
                            assert(spec_plan(
                                shapes@.skip(i as int),
                                cache,
                                overrides@,
                                self.max_v(),
                                self.max_i(),
                            ) is None);
                            lemma_plan_none_prefix(
                                shapes@,
                                cache,
                                overrides@,
                                self.max_v(),
                                self.max_i(),
                                0,
                                i as int,
                            );
                            assert(shapes@.skip(0) =~= shapes@);
                        }
                        return Err(
                            RenderError::TooManyIndices {
                                count: m.indices.len(),
                                max: self.max_indices,
                            },
                        );
                    }
                    let ov = find_override(overrides, shapes[i].id);
                    out.push(
                        DrawCommand {
                            id: shapes[i].id,
                            base: shapes[i].transform,
                            override_transform: ov,
                        },
                    );
                    proof {
                        assert(out@.reverse() =~= seq![out@.last()] + out@.take(
                            out@.len() - 1,
                        ).reverse());
                        assert(out@.take(out@.len() - 1) =~= out@.drop_last());
                    }
                },
                None => {},
            }
        }
        let mut cmds: Vec<DrawCommand> = Vec::new();
        let mut j: usize = out.len();
        while j > 0
            invariant
                0 <= j <= out@.len(),
                cmds@ == out@.skip(j as int).reverse(),
            decreases j,
        {
            j = j - 1;
            cmds.push(out[j]);
            proof {
                assert(cmds@ =~= out@.skip(j as int).reverse());
            }
        }
        proof {
            assert(out@.skip(0) =~= out@);
            assert(shapes@.skip(0) =~= shapes@);
        }
        Ok(cmds)
    }
}

/// The projection for a canvas of the given pixel size.
fn ortho(width: u32, height: u32) -> (r: OrthoProjection)
    requires
        width > 0,
        height > 0,
    ensures
        r == spec_ortho(width, height),
{
    let sx: i64 = 2 * FX_ONE / (width as i64);
    let sy: i64 = -(2 * FX_ONE / (height as i64));
    proof {
        crate::fixed::lemma_div_abs_bound(2 * (FX_ONE as int), width as int, 2 * (FX_ONE as int));
        crate::fixed::lemma_div_abs_bound(2 * (FX_ONE as int), height as int, 2 * (FX_ONE as int));
        vstd::arithmetic::div_mod::lemma_div_pos_is_pos(2 * (FX_ONE as int), width as int);
        vstd::arithmetic::div_mod::lemma_div_pos_is_pos(2 * (FX_ONE as int), height as int);
    }
    OrthoProjection { sx, sy, tx: -FX_ONE, ty: FX_ONE }
}

/// The first transform override recorded for a shape.
fn find_override(overrides: &Vec<(u64, Transform2D)>, id: u64) -> (r: Option<Transform2D>)
    ensures
        r == spec_find_override(overrides@, id),
{
    let mut i: usize = 0;
    proof {
        assert(overrides@.skip(0) =~= overrides@);
    }
    while i < overrides.len()
        invariant
            0 <= i <= overrides@.len(),
            spec_find_override(overrides@, id) == spec_find_override(
                overrides@.skip(i as int),
                id,
            ),
        decreases overrides@.len() - i,
    {
        proof {
            assert(overrides@.skip(i as int)[0] == overrides@[i as int]);
            assert(overrides@.skip(i as int).drop_first() =~= overrides@.skip(i + 1));
        }
        if overrides[i].0 == id {
            return Some(overrides[i].1);
        }
        i = i + 1;
    }
    proof {
        assert(overrides@.skip(overrides@.len() as int) =~= Seq::<(u64, Transform2D)>::empty());
    }
    None
}

} // verus!
