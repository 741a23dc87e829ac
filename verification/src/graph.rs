//! The scene graph: the authoritative shape list, dirty tracking,
//! selection, hit testing and z-order.
//!
//! A structural mutation raises the affected shape's dirty flag, records
//! its identifier in the dirty set, and marks the whole scene dirty;
//! `clear_dirty` is the single place all of that is reset after a frame.
//! Mutation of a stored shape goes through the `set_*` methods, which say
//! exactly which shape changed and how.

use vstd::prelude::*;

verus! {

broadcast use vstd::std_specs::hash::group_hash_axioms;

use std::collections::HashSet;
use crate::geom::{Vec2, BBox, bbox_contains, bbox_intersects, spec_bbox_union};
use crate::shape::{Shape, ShapeGeometry, ShapeStyle, shape_ok, geometry_ok, style_ok, spec_world_bounds};
use crate::transform::{Transform2D, transform_ok};
use crate::ids::IdAllocator;

/// The index of the first shape with an identifier, or `-1`.
pub open spec fn first_idx(s: Seq<Shape>, id: u64) -> int
    decreases s.len(),
{
    if s.len() == 0 {
        -1
    } else if s[0].id == id {
        0
    } else {
        let r = first_idx(s.drop_first(), id);
        if r == -1 {
            -1
        } else {
            r + 1
        }
    }
}

/// What `first_idx` finds: the least index bearing the identifier, if any.
pub proof fn lemma_first_idx(s: Seq<Shape>, id: u64)
    ensures
        first_idx(s, id) == -1 ==> forall|k: int| 0 <= k < s.len() ==> (#[trigger] s[k]).id != id,
        first_idx(s, id) != -1 ==> 0 <= first_idx(s, id) < s.len() && s[first_idx(s, id)].id == id
            && forall|k: int| 0 <= k < first_idx(s, id) ==> (#[trigger] s[k]).id != id,
    decreases s.len(),
{
    if s.len() > 0 && s[0].id != id {
        lemma_first_idx(s.drop_first(), id);
        assert(forall|k: int| 1 <= k < s.len() ==> s.drop_first()[k - 1] == #[trigger] s[k]);
    }
}

/// The topmost shape whose world bounds contain a point, scanning from the
/// top of the z-order down.
pub open spec fn spec_hit(s: Seq<Shape>, p: Vec2) -> Option<u64>
    decreases s.len(),
{
    if s.len() == 0 {
        None
    } else if bbox_contains(spec_world_bounds(s.last()), p) {
        Some(s.last().id)
    } else {
        spec_hit(s.drop_last(), p)
    }
}

/// The identifiers of the shapes whose world bounds intersect a box.
pub open spec fn spec_query(s: Seq<Shape>, rect: BBox) -> Seq<u64>
    decreases s.len(),
{
    if s.len() == 0 {
        Seq::empty()
    } else {
        let rest = spec_query(s.drop_first(), rect);
        if bbox_intersects(spec_world_bounds(s[0]), rect) {
            seq![s[0].id] + rest
        } else {
            rest
        }
    }
}

/// A selection list with every occurrence of one identifier removed.
pub open spec fn spec_without(sel: Seq<u64>, id: u64) -> Seq<u64>
    decreases sel.len(),
{
    if sel.len() == 0 {
        Seq::empty()
    } else {
        let rest = spec_without(sel.drop_first(), id);
        if sel[0] == id {
            rest
        } else {
            seq![sel[0]] + rest
        }
    }
}

/// The selected shapes, in selection order: for each selected identifier
/// the first shape bearing it, skipping identifiers that name no shape.
pub open spec fn spec_selected(s: Seq<Shape>, sel: Seq<u64>) -> Seq<Shape>
    decreases sel.len(),
{
    if sel.len() == 0 {
        Seq::empty()
    } else {
        let i = first_idx(s, sel[0]);
        let rest = spec_selected(s, sel.drop_first());
        if i == -1 {
            rest
        } else {
            seq![s[i]] + rest
        }
    }
}

/// One shape nudged by a drag: position moved by a delta, scale multiplied
/// by a factor, dirty flag raised.
pub open spec fn spec_nudged_shape(sh: Shape, dp: Vec2, ds: Vec2) -> Shape {
    Shape {
        transform: Transform2D {
            position: Vec2 {
                x: crate::fixed::fx_clamp(sh.transform.position.x + dp.x) as i64,
                y: crate::fixed::fx_clamp(sh.transform.position.y + dp.y) as i64,
            },
            scale: Vec2 {
                x: crate::fixed::fx_mul_val(sh.transform.scale.x as int, ds.x as int) as i64,
                y: crate::fixed::fx_mul_val(sh.transform.scale.y as int, ds.y as int) as i64,
            },
            ..sh.transform
        },
        dirty: true,
        ..sh
    }
}

/// A shape list with the first shape of one identifier nudged; no shape,
/// no change.
pub open spec fn spec_nudged(s: Seq<Shape>, id: u64, dp: Vec2, ds: Vec2) -> Seq<Shape> {
    let i = first_idx(s, id);
    if i == -1 {
        s
    } else {
        s.update(i, spec_nudged_shape(s[i], dp, ds))
    }
}

/// A shape list with every selected shape nudged, in selection order.
pub open spec fn spec_transform_sel(s: Seq<Shape>, sel: Seq<u64>, j: int, dp: Vec2, ds: Vec2) -> Seq<
    Shape,
>
    decreases sel.len() - j,
{
    if j < 0 || j >= sel.len() {
        s
    } else {
        spec_transform_sel(spec_nudged(s, sel[j], dp, ds), sel, j + 1, dp, ds)
    }
}

/// The scene state after deleting, in order, every identifier of a list:
/// each step is exactly one `remove_shape`. The components are the shape
/// list, the dirty set, the selection, and the scene-dirty flag.
pub open spec fn spec_deleted(
    s: Seq<Shape>,
    dirty: Set<u64>,
    sel: Seq<u64>,
    sd: bool,
    ids: Seq<u64>,
    k: int,
) -> (Seq<Shape>, Set<u64>, Seq<u64>, bool)
    decreases ids.len() - k,
{
    if k < 0 || k >= ids.len() {
        (s, dirty, sel, sd)
    } else {
        let i = first_idx(s, ids[k]);
        if i == -1 {
            spec_deleted(s, dirty, sel, sd, ids, k + 1)
        } else {
            spec_deleted(
                s.remove(i),
                dirty.remove(ids[k]),
                spec_without(sel, ids[k]),
                true,
                ids,
                k + 1,
            )
        }
    }
}

/// The scene graph.
pub struct SceneGraph {
    /// All shapes, bottom of the z-order first.
    shapes: Vec<Shape>,
    /// Identifiers of shapes needing re-tessellation.
    dirty_shapes: HashSet<u64>,
    /// Whether anything changed since the last `clear_dirty`.
    scene_dirty: bool,
    /// Currently selected shape identifiers, in selection order.
    selection: Vec<u64>,
    /// Source of fresh shape identifiers.
    ids: IdAllocator,
}

impl SceneGraph {
    /// The shape list.
    pub closed spec fn s(self) -> Seq<Shape> {
        self.shapes@
    }

    /// The set of dirty shape identifiers.
    pub closed spec fn dirty(self) -> Set<u64> {
        self.dirty_shapes@
    }

    /// Whether the scene as a whole is dirty.
    pub closed spec fn scene_is_dirty(self) -> bool {
        self.scene_dirty
    }

    /// The selection, in order.
    pub closed spec fn sel(self) -> Seq<u64> {
        self.selection@
    }

    /// The identifier allocator's next value.
    pub closed spec fn next_id(self) -> u64 {
        self.ids.next_id
    }

    /// Every stored shape is well-formed.
    pub open spec fn wf(self) -> bool {
        forall|i: int| 0 <= i < self.s().len() ==> shape_ok(#[trigger] self.s()[i])
    }

    /// A new, empty scene. It starts dirty, so the first frame draws.
    pub fn new() -> (g: SceneGraph)
        ensures
            g.s().len() == 0,
            g.dirty() == Set::<u64>::empty(),
            g.scene_is_dirty(),
            g.sel().len() == 0,
            g.next_id() == 1,
            g.wf(),
    {
        SceneGraph {
            shapes: Vec::new(),
            dirty_shapes: HashSet::new(),
            scene_dirty: true,
            selection: Vec::new(),
            ids: IdAllocator::new(),
        }
    }

    /// Add a shape and return its identifier. The shape and the scene
    /// become dirty.
    pub fn add_shape(&mut self, shape: Shape) -> (id: u64)
        requires
            old(self).wf(),
            shape_ok(shape),
        ensures
            id == shape.id,
            final(self).s() == old(self).s().push(shape),
            final(self).dirty() == old(self).dirty().insert(shape.id),
            final(self).scene_is_dirty(),
            final(self).sel() == old(self).sel(),
            final(self).next_id() == old(self).next_id(),
            final(self).wf(),
    {
        let id = shape.id;
        self.dirty_shapes.insert(id);
        self.scene_dirty = true;
        self.shapes.push(shape);
        proof {
            assert forall|i: int| 0 <= i < self.s().len() implies shape_ok(
                #[trigger] self.s()[i],
            ) by {
                if i < old(self).s().len() {
                    assert(self.s()[i] == old(self).s()[i]);
                } else {
                    assert(self.s()[i] == shape);
                }
            }
        }
        id
    }

    /// Create a shape with a fresh identifier, the identity transform and
    /// a raised dirty flag, and add it.
    pub fn create_shape(&mut self, geometry: ShapeGeometry, style: ShapeStyle) -> (id: u64)
        requires
            old(self).wf(),
            geometry_ok(geometry),
            style_ok(style),
            old(self).next_id() < u64::MAX,
        ensures
            id == old(self).next_id(),
            final(self).s().len() == old(self).s().len() + 1,
            final(self).s() == old(self).s().push(final(self).s().last()),
            final(self).s().last().id == id,
            final(self).s().last().geometry == geometry,
            final(self).s().last().style == style,
            final(self).s().last().transform == crate::transform::spec_identity(),
            final(self).s().last().dirty,
            final(self).dirty() == old(self).dirty().insert(id),
            final(self).scene_is_dirty(),
            final(self).sel() == old(self).sel(),
            final(self).next_id() == old(self).next_id() + 1,
            final(self).wf(),
    {
        let shape = Shape::new(&mut self.ids, geometry, style);
        proof {
            assert(self.s() == old(self).s());
            assert(self.wf());
            assert(shape_ok(shape));
        }
        self.add_shape(shape)
    }

    /// Remove the first shape with an identifier, if any. The removed
    /// shape leaves the dirty set and the selection too.
    pub fn remove_shape(&mut self, id: u64) -> (r: Option<Shape>)
        requires
            old(self).wf(),
        ensures
            ({
                let i = first_idx(old(self).s(), id);
                if i == -1 {
                    r is None && *final(self) == *old(self)
                } else {
                    &&& r == Some(old(self).s()[i])
                    &&& final(self).s() == old(self).s().remove(i)
                    &&& final(self).dirty() == old(self).dirty().remove(id)
                    &&& final(self).sel() == spec_without(old(self).sel(), id)
                    &&& final(self).scene_is_dirty()
                    &&& final(self).next_id() == old(self).next_id()
                }
            }),
            final(self).wf(),
    {
        proof {
            lemma_first_idx(self.shapes@, id);
        }
        let ghost i0 = first_idx(self.shapes@, id);
        let mut i: usize = 0;
        while i < self.shapes.len()
            invariant
                0 <= i <= self.shapes@.len(),
                i0 == first_idx(self.shapes@, id),
                i0 == -1 || (0 <= i0 < self.shapes@.len() && self.shapes@[i0].id == id
                    && forall|k: int|
                    0 <= k < i0 ==> (#[trigger] self.shapes@[k]).id != id),
                i0 == -1 ==> forall|k: int|
                    0 <= k < self.shapes@.len() ==> (#[trigger] self.shapes@[k]).id != id,
                forall|k: int| 0 <= k < i ==> (#[trigger] self.shapes@[k]).id != id,
                *self == *old(self),
                old(self).wf(),
            decreases self.shapes@.len() - i,
        {
            if self.shapes[i].id == id {
                self.dirty_shapes.remove(&id);
                let removed = self.shapes.remove(i);
                let mut newsel: Vec<u64> = Vec::new();
                let mut j: usize = 0;
                let ghost selb = self.selection@;
                proof {
                    assert(selb.skip(0) =~= selb);
                }
                while j < self.selection.len()
                    invariant
                        0 <= j <= selb.len(),
                        selb == self.selection@,
                        i < old(self).s().len(),
                        self.shapes@ == old(self).s().remove(i as int),
                        self.dirty_shapes@ == old(self).dirty().remove(id),
                        self.ids == old(self).ids,
                        spec_without(selb, id) == newsel@ + spec_without(
                            selb.skip(j as int),
                            id,
                        ),
                    decreases selb.len() - j,
                {
                    let ghost nb = newsel@;
                    proof {
                        assert(selb.skip(j as int)[0] == selb[j as int]);
                        assert(selb.skip(j as int).drop_first() =~= selb.skip(j + 1));
                    }
                    let sid = self.selection[j];
                    if sid != id {
                        newsel.push(sid);
                        proof {
                            assert(newsel@ =~= nb + seq![selb[j as int]]);
                            assert(newsel@ + spec_without(selb.skip(j + 1), id) =~= nb + (seq![
                                selb[j as int],
                            ] + spec_without(selb.skip(j + 1), id)));
                        }
                    }
                    j = j + 1;
                }
                proof {
                    assert(spec_without(selb.skip(selb.len() as int), id) =~= Seq::<
                        u64,
                    >::empty());
                    assert(newsel@ + Seq::<u64>::empty() =~= newsel@);
                }
                self.selection = newsel;
                self.scene_dirty = true;
                proof {
                    old(self).s().remove_ensures(i as int);
                    assert forall|kq: int| 0 <= kq < self.s().len() implies shape_ok(
                        #[trigger] self.s()[kq],
                    ) by {
                        assert(self.s()[kq] == old(self).s().remove(i as int)[kq]);
                        if kq < i {
                            assert(old(self).s().remove(i as int)[kq] == old(self).s()[kq]);
                        } else {
                            assert(old(self).s().remove(i as int)[kq] == old(self).s()[kq + 1]);
                        }
                    }
                }
                return Some(removed);
            }
            i = i + 1;
        }
        proof {
            assert(i0 == -1);
        }
        None
    }

    /// The first shape with an identifier, if any.
    pub fn get_shape(&self, id: u64) -> (r: Option<&Shape>)
        ensures
            ({
                let i = first_idx(self.s(), id);
                if i == -1 {
                    r is None
                } else {
                    r is Some && *r->0 == self.s()[i]
                }
            }),
    {
        proof {
            lemma_first_idx(self.shapes@, id);
        }
        let mut i: usize = 0;
        while i < self.shapes.len()
            invariant
                0 <= i <= self.shapes@.len(),
                forall|k: int| 0 <= k < i ==> (#[trigger] self.shapes@[k]).id != id,
            decreases self.shapes@.len() - i,
        {
            if self.shapes[i].id == id {
                proof {
                    lemma_first_idx(self.shapes@, id);
                }
                return Some(&self.shapes[i]);
            }
            i = i + 1;
        }
        None
    }

    /// All shapes, bottom of the z-order first.
    pub fn shapes(&self) -> (r: &Vec<Shape>)
        ensures
            r@ == self.s(),
    {
        &self.shapes
    }

    /// The next identifier the scene will hand out; callers creating
    /// shapes must leave headroom below the counter's maximum.
    pub fn peek_next_id(&self) -> (r: u64)
        ensures
            r == self.next_id(),
    {
        self.ids.next_id
    }

    /// The number of shapes.
    pub fn len(&self) -> (r: usize)
        ensures
            r == self.s().len(),
    {
        self.shapes.len()
    }

    /// Whether the scene holds no shapes.
    pub fn is_empty(&self) -> (r: bool)
        ensures
            r == (self.s().len() == 0),
    {
        self.shapes.len() == 0
    }

    /// Whether the scene needs re-rendering.
    pub fn is_dirty(&self) -> (r: bool)
        ensures
            r == self.scene_is_dirty(),
    {
        self.scene_dirty
    }

    /// The identifiers of the shapes needing re-tessellation.
    pub fn dirty_shape_ids(&self) -> (r: &HashSet<u64>)
        ensures
            r@ == self.dirty(),
    {
        &self.dirty_shapes
    }

    /// Reset every dirty flag, after a frame has been drawn.
    pub fn clear_dirty(&mut self)
        requires
            old(self).wf(),
        ensures
            final(self).dirty() == Set::<u64>::empty(),
            !final(self).scene_is_dirty(),
            final(self).s().len() == old(self).s().len(),
            forall|i: int|
                0 <= i < old(self).s().len() ==> final(self).s()[i] == (Shape {
                    dirty: false,
                    ..old(self).s()[i]
                }),
            final(self).sel() == old(self).sel(),
            final(self).next_id() == old(self).next_id(),
            final(self).wf(),
    {
        self.dirty_shapes.clear();
        self.scene_dirty = false;
        let mut i: usize = 0;
        while i < self.shapes.len()
            invariant
                0 <= i <= self.shapes@.len(),
                self.shapes@.len() == old(self).s().len(),
                forall|k: int|
                    0 <= k < i ==> self.shapes@[k] == (Shape {
                        dirty: false,
                        ..old(self).s()[k]
                    }),
                forall|k: int| i <= k < self.shapes@.len() ==> self.shapes@[k] == old(self).s()[k],
                self.dirty_shapes@ == Set::<u64>::empty(),
                !self.scene_dirty,
                self.selection@ == old(self).sel(),
                self.ids == old(self).ids,
            decreases self.shapes@.len() - i,
        {
            let ghost prev = self.shapes@;
            let mut sh = self.shapes.remove(i);
            sh.clear_dirty();
            self.shapes.insert(i, sh);
            proof {
                assert(self.shapes@ =~= prev.update(i as int, self.shapes@[i as int]));
                assert(self.shapes@[i as int] == (Shape {
                    dirty: false,
                    ..old(self).s()[i as int]
                }));
            }
            i = i + 1;
        }
        proof {
            assert(forall|i2: int|
                0 <= i2 < self.s().len() ==> shape_ok(#[trigger] self.s()[i2]));
        }
    }

    /// Raise every dirty flag and record every shape as dirty.
    pub fn mark_dirty(&mut self)
        requires
            old(self).wf(),
        ensures
            final(self).scene_is_dirty(),
            final(self).s().len() == old(self).s().len(),
            forall|i: int|
                0 <= i < old(self).s().len() ==> final(self).s()[i] == (Shape {
                    dirty: true,
                    ..old(self).s()[i]
                }),
            forall|i: int|
                0 <= i < old(self).s().len() ==> final(self).dirty().contains(
                    (#[trigger] old(self).s()[i]).id,
                ),
            forall|id: u64|
                old(self).dirty().contains(id) ==> final(self).dirty().contains(id),
            final(self).sel() == old(self).sel(),
            final(self).next_id() == old(self).next_id(),
            final(self).wf(),
    {
        self.scene_dirty = true;
        let mut i: usize = 0;
        while i < self.shapes.len()
            invariant
                0 <= i <= self.shapes@.len(),
                self.shapes@.len() == old(self).s().len(),
                forall|k: int|
                    0 <= k < i ==> self.shapes@[k] == (Shape {
                        dirty: true,
                        ..old(self).s()[k]
                    }),
                forall|k: int| i <= k < self.shapes@.len() ==> self.shapes@[k] == old(self).s()[k],
                forall|k: int|
                    0 <= k < i ==> self.dirty_shapes@.contains(
                        (#[trigger] old(self).s()[k]).id,
                    ),
                forall|id: u64|
                    old(self).dirty().contains(id) ==> self.dirty_shapes@.contains(id),
                self.scene_dirty,
                self.selection@ == old(self).sel(),
                self.ids == old(self).ids,
            decreases self.shapes@.len() - i,
        {
            let ghost prev = self.shapes@;
            let ghost dirtyb = self.dirty_shapes@;
            let mut sh = self.shapes.remove(i);
            sh.mark_dirty();
            let sid = sh.id;
            self.shapes.insert(i, sh);
            self.dirty_shapes.insert(sid);
            proof {
                assert(self.shapes@ =~= prev.update(i as int, self.shapes@[i as int]));
                assert(self.shapes@[i as int] == (Shape { dirty: true, ..old(self).s()[i as int] }));
                assert(old(self).s()[i as int].id == sid);
                assert(self.dirty_shapes@ == dirtyb.insert(sid));
            }
            i = i + 1;
        }
    }
    /// Replace the transform of the first shape with an identifier, raising
    /// its dirty flag; no shape, no change.
    pub fn set_transform(&mut self, id: u64, transform: Transform2D)
        requires
            old(self).wf(),
            transform_ok(transform),
        ensures
            ({
                let i = first_idx(old(self).s(), id);
                if i == -1 {
                    *final(self) == *old(self)
                } else {
                    &&& final(self).s() == old(self).s().update(
                        i,
                        Shape { transform, dirty: true, ..old(self).s()[i] },
                    )
                    &&& final(self).dirty() == old(self).dirty().insert(id)
                    &&& final(self).scene_is_dirty()
                    &&& final(self).sel() == old(self).sel()
                    &&& final(self).next_id() == old(self).next_id()
                }
            }),
            final(self).wf(),
    {
        proof {
            lemma_first_idx(self.shapes@, id);
        }
        let mut i: usize = 0;
        while i < self.shapes.len()
            invariant
                0 <= i <= self.shapes@.len(),
                forall|k: int| 0 <= k < i ==> (#[trigger] self.shapes@[k]).id != id,
                *self == *old(self),
                old(self).wf(),
                transform_ok(transform),
            decreases self.shapes@.len() - i,
        {
            if self.shapes[i].id == id {
                proof {
                    lemma_first_idx(self.shapes@, id);
                }
                let mut sh = self.shapes.remove(i);
                sh.transform = transform;
                sh.dirty = true;
                self.shapes.insert(i, sh);
                self.dirty_shapes.insert(id);
                self.scene_dirty = true;
                proof {
                    assert(self.shapes@ =~= old(self).s().update(
                        i as int,
                        self.shapes@[i as int],
                    ));
                }
                return ;
            }
            i = i + 1;
        }
    }

    /// Replace the style of the first shape with an identifier, raising its
    /// dirty flag; no shape, no change.
    pub fn set_style(&mut self, id: u64, style: ShapeStyle)
        requires
            old(self).wf(),
            style_ok(style),
        ensures
            ({
                let i = first_idx(old(self).s(), id);
                if i == -1 {
                    *final(self) == *old(self)
                } else {
                    &&& final(self).s() == old(self).s().update(
                        i,
                        Shape { style, dirty: true, ..old(self).s()[i] },
                    )
                    &&& final(self).dirty() == old(self).dirty().insert(id)
                    &&& final(self).scene_is_dirty()
                    &&& final(self).sel() == old(self).sel()
                    &&& final(self).next_id() == old(self).next_id()
                }
            }),
            final(self).wf(),
    {
        proof {
            lemma_first_idx(self.shapes@, id);
        }
        let mut i: usize = 0;
        while i < self.shapes.len()
            invariant
                0 <= i <= self.shapes@.len(),
                forall|k: int| 0 <= k < i ==> (#[trigger] self.shapes@[k]).id != id,
                *self == *old(self),
                old(self).wf(),
                style_ok(style),
            decreases self.shapes@.len() - i,
        {
            if self.shapes[i].id == id {
                proof {
                    lemma_first_idx(self.shapes@, id);
                }
                let mut sh = self.shapes.remove(i);
                sh.style = style;
                sh.dirty = true;
                self.shapes.insert(i, sh);
                self.dirty_shapes.insert(id);
                self.scene_dirty = true;
                proof {
                    assert(self.shapes@ =~= old(self).s().update(
                        i as int,
                        self.shapes@[i as int],
                    ));
                }
                return ;
            }
            i = i + 1;
        }
    }

    /// Replace the geometry of the first shape with an identifier, raising
    /// its dirty flag; no shape, no change.
    #[verifier::rlimit(60)]
    pub fn set_geometry(&mut self, id: u64, geometry: ShapeGeometry)
        requires
            old(self).wf(),
            geometry_ok(geometry),
        ensures
            ({
                let i = first_idx(old(self).s(), id);
                if i == -1 {
                    *final(self) == *old(self)
                } else {
                    &&& final(self).s() == old(self).s().update(
                        i,
                        Shape { geometry, dirty: true, ..old(self).s()[i] },
                    )
                    &&& final(self).dirty() == old(self).dirty().insert(id)
                    &&& final(self).scene_is_dirty()
                    &&& final(self).sel() == old(self).sel()
                    &&& final(self).next_id() == old(self).next_id()
                }
            }),
            final(self).wf(),
    {
        proof {
            lemma_first_idx(self.shapes@, id);
        }
        let mut i: usize = 0;
        let mut pos: Option<usize> = None;
        while i < self.shapes.len() && pos.is_none()
            invariant
                0 <= i <= self.shapes@.len(),
                *self == *old(self),
                old(self).wf(),
                pos is None ==> forall|k: int|
                    0 <= k < i ==> (#[trigger] self.shapes@[k]).id != id,
                pos is Some ==> 0 <= pos->0 < self.shapes@.len() && self.shapes@[
                    pos->0 as int
                ].id == id && pos->0 == first_idx(self.shapes@, id),
            decreases self.shapes@.len() - i, (if pos is Some { 0int } else { 1int }),
        {
            if self.shapes[i].id == id {
                proof {
                    lemma_first_idx(self.shapes@, id);
                }
                pos = Some(i);
            } else {
                i = i + 1;
            }
        }
        match pos {
            Some(p) => {
                let mut sh = self.shapes.remove(p);
                sh.geometry = geometry;
                sh.dirty = true;
                self.shapes.insert(p, sh);
                self.dirty_shapes.insert(id);
                self.scene_dirty = true;
                proof {
                    assert(self.shapes@ =~= old(self).s().update(
                        p as int,
                        self.shapes@[p as int],
                    ));
                }
            },
            None => {
                proof {
                    lemma_first_idx(self.shapes@, id);
                }
            },
        }
    }

    /// The current selection, in selection order.
    pub fn selection(&self) -> (r: &Vec<u64>)
        ensures
            r@ == self.sel(),
    {
        &self.selection
    }

    /// Select a shape: appended to the selection if it exists and is not
    /// already selected.
    pub fn select(&mut self, id: u64)
        ensures
            ({
                if first_idx(old(self).s(), id) != -1 && !old(self).sel().contains(id) {
                    final(self).sel() == old(self).sel().push(id)
                } else {
                    final(self).sel() == old(self).sel()
                }
            }),
            final(self).s() == old(self).s(),
            final(self).dirty() == old(self).dirty(),
            final(self).scene_is_dirty() == old(self).scene_is_dirty(),
            final(self).next_id() == old(self).next_id(),
    {
        let found = match self.get_shape(id) {
            Some(_) => true,
            None => false,
        };
        proof {
            lemma_first_idx(self.shapes@, id);
        }
        if found && !slice_contains_id(self.selection.as_slice(), id) {
            self.selection.push(id);
        }
    }

    /// Select several shapes in order.
    pub fn select_multiple(&mut self, ids: &[u64])
        ensures
            final(self).s() == old(self).s(),
            final(self).dirty() == old(self).dirty(),
            final(self).scene_is_dirty() == old(self).scene_is_dirty(),
            final(self).next_id() == old(self).next_id(),
            forall|k: int|
                0 <= k < ids@.len() && first_idx(final(self).s(), #[trigger] ids@[k]) != -1
                    ==> final(self).sel().contains(ids@[k]),
    {
        let mut i: usize = 0;
        while i < ids.len()
            invariant
                0 <= i <= ids@.len(),
                self.s() == old(self).s(),
                self.dirty() == old(self).dirty(),
                self.scene_is_dirty() == old(self).scene_is_dirty(),
                self.next_id() == old(self).next_id(),
                forall|k: int|
                    0 <= k < i && first_idx(self.s(), #[trigger] ids@[k]) != -1
                        ==> self.sel().contains(ids@[k]),
            decreases ids@.len() - i,
        {
            let ghost selb = self.sel();
            self.select(ids[i]);
            proof {
                assert forall|x: u64| selb.contains(x) implies self.sel().contains(x) by {
                    let kx = choose|kx: int| 0 <= kx < selb.len() && selb[kx] == x;
                    assert(self.sel()[kx] == x);
                }
                if first_idx(self.s(), ids@[i as int]) != -1 {
                    if !selb.contains(ids@[i as int]) {
                        assert(self.sel().last() == ids@[i as int]);
                    }
                    assert(self.sel().contains(ids@[i as int]));
                }
            }
            i = i + 1;
        }
    }

    /// Remove a shape from the selection.
    pub fn deselect(&mut self, id: u64)
        ensures
            final(self).sel() == spec_without(old(self).sel(), id),
            final(self).s() == old(self).s(),
            final(self).dirty() == old(self).dirty(),
            final(self).scene_is_dirty() == old(self).scene_is_dirty(),
            final(self).next_id() == old(self).next_id(),
    {
        let mut newsel: Vec<u64> = Vec::new();
        let mut j: usize = 0;
        let ghost selb = self.selection@;
        proof {
            assert(selb.skip(0) =~= selb);
        }
        while j < self.selection.len()
            invariant
                0 <= j <= selb.len(),
                selb == self.selection@,
                self.shapes@ == old(self).s(),
                self.dirty_shapes@ == old(self).dirty(),
                self.scene_dirty == old(self).scene_is_dirty(),
                self.ids == old(self).ids,
                spec_without(selb, id) == newsel@ + spec_without(selb.skip(j as int), id),
            decreases selb.len() - j,
        {
            let ghost nb = newsel@;
            proof {
                assert(selb.skip(j as int)[0] == selb[j as int]);
                assert(selb.skip(j as int).drop_first() =~= selb.skip(j + 1));
            }
            let sid = self.selection[j];
            if sid != id {
                newsel.push(sid);
                proof {
                    assert(newsel@ =~= nb + seq![selb[j as int]]);
                    assert(newsel@ + spec_without(selb.skip(j + 1), id) =~= nb + (seq![
                        selb[j as int],
                    ] + spec_without(selb.skip(j + 1), id)));
                }
            }
            j = j + 1;
        }
        proof {
            assert(spec_without(selb.skip(selb.len() as int), id) =~= Seq::<u64>::empty());
            assert(newsel@ + Seq::<u64>::empty() =~= newsel@);
        }
        self.selection = newsel;
    }

    /// Empty the selection.
    pub fn clear_selection(&mut self)
        ensures
            final(self).sel().len() == 0,
            final(self).s() == old(self).s(),
            final(self).dirty() == old(self).dirty(),
            final(self).scene_is_dirty() == old(self).scene_is_dirty(),
            final(self).next_id() == old(self).next_id(),
    {
        self.selection.clear();
    }

    /// Whether a shape is selected.
    pub fn is_selected(&self, id: u64) -> (r: bool)
        ensures
            r == self.sel().contains(id),
    {
        slice_contains_id(self.selection.as_slice(), id)
    }

    /// The topmost shape whose world bounding box contains the point: the
    /// last-added shape wins when several overlap.
    #[verifier::rlimit(100)]
    pub fn hit_test(&self, point: Vec2) -> (r: Option<u64>)
        requires
            self.wf(),
        ensures
            r == spec_hit(self.s(), point),
    {
        let mut i: usize = self.shapes.len();
        proof {
            assert(self.s().take(self.s().len() as int) =~= self.s());
        }
        while i > 0
            invariant
                0 <= i <= self.shapes@.len(),
                self.wf(),
                spec_hit(self.s(), point) == spec_hit(self.s().take(i as int), point),
            decreases i,
        {
            i = i - 1;
            proof {
                assert(self.s().take(i + 1).last() == self.s()[i as int]);
                assert(self.s().take(i + 1).drop_last() =~= self.s().take(i as int));
            }
            if self.shapes[i].contains_point(point) {
                return Some(self.shapes[i].id);
            }
        }
        proof {
            assert(self.s().take(0) =~= Seq::<Shape>::empty());
        }
        None
    }

    /// The identifiers of the shapes whose world bounds intersect a box.
    #[verifier::rlimit(100)]
    pub fn query_rect(&self, rect: &BBox) -> (r: Vec<u64>)
        requires
            self.wf(),
        ensures
            r@ == spec_query(self.s(), *rect),
    {
        let mut out: Vec<u64> = Vec::new();
        let mut i: usize = 0;
        proof {
            assert(self.s().skip(0) =~= self.s());
        }
        while i < self.shapes.len()
            invariant
                0 <= i <= self.shapes@.len(),
                self.wf(),
                spec_query(self.s(), *rect) == out@ + spec_query(
                    self.s().skip(i as int),
                    *rect,
                ),
            decreases self.shapes@.len() - i,
        {
            let ghost ob = out@;
            proof {
                assert(self.s().skip(i as int)[0] == self.s()[i as int]);
                assert(self.s().skip(i as int).drop_first() =~= self.s().skip(i + 1));
            }
            let b = self.shapes[i].world_bounds();
            if b.intersects(rect) {
                out.push(self.shapes[i].id);
                proof {
                    assert(out@ =~= ob + seq![self.s()[i as int].id]);
                    assert(out@ + spec_query(self.s().skip(i + 1), *rect) =~= ob + (seq![
                        self.s()[i as int].id,
                    ] + spec_query(self.s().skip(i + 1), *rect)));
                }
            }
            i = i + 1;
        }
        proof {
            assert(spec_query(self.s().skip(self.s().len() as int), *rect) =~= Seq::<
                u64,
            >::empty());
            assert(out@ + Seq::<u64>::empty() =~= out@);
        }
        out
    }

    /// Move a shape to the top of the z-order.
    pub fn bring_to_front(&mut self, id: u64)
        requires
            old(self).wf(),
        ensures
            ({
                let i = first_idx(old(self).s(), id);
                if i == -1 {
                    *final(self) == *old(self)
                } else {
                    final(self).s() == old(self).s().remove(i).push(old(self).s()[i])
                        && final(self).scene_is_dirty()
                }
            }),
            final(self).dirty() == old(self).dirty(),
            final(self).sel() == old(self).sel(),
            final(self).next_id() == old(self).next_id(),
            final(self).wf(),
    {
        proof {
            lemma_first_idx(self.shapes@, id);
        }
        let mut i: usize = 0;
        while i < self.shapes.len()
            invariant
                0 <= i <= self.shapes@.len(),
                forall|k: int| 0 <= k < i ==> (#[trigger] self.shapes@[k]).id != id,
                *self == *old(self),
                old(self).wf(),
            decreases self.shapes@.len() - i,
        {
            if self.shapes[i].id == id {
                proof {
                    lemma_first_idx(self.shapes@, id);
                    old(self).s().remove_ensures(i as int);
                }
                let sh = self.shapes.remove(i);
                self.shapes.push(sh);
                self.scene_dirty = true;
                proof {
                    assert forall|kq: int| 0 <= kq < self.s().len() implies shape_ok(
                        #[trigger] self.s()[kq],
                    ) by {
                        assert(self.s()[kq] == old(self).s().remove(i as int).push(
                            old(self).s()[i as int],
                        )[kq]);
                        if kq < i {
                            assert(self.s()[kq] == old(self).s()[kq]);
                        } else if kq < self.s().len() - 1 {
                            assert(self.s()[kq] == old(self).s()[kq + 1]);
                        } else {
                            assert(self.s()[kq] == old(self).s()[i as int]);
                        }
                    }
                }
                return ;
            }
            i = i + 1;
        }
    }

    /// Move a shape to the bottom of the z-order.
    pub fn send_to_back(&mut self, id: u64)
        requires
            old(self).wf(),
        ensures
            ({
                let i = first_idx(old(self).s(), id);
                if i == -1 {
                    *final(self) == *old(self)
                } else {
                    final(self).s() == seq![old(self).s()[i]] + old(self).s().remove(i)
                        && final(self).scene_is_dirty()
                }
            }),
            final(self).dirty() == old(self).dirty(),
            final(self).sel() == old(self).sel(),
            final(self).next_id() == old(self).next_id(),
            final(self).wf(),
    {
        proof {
            lemma_first_idx(self.shapes@, id);
        }
        let mut i: usize = 0;
        while i < self.shapes.len()
            invariant
                0 <= i <= self.shapes@.len(),
                forall|k: int| 0 <= k < i ==> (#[trigger] self.shapes@[k]).id != id,
                *self == *old(self),
                old(self).wf(),
            decreases self.shapes@.len() - i,
        {
            if self.shapes[i].id == id {
                proof {
                    lemma_first_idx(self.shapes@, id);
                    old(self).s().remove_ensures(i as int);
                }
                let sh = self.shapes.remove(i);
                self.shapes.insert(0, sh);
                self.scene_dirty = true;
                proof {
                    assert(self.s() =~= seq![old(self).s()[i as int]] + old(self).s().remove(
                        i as int,
                    ));
                    assert forall|kq: int| 0 <= kq < self.s().len() implies shape_ok(
                        #[trigger] self.s()[kq],
                    ) by {
                        if kq == 0 {
                            assert(self.s()[kq] == old(self).s()[i as int]);
                        } else if kq <= i {
                            assert(self.s()[kq] == old(self).s()[kq - 1]);
                        } else {
                            assert(self.s()[kq] == old(self).s()[kq]);
                        }
                    }
                }
                return ;
            }
            i = i + 1;
        }
    }

    /// Swap a shape one place toward the top of the z-order.
    pub fn bring_forward(&mut self, id: u64)
        requires
            old(self).wf(),
        ensures
            ({
                let i = first_idx(old(self).s(), id);
                if i == -1 || i >= old(self).s().len() - 1 {
                    *final(self) == *old(self)
                } else {
                    final(self).s() == old(self).s().update(i, old(self).s()[i + 1]).update(
                        i + 1,
                        old(self).s()[i],
                    ) && final(self).scene_is_dirty()
                }
            }),
            final(self).dirty() == old(self).dirty(),
            final(self).sel() == old(self).sel(),
            final(self).next_id() == old(self).next_id(),
            final(self).wf(),
    {
        proof {
            lemma_first_idx(self.shapes@, id);
        }
        let mut i: usize = 0;
        while i < self.shapes.len()
            invariant
                0 <= i <= self.shapes@.len(),
                forall|k: int| 0 <= k < i ==> (#[trigger] self.shapes@[k]).id != id,
                *self == *old(self),
                old(self).wf(),
            decreases self.shapes@.len() - i,
        {
            if self.shapes[i].id == id {
                proof {
                    lemma_first_idx(self.shapes@, id);
                }
                if i < self.shapes.len() - 1 {
                    let a = self.shapes.remove(i);
                    self.shapes.insert(i + 1, a);
                    self.scene_dirty = true;
                    proof {
                        assert(self.s() =~= old(self).s().update(
                            i as int,
                            old(self).s()[i + 1],
                        ).update(i + 1, old(self).s()[i as int]));
                    }
                }
                return ;
            }
            i = i + 1;
        }
    }

    /// Swap a shape one place toward the bottom of the z-order.
    pub fn send_backward(&mut self, id: u64)
        requires
            old(self).wf(),
        ensures
            ({
                let i = first_idx(old(self).s(), id);
                if i == -1 || i == 0 {
                    *final(self) == *old(self)
                } else {
                    final(self).s() == old(self).s().update(i, old(self).s()[i - 1]).update(
                        i - 1,
                        old(self).s()[i],
                    ) && final(self).scene_is_dirty()
                }
            }),
            final(self).dirty() == old(self).dirty(),
            final(self).sel() == old(self).sel(),
            final(self).next_id() == old(self).next_id(),
            final(self).wf(),
    {
        proof {
            lemma_first_idx(self.shapes@, id);
        }
        let mut i: usize = 0;
        while i < self.shapes.len()
            invariant
                0 <= i <= self.shapes@.len(),
                forall|k: int| 0 <= k < i ==> (#[trigger] self.shapes@[k]).id != id,
                *self == *old(self),
                old(self).wf(),
            decreases self.shapes@.len() - i,
        {
            if self.shapes[i].id == id {
                proof {
                    lemma_first_idx(self.shapes@, id);
                }
                if i > 0 {
                    let a = self.shapes.remove(i);
                    self.shapes.insert(i - 1, a);
                    self.scene_dirty = true;
                    proof {
                        assert(self.s() =~= old(self).s().update(
                            i as int,
                            old(self).s()[i - 1],
                        ).update(i - 1, old(self).s()[i as int]));
                    }
                }
                return ;
            }
            i = i + 1;
        }
    }

    /// The union of the world bounds of the selected shapes, in selection
    /// order; `None` when no selected identifier names a shape.
    pub fn selection_bounds(&self) -> (r: Option<BBox>)
        requires
            self.wf(),
        ensures
            r == spec_selection_bounds(self.s(), self.sel()),
    {
        let mut acc: Option<BBox> = None;
        let mut j: usize = 0;
        proof {
            assert(self.sel().skip(0) =~= self.sel());
        }
        while j < self.selection.len()
            invariant
                0 <= j <= self.sel().len(),
                self.wf(),
                spec_selection_bounds(self.s(), self.sel()) == spec_sel_bounds_acc(
                    self.s(),
                    self.sel().skip(j as int),
                    acc,
                ),
            decreases self.sel().len() - j,
        {
            proof {
                assert(self.sel().skip(j as int)[0] == self.sel()[j as int]);
                assert(self.sel().skip(j as int).drop_first() =~= self.sel().skip(j + 1));
                lemma_first_idx(self.s(), self.sel()[j as int]);
            }
            let id = self.selection[j];
            match self.get_shape(id) {
                Some(sh) => {
                    let b = sh.world_bounds();
                    acc = match acc {
                        None => Some(b),
                        Some(a) => Some(a.union(&b)),
                    };
                },
                None => {},
            }
            j = j + 1;
        }
        proof {
            assert(self.sel().skip(self.sel().len() as int) =~= Seq::<u64>::empty());
        }
        acc
    }

    /// References to the selected shapes, in selection order; identifiers
    /// that name no shape are skipped.
    pub fn selected_shapes(&self) -> (r: Vec<&Shape>)
        ensures
            r@.len() == spec_selected(self.s(), self.sel()).len(),
            forall|k: int|
                0 <= k < r@.len() ==> *(#[trigger] r@[k]) == spec_selected(
                    self.s(),
                    self.sel(),
                )[k],
    {
        let mut r: Vec<&Shape> = Vec::new();
        let ghost mut picked: Seq<Shape> = Seq::empty();
        let mut j: usize = 0;
        proof {
            assert(self.sel().skip(0) =~= self.sel());
            assert(picked + spec_selected(self.s(), self.sel()) =~= spec_selected(
                self.s(),
                self.sel(),
            ));
        }
        while j < self.selection.len()
            invariant
                0 <= j <= self.sel().len(),
                r@.len() == picked.len(),
                forall|k: int| 0 <= k < r@.len() ==> *(#[trigger] r@[k]) == picked[k],
                spec_selected(self.s(), self.sel()) == picked + spec_selected(
                    self.s(),
                    self.sel().skip(j as int),
                ),
            decreases self.sel().len() - j,
        {
            let ghost pickedb = picked;
            proof {
                assert(self.sel().skip(j as int)[0] == self.sel()[j as int]);
                assert(self.sel().skip(j as int).drop_first() =~= self.sel().skip(j + 1));
                lemma_first_idx(self.s(), self.sel()[j as int]);
            }
            match self.get_shape(self.selection[j]) {
                Some(sh) => {
                    r.push(sh);
                    proof {
                        picked = picked.push(*sh);
                        assert(pickedb + (seq![*sh] + spec_selected(
                            self.s(),
                            self.sel().skip(j + 1),
                        )) =~= picked + spec_selected(self.s(), self.sel().skip(j + 1)));
                    }
                },
                None => {},
            }
            j = j + 1;
        }
        proof {
            assert(spec_selected(self.s(), self.sel().skip(self.sel().len() as int)) =~= Seq::<
                Shape,
            >::empty());
            assert(picked + Seq::<Shape>::empty() =~= picked);
        }
        r
    }

    /// Nudge every selected shape: move its position by the delta and
    /// multiply its scale by the factors, raising its dirty flag and
    /// recording it as dirty; the scene becomes dirty unless nothing is
    /// selected.
    pub fn transform_selection(&mut self, delta_position: Vec2, delta_scale: Vec2)
        requires
            old(self).wf(),
            crate::geom::vec2_ok(delta_position),
            crate::geom::vec2_ok(delta_scale),
        ensures
            final(self).s() == spec_transform_sel(
                old(self).s(),
                old(self).sel(),
                0,
                delta_position,
                delta_scale,
            ),
            final(self).sel() == old(self).sel(),
            forall|id: u64|
                old(self).dirty().contains(id) ==> final(self).dirty().contains(id),
            forall|k: int|
                0 <= k < old(self).sel().len() && first_idx(
                    old(self).s(),
                    #[trigger] old(self).sel()[k],
                ) != -1 ==> final(self).dirty().contains(old(self).sel()[k]),
            old(self).sel().len() > 0 ==> final(self).scene_is_dirty(),
            old(self).sel().len() == 0 ==> *final(self) == *old(self),
            final(self).next_id() == old(self).next_id(),
            final(self).wf(),
    {
        if self.selection.len() == 0 {
            return ;
        }
        let mut j: usize = 0;
        while j < self.selection.len()
            invariant
                0 <= j <= self.selection@.len(),
                self.selection@ == old(self).sel(),
                self.scene_dirty == old(self).scene_is_dirty(),
                self.ids == old(self).ids,
                crate::geom::vec2_ok(delta_position),
                crate::geom::vec2_ok(delta_scale),
                old(self).wf(),
                self.shapes@.len() == old(self).s().len(),
                forall|i: int|
                    0 <= i < self.shapes@.len() ==> (#[trigger] self.shapes@[i]).id == old(
                        self,
                    ).s()[i].id,
                forall|i: int| 0 <= i < self.shapes@.len() ==> shape_ok(#[trigger] self.shapes@[i]),
                spec_transform_sel(
                    old(self).s(),
                    old(self).sel(),
                    0,
                    delta_position,
                    delta_scale,
                ) == spec_transform_sel(
                    self.shapes@,
                    old(self).sel(),
                    j as int,
                    delta_position,
                    delta_scale,
                ),
                forall|id: u64|
                    old(self).dirty().contains(id) ==> self.dirty_shapes@.contains(id),
                forall|k: int|
                    0 <= k < j && first_idx(old(self).s(), #[trigger] old(self).sel()[k]) != -1
                        ==> self.dirty_shapes@.contains(old(self).sel()[k]),
            decreases self.selection@.len() - j,
        {
            let id = self.selection[j];
            let ghost shb = self.shapes@;
            nudge_first(&mut self.shapes, &mut self.dirty_shapes, id, delta_position, delta_scale);
            proof {
                lemma_first_idx_same_ids(old(self).s(), shb, id);
                assert(forall|i: int|
                    0 <= i < self.shapes@.len() ==> (#[trigger] self.shapes@[i]).id == shb[i].id);
            }
            j = j + 1;
        }
        if self.selection.len() > 0 {
            self.scene_dirty = true;
        }
    }

    /// Delete every selected shape, in selection order, through
    /// `remove_shape`; stale selected identifiers that name no shape are
    /// simply skipped.
    pub fn delete_selection(&mut self)
        requires
            old(self).wf(),
        ensures
            ({
                let t = spec_deleted(
                    old(self).s(),
                    old(self).dirty(),
                    old(self).sel(),
                    old(self).scene_is_dirty(),
                    old(self).sel(),
                    0,
                );
                final(self).s() == t.0 && final(self).dirty() == t.1 && final(self).sel() == t.2
                    && final(self).scene_is_dirty() == t.3
            }),
            final(self).next_id() == old(self).next_id(),
            final(self).wf(),
    {
        let mut ids: Vec<u64> = Vec::new();
        let mut j: usize = 0;
        while j < self.selection.len()
            invariant
                0 <= j <= self.selection@.len(),
                *self == *old(self),
                ids@ == old(self).sel().take(j as int),
            decreases self.selection@.len() - j,
        {
            ids.push(self.selection[j]);
            proof {
                assert(ids@ =~= old(self).sel().take(j + 1));
            }
            j = j + 1;
        }
        proof {
            assert(old(self).sel().take(old(self).sel().len() as int) =~= old(self).sel());
        }
        let mut k: usize = 0;
        while k < ids.len()
            invariant
                0 <= k <= ids@.len(),
                ids@ == old(self).sel(),
                self.wf(),
                self.next_id() == old(self).next_id(),
                spec_deleted(
                    old(self).s(),
                    old(self).dirty(),
                    old(self).sel(),
                    old(self).scene_is_dirty(),
                    ids@,
                    0,
                ) == spec_deleted(
                    self.s(),
                    self.dirty(),
                    self.sel(),
                    self.scene_is_dirty(),
                    ids@,
                    k as int,
                ),
            decreases ids@.len() - k,
        {
            let id = ids[k];
            self.remove_shape(id);
            k = k + 1;
        }
    }
}

/// Two shape lists with the same identifiers in the same places find any
/// identifier at the same first index.
proof fn lemma_first_idx_same_ids(a: Seq<Shape>, b: Seq<Shape>, id: u64)
    requires
        a.len() == b.len(),
        forall|i: int| 0 <= i < a.len() ==> (#[trigger] a[i]).id == b[i].id,
    ensures
        first_idx(a, id) == first_idx(b, id),
    decreases a.len(),
{
    if a.len() > 0 {
        assert(forall|i: int|
            0 <= i < a.len() - 1 ==> (#[trigger] a.drop_first()[i]).id == b.drop_first()[i].id);
        lemma_first_idx_same_ids(a.drop_first(), b.drop_first(), id);
    }
}

/// Nudge the first shape with an identifier: move its position by the
/// delta, multiply its scale by the factors, raise its dirty flag, and
/// record the identifier as dirty. No shape, no change.
fn nudge_first(shapes: &mut Vec<Shape>, dirty: &mut HashSet<u64>, id: u64, dp: Vec2, ds: Vec2)
    requires
        forall|i: int| 0 <= i < old(shapes)@.len() ==> shape_ok(#[trigger] old(shapes)@[i]),
        crate::geom::vec2_ok(dp),
        crate::geom::vec2_ok(ds),
    ensures
        final(shapes)@ == spec_nudged(old(shapes)@, id, dp, ds),
        final(shapes)@.len() == old(shapes)@.len(),
        forall|i: int|
            0 <= i < final(shapes)@.len() ==> (#[trigger] final(shapes)@[i]).id == old(
                shapes,
            )@[i].id,
        forall|i: int| 0 <= i < final(shapes)@.len() ==> shape_ok(#[trigger] final(shapes)@[i]),
        final(dirty)@ == if first_idx(old(shapes)@, id) == -1 {
            old(dirty)@
        } else {
            old(dirty)@.insert(id)
        },
{
    proof {
        lemma_first_idx(shapes@, id);
    }
    let mut i: usize = 0;
    let mut pos: Option<usize> = None;
    while i < shapes.len() && pos.is_none()
        invariant
            0 <= i <= shapes@.len(),
            shapes@ == old(shapes)@,
            dirty@ == old(dirty)@,
            forall|k: int| 0 <= k < shapes@.len() ==> shape_ok(#[trigger] shapes@[k]),
            pos is None ==> forall|k: int| 0 <= k < i ==> (#[trigger] shapes@[k]).id != id,
            pos is Some ==> 0 <= pos->0 < shapes@.len() && shapes@[pos->0 as int].id == id
                && pos->0 == first_idx(shapes@, id),
        decreases shapes@.len() - i, (if pos is Some {
            0int
        } else {
            1int
        }),
    {
        if shapes[i].id == id {
            proof {
                lemma_first_idx(shapes@, id);
            }
            pos = Some(i);
        } else {
            i = i + 1;
        }
    }
    match pos {
        Some(p) => {
            let mut sh = shapes.remove(p);
            let np = Vec2 {
                x: crate::fixed::fx_add(sh.transform.position.x, dp.x),
                y: crate::fixed::fx_add(sh.transform.position.y, dp.y),
            };
            let ns = Vec2 {
                x: crate::fixed::fx_mul(sh.transform.scale.x, ds.x),
                y: crate::fixed::fx_mul(sh.transform.scale.y, ds.y),
            };
            sh.transform = Transform2D { position: np, scale: ns, ..sh.transform };
            sh.dirty = true;
            shapes.insert(p, sh);
            dirty.insert(id);
            proof {
                assert(shapes@ =~= old(shapes)@.update(p as int, shapes@[p as int]));
            }
        },
        None => {
            proof {
                lemma_first_idx(shapes@, id);
            }
        },
    }
}

/// The union of the world bounds of the shapes the selection names,
/// folded in selection order over an accumulator.
pub open spec fn spec_sel_bounds_acc(s: Seq<Shape>, sel: Seq<u64>, acc: Option<BBox>) -> Option<
    BBox,
>
    decreases sel.len(),
{
    if sel.len() == 0 {
        acc
    } else {
        let i = first_idx(s, sel[0]);
        if i == -1 {
            spec_sel_bounds_acc(s, sel.drop_first(), acc)
        } else {
            let b = spec_world_bounds(s[i]);
            let acc2 = match acc {
                None => Some(b),
                Some(a) => Some(spec_bbox_union(a, b)),
            };
            spec_sel_bounds_acc(s, sel.drop_first(), acc2)
        }
    }
}

/// The union of the world bounds of the selected shapes.
pub open spec fn spec_selection_bounds(s: Seq<Shape>, sel: Seq<u64>) -> Option<BBox> {
    spec_sel_bounds_acc(s, sel, None)
}

/// Whether a slice of identifiers holds a value.
fn slice_contains_id(s: &[u64], x: u64) -> (r: bool)
    ensures
        r == s@.contains(x),
{
    let mut i: usize = 0;
    while i < s.len()
        invariant
            0 <= i <= s@.len(),
            forall|k: int| 0 <= k < i ==> s@[k] != x,
        decreases s@.len() - i,
    {
        if s[i] == x {
            return true;
        }
        i = i + 1;
    }
    false
}

impl Default for SceneGraph {
    /// A new, empty scene.
    fn default() -> (g: SceneGraph)
        ensures
            g.s().len() == 0,
            g.dirty() == Set::<u64>::empty(),
            g.scene_is_dirty(),
            g.sel().len() == 0,
            g.wf(),
    {
        SceneGraph::new()
    }
}

} // verus!
