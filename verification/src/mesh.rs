//! Triangle meshes: vertex/index buffers ready for a GPU backend.

use vstd::prelude::*;

verus! {

use crate::geom::{Vec2, vec2_ok};
use crate::color::Color;

/// One mesh vertex: a position and a color.
#[derive(Clone, Copy, Debug, PartialEq, Eq, Structural)]
pub struct Vertex {
    pub position: Vec2,
    pub color: Color,
}

impl Vertex {
    pub fn new(position: Vec2, color: Color) -> (v: Vertex)
        ensures
            v == (Vertex { position, color }),
    {
        Vertex { position, color }
    }
}

/// An indexed triangle list.
#[derive(Clone, Debug, PartialEq)]
pub struct Mesh {
    pub vertices: Vec<Vertex>,
    pub indices: Vec<u32>,
}

/// A mesh is well-formed when the indices come in whole triangles and every
/// index refers to an existing vertex.
pub open spec fn mesh_wf(m: Mesh) -> bool {
    &&& m.indices@.len() % 3 == 0
    &&& forall|i: int| 0 <= i < m.indices@.len() ==> (#[trigger] m.indices@[i]) < m.vertices@.len()
}

impl Mesh {
    pub fn new() -> (m: Mesh)
        ensures
            m.vertices@.len() == 0,
            m.indices@.len() == 0,
            mesh_wf(m),
    {
        Mesh { vertices: Vec::new(), indices: Vec::new() }
    }

    pub fn with_capacity(vertex_capacity: usize, index_capacity: usize) -> (m: Mesh)
        ensures
            m.vertices@.len() == 0,
            m.indices@.len() == 0,
            mesh_wf(m),
    {
        Mesh {
            vertices: Vec::with_capacity(vertex_capacity),
            indices: Vec::with_capacity(index_capacity),
        }
    }

    /// Append another mesh, rebasing its indices past this mesh's vertices.
    /// Afterwards the vertices are the concatenation, every old index is
    /// unchanged, every appended index is shifted by the old vertex count,
    /// and the result is again well-formed.
    pub fn extend(&mut self, other: &Mesh)
        requires
            mesh_wf(*old(self)),
            mesh_wf(*other),
            old(self).vertices@.len() + other.vertices@.len() <= u32::MAX,
        ensures
            final(self).vertices@ == old(self).vertices@ + other.vertices@,
            final(self).indices@.len() == old(self).indices@.len() + other.indices@.len(),
            forall|i: int|
                0 <= i < old(self).indices@.len() ==> final(self).indices@[i] == old(
                    self,
                ).indices@[i],
            forall|i: int|
                0 <= i < other.indices@.len() ==> final(self).indices@[old(self).indices@.len() + i]
                    == other.indices@[i] + old(self).vertices@.len(),
            mesh_wf(*final(self)),
    {
        let offset: u32 = self.vertices.len() as u32;
        let mut i: usize = 0;
        while i < other.vertices.len()
            invariant
                0 <= i <= other.vertices@.len(),
                self.vertices@ == old(self).vertices@ + other.vertices@.take(i as int),
                self.indices@ == old(self).indices@,
            decreases other.vertices@.len() - i,
        {
            self.vertices.push(other.vertices[i]);
            proof {
                assert(other.vertices@.take(i + 1) =~= other.vertices@.take(i as int).push(
                    other.vertices@[i as int],
                ));
                assert(self.vertices@ =~= old(self).vertices@ + other.vertices@.take(i + 1));
            }
            i = i + 1;
        }
        proof {
            assert(other.vertices@.take(other.vertices@.len() as int) =~= other.vertices@);
        }
        let mut j: usize = 0;
        while j < other.indices.len()
            invariant
                0 <= j <= other.indices@.len(),
                offset == old(self).vertices@.len(),
                mesh_wf(*old(self)),
                mesh_wf(*other),
                old(self).vertices@.len() + other.vertices@.len() <= u32::MAX,
                self.vertices@ == old(self).vertices@ + other.vertices@,
                self.indices@.len() == old(self).indices@.len() + j,
                forall|k: int|
                    0 <= k < old(self).indices@.len() ==> self.indices@[k] == old(
                        self,
                    ).indices@[k],
                forall|k: int|
                    0 <= k < j ==> self.indices@[old(self).indices@.len() + k]
                        == other.indices@[k] + old(self).vertices@.len(),
            decreases other.indices@.len() - j,
        {
            let idx = other.indices[j];
            self.indices.push(idx + offset);
            j = j + 1;
        }
        proof {
            let a = old(self).indices@.len() as int;
            let b = other.indices@.len() as int;
            assert((a + b) % 3 == 0) by (nonlinear_arith)
                requires
                    a % 3 == 0,
                    b % 3 == 0,
            ;
            assert forall|i2: int|
                0 <= i2 < self.indices@.len() implies (#[trigger] self.indices@[i2])
                < self.vertices@.len() by {
                if i2 >= old(self).indices@.len() {
                    let k = i2 - old(self).indices@.len();
                    assert(self.indices@[old(self).indices@.len() + k] == other.indices@[k] + old(
                        self,
                    ).vertices@.len());
                }
            }
        }
    }

    /// Drop all vertices and indices.
    pub fn clear(&mut self)
        ensures
            final(self).vertices@.len() == 0,
            final(self).indices@.len() == 0,
            mesh_wf(*final(self)),
    {
        self.vertices.clear();
        self.indices.clear();
    }

    /// A mesh with no vertices renders nothing.
    pub fn is_empty(&self) -> (r: bool)
        ensures
            r == (self.vertices@.len() == 0),
    {
        self.vertices.len() == 0
    }
}

/// Every vertex position of a mesh lies inside a bounding box.
pub open spec fn mesh_within(m: Mesh, b: crate::geom::BBox) -> bool {
    forall|i: int|
        0 <= i < m.vertices@.len() ==> crate::geom::bbox_contains(
            b,
            (#[trigger] m.vertices@[i]).position,
        )
}

/// Every vertex position of a mesh is a representable point.
pub open spec fn mesh_vertices_ok(m: Mesh) -> bool {
    forall|i: int| 0 <= i < m.vertices@.len() ==> vec2_ok((#[trigger] m.vertices@[i]).position)
}

} // verus!
