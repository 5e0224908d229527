//! Triangle meshes.

use vstd::prelude::*;

use crate::float_bits::ONE;
use crate::geometry::{Point, Rect};

verus! {

/// A vertex of a mesh.
#[derive(Debug, Clone, Copy)]
pub struct TessVertex {
    /// Position.
    pub position: [u32; 2],
    /// Texture coordinates.
    pub uv: [u32; 2],
}

impl TessVertex {
    /// A vertex with texture coordinates.
    pub fn new(x: u32, y: u32, u: u32, v: u32) -> (r: TessVertex)
        ensures
            r.position@ == seq![x, y],
            r.uv@ == seq![u, v],
    {
        let r = TessVertex { position: [x, y], uv: [u, v] };
        assert(r.position@ =~= seq![x, y]);
        assert(r.uv@ =~= seq![u, v]);
        r
    }

    /// A vertex without texture coordinates.
    pub fn from_point(p: Point) -> (r: TessVertex)
        ensures
            r.position@ == seq![p.x, p.y],
            r.uv@ == seq![0u32, 0],
    {
        TessVertex::new(p.x, p.y, 0, 0)
    }
}

/// The number of a vertex.
pub type TessIndex = u32;

/// A mesh: vertices, and three numbers of vertices for each triangle.
#[derive(Debug)]
pub struct TessMesh {
    /// The vertices.
    pub vertices: Vec<TessVertex>,
    /// The corners of the triangles.
    pub indices: Vec<TessIndex>,
}

/// Whether vertices stand at points, and have no texture coordinates.
pub open spec fn stand_at(vs: Seq<TessVertex>, ps: Seq<Point>) -> bool {
    &&& vs.len() == ps.len()
    &&& forall|i: int|
        0 <= i < vs.len() ==> (#[trigger] vs[i]).position@ == seq![ps[i].x, ps[i].y] && vs[i].uv@
            == seq![0u32, 0]
}

impl TessMesh {
    /// Whether every corner is a vertex of the mesh, and the corners make whole
    /// triangles.
    pub open spec fn valid(self) -> bool {
        &&& self.indices@.len() % 3 == 0
        &&& forall|i: int|
            0 <= i < self.indices@.len() ==> (#[trigger] self.indices@[i]) < self.vertices@.len()
    }

    /// An empty mesh.
    pub fn new() -> (r: TessMesh)
        ensures
            r.vertices@ == Seq::<TessVertex>::empty(),
            r.indices@ == Seq::<u32>::empty(),
            r.valid(),
    {
        TessMesh { vertices: Vec::new(), indices: Vec::new() }
    }

    /// An empty mesh with room for vertices and corners.
    pub fn with_capacity(vertex_capacity: usize, index_capacity: usize) -> (r: TessMesh)
        ensures
            r.vertices@ == Seq::<TessVertex>::empty(),
            r.indices@ == Seq::<u32>::empty(),
            r.valid(),
    {
        TessMesh {
            vertices: Vec::with_capacity(vertex_capacity),
            indices: Vec::with_capacity(index_capacity),
        }
    }

    /// Removes everything.
    pub fn clear(&mut self)
        ensures
            final(self).vertices@ == Seq::<TessVertex>::empty(),
            final(self).indices@ == Seq::<u32>::empty(),
    {
        self.vertices.clear();
        self.indices.clear();
    }

    /// Whether there are no vertices or no triangles.
    pub fn is_empty(&self) -> (r: bool)
        ensures
            r == (self.vertices@.len() == 0 || self.indices@.len() == 0),
    {
        self.vertices.len() == 0 || self.indices.len() == 0
    }

    /// The number of triangles.
    pub fn triangle_count(&self) -> (n: usize)
        ensures
            n == self.indices@.len() / 3,
    {
        self.indices.len() / 3
    }

    /// Adds a vertex and returns its number.
    pub fn add_vertex(&mut self, vertex: TessVertex) -> (r: TessIndex)
        requires
            old(self).vertices@.len() <= u32::MAX,
        ensures
            r == old(self).vertices@.len(),
            final(self).vertices@ == old(self).vertices@.push(vertex),
            final(self).indices@ == old(self).indices@,
            old(self).valid() ==> final(self).valid(),
    {
        let idx: u32 = self.vertices.len() as u32;
        self.vertices.push(vertex);
        idx
    }

    /// Adds a triangle.
    pub fn add_triangle(&mut self, a: TessIndex, b: TessIndex, c: TessIndex)
        ensures
            final(self).vertices@ == old(self).vertices@,
            final(self).indices@ == old(self).indices@ + seq![a, b, c],
            old(self).valid() && a < old(self).vertices@.len() && b < old(self).vertices@.len()
                && c < old(self).vertices@.len() ==> final(self).valid(),
    {
        self.indices.push(a);
        self.indices.push(b);
        self.indices.push(c);
        assert(self.indices@ =~= old(self).indices@ + seq![a, b, c]);
    }

    /// Adds the vertices and triangles of another mesh.
    pub fn merge(&mut self, other: &TessMesh)
        requires
            old(self).vertices@.len() <= u32::MAX,
            forall|i: int|
                0 <= i < other.indices@.len() ==> #[trigger] other.indices@[i] + old(self).vertices@.len() <= u32::MAX,
        ensures
            final(self).vertices@ == old(self).vertices@ + other.vertices@,
            final(self).indices@ == old(self).indices@ + Seq::new(
                other.indices@.len(),
                |i: int| (other.indices@[i] + old(self).vertices@.len()) as u32,
            ),
            old(self).valid() && other.valid() ==> final(self).valid(),
    {
        let base: u32 = self.vertices.len() as u32;
        let ghost vs = self.vertices@;
        let ghost ix = self.indices@;
        let mut i: usize = 0;
        assert(other.vertices@.take(0) =~= Seq::empty());
        assert(vs + other.vertices@.take(0) =~= vs);
        while i < other.vertices.len()
            invariant
                i <= other.vertices@.len(),
                self.vertices@ == vs + other.vertices@.take(i as int),
                self.indices@ == ix,
            decreases other.vertices@.len() - i,
        {
            self.vertices.push(other.vertices[i]);
            assert(self.vertices@ =~= vs + other.vertices@.take(i + 1));
            i = i + 1;
        }
        assert(other.vertices@.take(i as int) =~= other.vertices@);
        let mut k: usize = 0;
        while k < other.indices.len()
            invariant
                k <= other.indices@.len(),
                base == vs.len(),
                forall|i: int|
                    0 <= i < other.indices@.len() ==> #[trigger] other.indices@[i] + vs.len()
                        <= u32::MAX,
                self.vertices@ == vs + other.vertices@,
                self.indices@.len() == ix.len() + k,
                forall|j: int| 0 <= j < ix.len() ==> #[trigger] self.indices@[j] == ix[j],
                forall|j: int|
                    ix.len() <= j < self.indices@.len() ==> #[trigger] self.indices@[j]
                        == other.indices@[j - ix.len()] + vs.len(),
            decreases other.indices@.len() - k,
        {
            assert(other.indices@[k as int] + vs.len() <= u32::MAX);
            self.indices.push(other.indices[k] + base);
            k = k + 1;
        }
        assert(self.indices@ =~= ix + Seq::new(
            other.indices@.len(),
            |i: int| (other.indices@[i] + vs.len()) as u32,
        ));
    }

    /// Adds two triangles that make up a quadrilateral.
    pub fn emit_quad(&mut self, a: Point, b: Point, c: Point, d: Point)
        requires
            old(self).vertices@.len() + 4 <= u32::MAX,
        ensures
            final(self).vertices@.len() == old(self).vertices@.len() + 4,
            final(self).vertices@.take(old(self).vertices@.len() as int) == old(self).vertices@,
            stand_at(
                final(self).vertices@.skip(old(self).vertices@.len() as int),
                seq![a, b, c, d],
            ),
            ({
                let n = old(self).vertices@.len() as u32;
                final(self).indices@ == old(self).indices@ + seq![
                    n,
                    (n + 1) as u32,
                    (n + 2) as u32,
                    n,
                    (n + 2) as u32,
                    (n + 3) as u32,
                ]
            }),
            old(self).valid() ==> final(self).valid(),
    {
        let ghost before = self.vertices@;
        let ia: u32 = self.add_vertex(TessVertex::from_point(a));
        let ib: u32 = self.add_vertex(TessVertex::from_point(b));
        let ic: u32 = self.add_vertex(TessVertex::from_point(c));
        let id: u32 = self.add_vertex(TessVertex::from_point(d));
        self.add_triangle(ia, ib, ic);
        self.add_triangle(ia, ic, id);
        assert(self.vertices@.take(before.len() as int) =~= before);
        assert(self.indices@ =~= old(self).indices@ + seq![ia, ib, ic, ia, ic, id]);
    }

    /// Adds a triangle.
    pub fn emit_tri(&mut self, a: Point, b: Point, c: Point)
        requires
            old(self).vertices@.len() + 3 <= u32::MAX,
        ensures
            final(self).vertices@.len() == old(self).vertices@.len() + 3,
            final(self).vertices@.take(old(self).vertices@.len() as int) == old(self).vertices@,
            stand_at(
                final(self).vertices@.skip(old(self).vertices@.len() as int),
                seq![a, b, c],
            ),
            ({
                let n = old(self).vertices@.len() as u32;
                final(self).indices@ == old(self).indices@ + seq![
                    n,
                    (n + 1) as u32,
                    (n + 2) as u32,
                ]
            }),
            old(self).valid() ==> final(self).valid(),
    {
        let ghost before = self.vertices@;
        let ia: u32 = self.add_vertex(TessVertex::from_point(a));
        let ib: u32 = self.add_vertex(TessVertex::from_point(b));
        let ic: u32 = self.add_vertex(TessVertex::from_point(c));
        self.add_triangle(ia, ib, ic);
        assert(self.vertices@.take(before.len() as int) =~= before);
    }

    /// Adds the triangles between a center and each two neighbors on a ring.
    pub fn add_fan(&mut self, center: TessIndex, ring: &Vec<TessIndex>)
        ensures
            final(self).vertices@ == old(self).vertices@,
            final(self).indices@ == old(self).indices@ + fan_of(center, ring@, ring@.len()),
    {
        let n: usize = ring.len();
        let mut i: usize = 0;
        assert(self.indices@ =~= old(self).indices@ + fan_of(center, ring@, 0));
        while i < n
            invariant
                n == ring@.len(),
                i <= n,
                self.vertices@ == old(self).vertices@,
                self.indices@ == old(self).indices@ + fan_of(center, ring@, i as nat),
            decreases n - i,
        {
            let next: usize = if i + 1 < n {
                i + 1
            } else {
                0
            };
            self.add_triangle(center, ring[i], ring[next]);
            assert(self.indices@ =~= old(self).indices@ + fan_of(center, ring@, (i + 1) as nat));
            i = i + 1;
        }
    }
}

/// The corners of the first `n` triangles of a fan.
pub open spec fn fan_of(center: u32, ring: Seq<u32>, n: nat) -> Seq<u32>
    decreases n,
{
    if n == 0 {
        Seq::empty()
    } else {
        let next = if n < ring.len() {
            ring[n as int]
        } else {
            ring[0]
        };
        fan_of(center, ring, (n - 1) as nat) + seq![center, ring[n - 1], next]
    }
}

impl Default for TessMesh {
    fn default() -> (r: TessMesh)
        ensures
            r.vertices@ == Seq::<TessVertex>::empty(),
            r.indices@ == Seq::<u32>::empty(),
    {
        TessMesh::new()
    }
}

/// The mesh of a rectangle: two triangles whose texture coordinates run from
/// zero to one.
pub fn tessellate_rect(rect: Rect) -> (r: TessMesh)
    ensures
        r.vertices@.len() == 4,
        r.vertices@[0].position@ == seq![rect.left, rect.top] && r.vertices@[0].uv@ == seq![0u32, 0],
        r.vertices@[1].position@ == seq![rect.right, rect.top] && r.vertices@[1].uv@ == seq![
            ONE,
            0,
        ],
        r.vertices@[2].position@ == seq![rect.right, rect.bottom] && r.vertices@[2].uv@ == seq![
            ONE,
            ONE,
        ],
        r.vertices@[3].position@ == seq![rect.left, rect.bottom] && r.vertices@[3].uv@ == seq![
            0u32,
            ONE,
        ],
        r.indices@ == seq![0u32, 1, 2, 0, 2, 3],
        r.valid(),
{
    let mut mesh = TessMesh::with_capacity(4, 6);
    let v0: u32 = mesh.add_vertex(TessVertex::new(rect.left, rect.top, 0, 0));
    let v1: u32 = mesh.add_vertex(TessVertex::new(rect.right, rect.top, ONE, 0));
    let v2: u32 = mesh.add_vertex(TessVertex::new(rect.right, rect.bottom, ONE, ONE));
    let v3: u32 = mesh.add_vertex(TessVertex::new(rect.left, rect.bottom, 0, ONE));
    mesh.add_triangle(v0, v1, v2);
    mesh.add_triangle(v0, v2, v3);
    assert(mesh.indices@ =~= seq![0u32, 1, 2, 0, 2, 3]);
    mesh
}

} // verus!
