//! Mesh buffers: vertex positions, normals, texture coordinates and a
//! triangle index list, built quad by quad and joined into larger buffers.
//!
//! All coordinates are whole numbers: every vertex of a voxel surface lies on
//! the voxel grid.

use vstd::prelude::*;

verus! {

/// A point or direction on the voxel grid.
#[derive(Debug, Copy, Clone, PartialEq, Eq, Hash, Structural)]
pub struct Vec3i {
    pub x: i64,
    pub y: i64,
    pub z: i64,
}

/// A texture coordinate; both parts are 0 or 1 for the corners of a texture.
#[derive(Debug, Copy, Clone, PartialEq, Eq, Hash, Structural)]
pub struct Vec2i {
    pub x: i64,
    pub y: i64,
}

/// The six directions that the faces of a voxel look in.
#[derive(Debug, Copy, Clone, PartialEq, Eq, Hash, Structural)]
pub enum FaceDirection {
    /// +x
    Right,
    /// +y
    Top,
    /// +z
    Front,
    /// -x
    Left,
    /// -y
    Bottom,
    /// -z
    Back,
}

/// One rectangular face: the face `face` of the box that spans `size` from
/// `offset`.
#[derive(Debug, Copy, Clone, PartialEq, Eq, Structural)]
pub struct Quad {
    pub face: FaceDirection,
    pub offset: Vec3i,
    pub size: Vec3i,
}

/// Vertex positions, per-vertex normals and texture coordinates, and the
/// triangles over them, three indices each.
#[derive(Debug, Clone)]
pub struct MeshData {
    pub positions: Vec<Vec3i>,
    pub indices: Vec<u32>,
    pub normals: Vec<Vec3i>,
    pub uvs: Vec<Vec2i>,
}

/// What a mesh buffer holds, as sequences.
pub struct MeshView {
    pub positions: Seq<Vec3i>,
    pub indices: Seq<u32>,
    pub normals: Seq<Vec3i>,
    pub uvs: Seq<Vec2i>,
}

impl View for MeshData {
    type V = MeshView;

    open spec fn view(&self) -> MeshView {
        MeshView {
            positions: self.positions@,
            indices: self.indices@,
            normals: self.normals@,
            uvs: self.uvs@,
        }
    }
}

/// The corners of the unit cube, numbered 0 to 7: corners 0 to 3 run round
/// the front face (z = 1), corners 4 to 7 round the back face (z = 0).
pub open spec fn cube_corner(i: int) -> Vec3i {
    if i == 0 {
        Vec3i { x: 1, y: 1, z: 1 }
    } else if i == 1 {
        Vec3i { x: 0, y: 1, z: 1 }
    } else if i == 2 {
        Vec3i { x: 0, y: 0, z: 1 }
    } else if i == 3 {
        Vec3i { x: 1, y: 0, z: 1 }
    } else if i == 4 {
        Vec3i { x: 0, y: 1, z: 0 }
    } else if i == 5 {
        Vec3i { x: 1, y: 1, z: 0 }
    } else if i == 6 {
        Vec3i { x: 1, y: 0, z: 0 }
    } else {
        Vec3i { x: 0, y: 0, z: 0 }
    }
}

/// The cube corner that is vertex `k` (0 to 3) of the face `face`, going
/// round the face counter-clockwise as seen from outside the cube.
pub open spec fn face_corner_index(face: FaceDirection, k: int) -> int {
    match face {
        FaceDirection::Front => if k == 0 {
            0
        } else if k == 1 {
            1
        } else if k == 2 {
            2
        } else {
            3
        },
        FaceDirection::Back => if k == 0 {
            4
        } else if k == 1 {
            5
        } else if k == 2 {
            6
        } else {
            7
        },
        FaceDirection::Left => if k == 0 {
            1
        } else if k == 1 {
            4
        } else if k == 2 {
            7
        } else {
            2
        },
        FaceDirection::Right => if k == 0 {
            5
        } else if k == 1 {
            0
        } else if k == 2 {
            3
        } else {
            6
        },
        FaceDirection::Top => if k == 0 {
            5
        } else if k == 1 {
            4
        } else if k == 2 {
            1
        } else {
            0
        },
        FaceDirection::Bottom => if k == 0 {
            7
        } else if k == 1 {
            6
        } else if k == 2 {
            3
        } else {
            2
        },
    }
}

/// The unit vector that points out of the face `face`.
pub open spec fn face_normal(face: FaceDirection) -> Vec3i {
    match face {
        FaceDirection::Right => Vec3i { x: 1, y: 0, z: 0 },
        FaceDirection::Top => Vec3i { x: 0, y: 1, z: 0 },
        FaceDirection::Front => Vec3i { x: 0, y: 0, z: 1 },
        FaceDirection::Left => Vec3i { x: -1i64, y: 0, z: 0 },
        FaceDirection::Bottom => Vec3i { x: 0, y: -1i64, z: 0 },
        FaceDirection::Back => Vec3i { x: 0, y: 0, z: -1i64 },
    }
}

/// The texture corner of vertex `k` (0 to 3) of a face.
pub open spec fn corner_uv(k: int) -> Vec2i {
    if k == 0 {
        Vec2i { x: 1, y: 0 }
    } else if k == 1 {
        Vec2i { x: 0, y: 0 }
    } else if k == 2 {
        Vec2i { x: 0, y: 1 }
    } else {
        Vec2i { x: 1, y: 1 }
    }
}

/// One coordinate of a quad's vertex: the box's near side where the cube
/// corner has 0, its far side where the corner has 1.
pub open spec fn scaled(corner: i64, size: i64, offset: i64) -> int {
    corner * size + offset
}

/// Position of vertex `k` (0 to 3) of the quad `q`: the cube corner scaled
/// by the quad's size and moved by its offset.
pub open spec fn quad_vertex(q: Quad, k: int) -> Vec3i {
    let c = cube_corner(face_corner_index(q.face, k));
    Vec3i {
        x: scaled(c.x, q.size.x, q.offset.x) as i64,
        y: scaled(c.y, q.size.y, q.offset.y) as i64,
        z: scaled(c.z, q.size.z, q.offset.z) as i64,
    }
}

/// Whether every vertex coordinate of `q` can be represented.
pub open spec fn quad_fits(q: Quad) -> bool {
    &&& i64::MIN <= q.offset.x + q.size.x <= i64::MAX
    &&& i64::MIN <= q.offset.y + q.size.y <= i64::MAX
    &&& i64::MIN <= q.offset.z + q.size.z <= i64::MAX
}

/// The empty mesh.
pub open spec fn empty_mesh() -> MeshView {
    MeshView { positions: Seq::empty(), indices: Seq::empty(), normals: Seq::empty(), uvs: Seq::empty() }
}

/// The mesh `m` with the quad `q` added: four vertices, each with the face's
/// normal and its texture corner, and two counter-clockwise triangles over
/// them, (0, 1, 2) and (2, 3, 0) counted from the first new vertex.
pub open spec fn push_quad(m: MeshView, q: Quad) -> MeshView {
    let start = m.positions.len() as u32;
    let n = face_normal(q.face);
    MeshView {
        positions: m.positions.push(quad_vertex(q, 0)).push(quad_vertex(q, 1)).push(
            quad_vertex(q, 2),
        ).push(quad_vertex(q, 3)),
        normals: m.normals.push(n).push(n).push(n).push(n),
        uvs: m.uvs.push(corner_uv(0)).push(corner_uv(1)).push(corner_uv(2)).push(corner_uv(3)),
        indices: m.indices.push(start).push((start + 1) as u32).push((start + 2) as u32).push(
            (start + 2) as u32,
        ).push((start + 3) as u32).push(start),
    }
}

/// The mesh that holds the quads of `quads`, in their order.
pub open spec fn quads_mesh(quads: Seq<Quad>) -> MeshView
    decreases quads.len(),
{
    if quads.len() == 0 {
        empty_mesh()
    } else {
        push_quad(quads_mesh(quads.drop_last()), quads.last())
    }
}

/// Whether the buffers of `m` agree with each other: one normal and one
/// texture coordinate per vertex, whole triangles, and every index names a
/// vertex.
pub open spec fn well_formed(m: MeshView) -> bool {
    &&& m.normals.len() == m.positions.len()
    &&& m.uvs.len() == m.positions.len()
    &&& m.indices.len() % 3 == 0
    &&& forall|i: int| 0 <= i < m.indices.len() ==> (#[trigger] m.indices[i]) < m.positions.len()
}

/// The mesh `a` followed by the mesh `b`, whose indices are moved up by the
/// number of vertices of `a` so that they name the same vertices as before.
pub open spec fn append_mesh(a: MeshView, b: MeshView) -> MeshView {
    MeshView {
        positions: a.positions + b.positions,
        normals: a.normals + b.normals,
        uvs: a.uvs + b.uvs,
        indices: a.indices + Seq::new(
            b.indices.len(),
            |i: int| (b.indices[i] + a.positions.len()) as u32,
        ),
    }
}

/// The meshes of `ms` joined in order into one.
pub open spec fn combine(ms: Seq<MeshView>) -> MeshView
    decreases ms.len(),
{
    if ms.len() == 0 {
        empty_mesh()
    } else {
        append_mesh(combine(ms.drop_last()), ms.last())
    }
}

/// The number of vertices of all meshes of `ms` together.
pub open spec fn total_vertices(ms: Seq<MeshView>) -> nat
    decreases ms.len(),
{
    if ms.len() == 0 {
        0
    } else {
        total_vertices(ms.drop_last()) + ms.last().positions.len()
    }
}

/// The number of indices of all meshes of `ms` together.
pub open spec fn total_indices(ms: Seq<MeshView>) -> nat
    decreases ms.len(),
{
    if ms.len() == 0 {
        0
    } else {
        total_indices(ms.drop_last()) + ms.last().indices.len()
    }
}

/// Whether the meshes of `ms` can be joined with 32-bit indices: the vertex
/// count stays within `u32`, and so does every index once it is moved up by
/// the number of vertices before its mesh.
pub open spec fn combinable(ms: Seq<MeshView>) -> bool
    decreases ms.len(),
{
    ms.len() == 0 || {
        &&& combinable(ms.drop_last())
        &&& total_vertices(ms) <= u32::MAX
        &&& forall|i: int|
            0 <= i < ms.last().indices.len() ==> (#[trigger] ms.last().indices[i])
                + total_vertices(ms.drop_last()) <= u32::MAX
    }
}

/// The views of a slice of meshes.
pub open spec fn views(meshes: Seq<MeshData>) -> Seq<MeshView> {
    Seq::new(meshes.len(), |i: int| meshes[i]@)
}

/// The vector from `from` to `to`.
pub open spec fn edge(from: Vec3i, to: Vec3i) -> (int, int, int) {
    (to.x - from.x, to.y - from.y, to.z - from.z)
}

/// The cross product of two vectors.
pub open spec fn cross(a: (int, int, int), b: (int, int, int)) -> (int, int, int) {
    (a.1 * b.2 - a.2 * b.1, a.2 * b.0 - a.0 * b.2, a.0 * b.1 - a.1 * b.0)
}

/// The area of the quad `q`: the product of its two sizes across its face.
pub open spec fn quad_area(q: Quad) -> int {
    match q.face {
        FaceDirection::Right | FaceDirection::Left => q.size.y * q.size.z,
        FaceDirection::Top | FaceDirection::Bottom => q.size.x * q.size.z,
        FaceDirection::Front | FaceDirection::Back => q.size.x * q.size.y,
    }
}

/// The normal of the quad `q` with the area of the quad as its length.
pub open spec fn outward(q: Quad) -> (int, int, int) {
    match q.face {
        FaceDirection::Right => (quad_area(q), 0, 0),
        FaceDirection::Top => (0, quad_area(q), 0),
        FaceDirection::Front => (0, 0, quad_area(q)),
        FaceDirection::Left => (-quad_area(q), 0, 0),
        FaceDirection::Bottom => (0, -quad_area(q), 0),
        FaceDirection::Back => (0, 0, -quad_area(q)),
    }
}

/// Both triangles of a quad run counter-clockwise as seen from outside: the
/// cross product of the edges from the first vertex of a triangle to its
/// second and to its third points along the face's normal, with the area of
/// the quad as its length.
pub proof fn lemma_quad_winding(q: Quad)
    requires
        quad_fits(q),
    ensures
        cross(edge(quad_vertex(q, 0), quad_vertex(q, 1)), edge(quad_vertex(q, 0), quad_vertex(q, 2)))
            == outward(q),
        cross(edge(quad_vertex(q, 2), quad_vertex(q, 3)), edge(quad_vertex(q, 2), quad_vertex(q, 0)))
            == outward(q),
{
    let sx = q.size.x as int;
    let sy = q.size.y as int;
    let sz = q.size.z as int;
    let v0 = quad_vertex(q, 0);
    let v1 = quad_vertex(q, 1);
    let v2 = quad_vertex(q, 2);
    let v3 = quad_vertex(q, 3);
    assert(scaled(0, q.size.x, q.offset.x) == q.offset.x);
    assert(scaled(1, q.size.x, q.offset.x) == q.offset.x + sx);
    assert(scaled(0, q.size.y, q.offset.y) == q.offset.y);
    assert(scaled(1, q.size.y, q.offset.y) == q.offset.y + sy);
    assert(scaled(0, q.size.z, q.offset.z) == q.offset.z);
    assert(scaled(1, q.size.z, q.offset.z) == q.offset.z + sz);
    match q.face {
        FaceDirection::Right => {
            assert(edge(v0, v1) == (0int, 0int, sz));
            assert(edge(v0, v2) == (0int, -sy, sz));
            assert(0int * sz - sz * (-sy) == sy * sz
                && sz * 0int - 0int * sz == 0int
                && 0int * (-sy) - 0int * 0int == 0int) by (nonlinear_arith);
            assert(cross((0int, 0int, sz), (0int, -sy, sz)) == outward(q));
            assert(edge(v2, v3) == (0int, 0int, -sz));
            assert(edge(v2, v0) == (0int, sy, -sz));
            assert(0int * (-sz) - (-sz) * sy == sy * sz
                && (-sz) * 0int - 0int * (-sz) == 0int
                && 0int * sy - 0int * 0int == 0int) by (nonlinear_arith);
            assert(cross((0int, 0int, -sz), (0int, sy, -sz)) == outward(q));
        },
        FaceDirection::Top => {
            assert(edge(v0, v1) == (-sx, 0int, 0int));
            assert(edge(v0, v2) == (-sx, 0int, sz));
            assert(0int * sz - 0int * 0int == 0int
                && 0int * (-sx) - (-sx) * sz == sx * sz
                && (-sx) * 0int - 0int * (-sx) == 0int) by (nonlinear_arith);
            assert(cross((-sx, 0int, 0int), (-sx, 0int, sz)) == outward(q));
            assert(edge(v2, v3) == (sx, 0int, 0int));
            assert(edge(v2, v0) == (sx, 0int, -sz));
            assert(0int * (-sz) - 0int * 0int == 0int
                && 0int * sx - sx * (-sz) == sx * sz
                && sx * 0int - 0int * sx == 0int) by (nonlinear_arith);
            assert(cross((sx, 0int, 0int), (sx, 0int, -sz)) == outward(q));
        },
        FaceDirection::Front => {
            assert(edge(v0, v1) == (-sx, 0int, 0int));
            assert(edge(v0, v2) == (-sx, -sy, 0int));
            assert(0int * 0int - 0int * (-sy) == 0int
                && 0int * (-sx) - (-sx) * 0int == 0int
                && (-sx) * (-sy) - 0int * (-sx) == sx * sy) by (nonlinear_arith);
            assert(cross((-sx, 0int, 0int), (-sx, -sy, 0int)) == outward(q));
            assert(edge(v2, v3) == (sx, 0int, 0int));
            assert(edge(v2, v0) == (sx, sy, 0int));
            assert(0int * 0int - 0int * sy == 0int
                && 0int * sx - sx * 0int == 0int
                && sx * sy - 0int * sx == sx * sy) by (nonlinear_arith);
            assert(cross((sx, 0int, 0int), (sx, sy, 0int)) == outward(q));
        },
        FaceDirection::Left => {
            assert(edge(v0, v1) == (0int, 0int, -sz));
            assert(edge(v0, v2) == (0int, -sy, -sz));
            assert(0int * (-sz) - (-sz) * (-sy) == -(sy * sz)
                && (-sz) * 0int - 0int * (-sz) == 0int
                && 0int * (-sy) - 0int * 0int == 0int) by (nonlinear_arith);
            assert(cross((0int, 0int, -sz), (0int, -sy, -sz)) == outward(q));
            assert(edge(v2, v3) == (0int, 0int, sz));
            assert(edge(v2, v0) == (0int, sy, sz));
            assert(0int * sz - sz * sy == -(sy * sz)
                && sz * 0int - 0int * sz == 0int
                && 0int * sy - 0int * 0int == 0int) by (nonlinear_arith);
            assert(cross((0int, 0int, sz), (0int, sy, sz)) == outward(q));
        },
        FaceDirection::Bottom => {
            assert(edge(v0, v1) == (sx, 0int, 0int));
            assert(edge(v0, v2) == (sx, 0int, sz));
            assert(0int * sz - 0int * 0int == 0int
                && 0int * sx - sx * sz == -(sx * sz)
                && sx * 0int - 0int * sx == 0int) by (nonlinear_arith);
            assert(cross((sx, 0int, 0int), (sx, 0int, sz)) == outward(q));
            assert(edge(v2, v3) == (-sx, 0int, 0int));
            assert(edge(v2, v0) == (-sx, 0int, -sz));
            assert(0int * (-sz) - 0int * 0int == 0int
                && 0int * (-sx) - (-sx) * (-sz) == -(sx * sz)
                && (-sx) * 0int - 0int * (-sx) == 0int) by (nonlinear_arith);
            assert(cross((-sx, 0int, 0int), (-sx, 0int, -sz)) == outward(q));
        },
        FaceDirection::Back => {
            assert(edge(v0, v1) == (sx, 0int, 0int));
            assert(edge(v0, v2) == (sx, -sy, 0int));
            assert(0int * 0int - 0int * (-sy) == 0int
                && 0int * sx - sx * 0int == 0int
                && sx * (-sy) - 0int * sx == -(sx * sy)) by (nonlinear_arith);
            assert(cross((sx, 0int, 0int), (sx, -sy, 0int)) == outward(q));
            assert(edge(v2, v3) == (-sx, 0int, 0int));
            assert(edge(v2, v0) == (-sx, sy, 0int));
            assert(0int * 0int - 0int * sy == 0int
                && 0int * (-sx) - (-sx) * 0int == 0int
                && (-sx) * sy - 0int * (-sx) == -(sx * sy)) by (nonlinear_arith);
            assert(cross((-sx, 0int, 0int), (-sx, sy, 0int)) == outward(q));
        },
    }
}

/// Corner `i` (0 to 7) of the unit cube.
fn corner(i: u8) -> (c: Vec3i)
    requires
        i < 8,
    ensures
        c == cube_corner(i as int),
        0 <= c.x <= 1 && 0 <= c.y <= 1 && 0 <= c.z <= 1,
{
    if i == 0 {
        Vec3i { x: 1, y: 1, z: 1 }
    } else if i == 1 {
        Vec3i { x: 0, y: 1, z: 1 }
    } else if i == 2 {
        Vec3i { x: 0, y: 0, z: 1 }
    } else if i == 3 {
        Vec3i { x: 1, y: 0, z: 1 }
    } else if i == 4 {
        Vec3i { x: 0, y: 1, z: 0 }
    } else if i == 5 {
        Vec3i { x: 1, y: 1, z: 0 }
    } else if i == 6 {
        Vec3i { x: 1, y: 0, z: 0 }
    } else {
        Vec3i { x: 0, y: 0, z: 0 }
    }
}

impl FaceDirection {
    /// The cube corners of this face, counter-clockwise as seen from outside.
    pub fn corner_indices(&self) -> (c: [u8; 4])
        ensures
            forall|k: int| 0 <= k < 4 ==> (#[trigger] c[k]) == face_corner_index(*self, k),
            forall|k: int| 0 <= k < 4 ==> (#[trigger] c[k]) < 8,
    {
        match self {
            FaceDirection::Front => [0, 1, 2, 3],
            FaceDirection::Back => [4, 5, 6, 7],
            FaceDirection::Left => [1, 4, 7, 2],
            FaceDirection::Right => [5, 0, 3, 6],
            FaceDirection::Top => [5, 4, 1, 0],
            FaceDirection::Bottom => [7, 6, 3, 2],
        }
    }

    /// The unit vector that points out of this face.
    pub fn normal(&self) -> (n: Vec3i)
        ensures
            n == face_normal(*self),
    {
        match self {
            FaceDirection::Right => Vec3i { x: 1, y: 0, z: 0 },
            FaceDirection::Top => Vec3i { x: 0, y: 1, z: 0 },
            FaceDirection::Front => Vec3i { x: 0, y: 0, z: 1 },
            FaceDirection::Left => Vec3i { x: -1, y: 0, z: 0 },
            FaceDirection::Bottom => Vec3i { x: 0, y: -1, z: 0 },
            FaceDirection::Back => Vec3i { x: 0, y: 0, z: -1 },
        }
    }
}

/// The texture corner of vertex `k` of a face.
fn uv(k: usize) -> (t: Vec2i)
    requires
        k < 4,
    ensures
        t == corner_uv(k as int),
{
    if k == 0 {
        Vec2i { x: 1, y: 0 }
    } else if k == 1 {
        Vec2i { x: 0, y: 0 }
    } else if k == 2 {
        Vec2i { x: 0, y: 1 }
    } else {
        Vec2i { x: 1, y: 1 }
    }
}

fn scale(corner: i64, size: i64, offset: i64) -> (r: i64)
    requires
        0 <= corner <= 1,
        i64::MIN <= offset + size <= i64::MAX,
    ensures
        r == scaled(corner, size, offset),
{
    if corner == 0 {
        assert(corner * size == 0) by (nonlinear_arith)
            requires
                corner == 0,
        ;
        offset
    } else {
        assert(corner * size == size) by (nonlinear_arith)
            requires
                corner == 1,
        ;
        offset + size
    }
}

impl MeshData {
    /// A mesh without vertices and triangles.
    pub fn new() -> (m: MeshData)
        ensures
            m@ == empty_mesh(),
    {
        MeshData { positions: Vec::new(), indices: Vec::new(), normals: Vec::new(), uvs: Vec::new() }
    }

    /// Number of vertices.
    pub fn vertex_count(&self) -> (n: usize)
        ensures
            n == self@.positions.len(),
    {
        self.positions.len()
    }

    /// Number of triangles: a third of the number of indices, rounded down.
    pub fn triangle_count(&self) -> (n: usize)
        ensures
            n == self@.indices.len() / 3,
    {
        self.indices.len() / 3
    }

    /// Whether the buffers of this mesh agree with each other.
    pub fn is_well_formed(&self) -> (b: bool)
        ensures
            b == well_formed(self@),
    {
        if self.normals.len() != self.positions.len() || self.uvs.len() != self.positions.len()
            || self.indices.len() % 3 != 0 {
            return false;
        }
        let mut i: usize = 0;
        while i < self.indices.len()
            invariant
                i <= self@.indices.len(),
                forall|j: int| 0 <= j < i ==> (#[trigger] self@.indices[j]) < self@.positions.len(),
            decreases self.indices.len() - i,
        {
            if self.indices[i] as usize >= self.positions.len() {
                return false;
            }
            i += 1;
        }
        true
    }
}

/// Adds the face `face` of the box that spans `size` from `offset` to `mesh`:
/// four vertices and two triangles.
pub fn add_face(mesh: &mut MeshData, face: FaceDirection, offset: Vec3i, size: Vec3i)
    requires
        old(mesh)@.positions.len() + 4 <= u32::MAX,
        quad_fits(Quad { face, offset, size }),
    ensures
        final(mesh)@ == push_quad(old(mesh)@, Quad { face, offset, size }),
{
    let index_start: u32 = mesh.positions.len() as u32;
    let corners = face.corner_indices();
    let normal = face.normal();
    let ghost q = Quad { face, offset, size };
    let mut k: usize = 0;
    while k < 4
        invariant
            k <= 4,
            q == (Quad { face, offset, size }),
            quad_fits(q),
            normal == face_normal(face),
            forall|j: int| 0 <= j < 4 ==> (#[trigger] corners[j]) == face_corner_index(face, j),
            forall|j: int| 0 <= j < 4 ==> (#[trigger] corners[j]) < 8,
            mesh.indices@ == old(mesh).indices@,
            mesh.positions@ == old(mesh).positions@ + Seq::new(k as nat, |j: int| quad_vertex(q, j)),
            mesh.normals@ == old(mesh).normals@ + Seq::new(k as nat, |j: int| normal),
            mesh.uvs@ == old(mesh).uvs@ + Seq::new(k as nat, |j: int| corner_uv(j)),
        decreases 4 - k,
    {
        let c = corner(corners[k]);
        mesh.positions.push(
            Vec3i {
                x: scale(c.x, size.x, offset.x),
                y: scale(c.y, size.y, offset.y),
                z: scale(c.z, size.z, offset.z),
            },
        );
        mesh.normals.push(normal);
        mesh.uvs.push(uv(k));
        proof {
            assert(mesh.positions@ =~= old(mesh).positions@ + Seq::new(
                (k + 1) as nat,
                |j: int| quad_vertex(q, j),
            ));
            assert(mesh.normals@ =~= old(mesh).normals@ + Seq::new((k + 1) as nat, |j: int| normal));
            assert(mesh.uvs@ =~= old(mesh).uvs@ + Seq::new((k + 1) as nat, |j: int| corner_uv(j)));
        }
        k += 1;
    }
    mesh.indices.push(index_start);
    mesh.indices.push(index_start + 1);
    mesh.indices.push(index_start + 2);
    mesh.indices.push(index_start + 2);
    mesh.indices.push(index_start + 3);
    mesh.indices.push(index_start);
    proof {
        let want = push_quad(old(mesh)@, q);
        assert(mesh@.positions =~= want.positions);
        assert(mesh@.normals =~= want.normals);
        assert(mesh@.uvs =~= want.uvs);
        assert(mesh@.indices =~= want.indices);
    }
}

/// Whether `meshes` can be joined with 32-bit indices.
pub fn can_combine(meshes: &[MeshData]) -> (b: bool)
    ensures
        b == combinable(views(meshes@)),
{
    let ghost all = views(meshes@);
    let mut total: u64 = 0;
    let mut m: usize = 0;
    while m < meshes.len()
        invariant
            m <= meshes.len(),
            all == views(meshes@),
            combinable(all.take(m as int)),
            total == total_vertices(all.take(m as int)),
            total <= u32::MAX,
        decreases meshes.len() - m,
    {
        let mesh = &meshes[m];
        let ghost upto = all.take(m as int + 1);
        proof {
            assert(upto.drop_last() =~= all.take(m as int));
            assert(upto.last() == mesh@);
            if combinable(all) {
                lemma_combinable_prefix(all, m as int + 1);
            }
        }
        if mesh.positions.len() > 0xffff_ffff - total as usize {
            return false;
        }
        let mut i: usize = 0;
        while i < mesh.indices.len()
            invariant
                i <= mesh@.indices.len(),
                total <= u32::MAX,
                all == views(meshes@),
                upto.len() > 0,
                upto.last() == mesh@,
                total == total_vertices(upto.drop_last()),
                combinable(all) ==> combinable(upto),
                forall|j: int| 0 <= j < i ==> (#[trigger] mesh@.indices[j]) + total <= u32::MAX,
            decreases mesh.indices.len() - i,
        {
            if mesh.indices[i] as u64 + total > 0xffff_ffff {
                assert(upto.last().indices[i as int] + total_vertices(upto.drop_last())
                    > u32::MAX);
                return false;
            }
            i += 1;
        }
        total = total + mesh.positions.len() as u64;
        m += 1;
    }
    proof {
        assert(all.take(meshes@.len() as int) =~= all);
    }
    true
}

/// Joins several meshes into one: positions, normals and texture coordinates
/// follow each other in the order of `meshes`, and the indices of each mesh
/// are moved up by the number of vertices before it.
pub fn combine_meshes(meshes: &[MeshData]) -> (mesh_data: MeshData)
    requires
        combinable(views(meshes@)),
    ensures
        mesh_data@ == combine(views(meshes@)),
{
    let mut mesh_data = MeshData::new();
    let mut index_start: u32 = 0;
    let mut m: usize = 0;
    while m < meshes.len()
        invariant
            m <= meshes.len(),
            combinable(views(meshes@)),
            mesh_data@ == combine(views(meshes@).take(m as int)),
            index_start == total_vertices(views(meshes@).take(m as int)),
            index_start == mesh_data@.positions.len(),
        decreases meshes.len() - m,
    {
        let mesh = &meshes[m];
        let ghost all = views(meshes@);
        let ghost before = all.take(m as int);
        let ghost upto = all.take(m as int + 1);
        proof {
            assert(upto.drop_last() =~= before);
            assert(upto.last() == mesh@);
            lemma_combinable_prefix(all, m as int + 1);
        }
        let ghost base = mesh_data@;
        let mut i: usize = 0;
        while i < mesh.positions.len()
            invariant
                i <= mesh.positions.len(),
                mesh_data.positions@ == base.positions + mesh.positions@.take(i as int),
                mesh_data.normals@ == base.normals,
                mesh_data.uvs@ == base.uvs,
                mesh_data.indices@ == base.indices,
            decreases mesh.positions.len() - i,
        {
            mesh_data.positions.push(mesh.positions[i]);
            proof {
                assert(mesh.positions@.take(i as int + 1) =~= mesh.positions@.take(i as int).push(
                    mesh.positions@[i as int],
                ));
                assert(mesh_data.positions@ =~= base.positions + mesh.positions@.take(i as int + 1));
            }
            i += 1;
        }
        let mut i: usize = 0;
        while i < mesh.normals.len()
            invariant
                i <= mesh.normals.len(),
                mesh_data.positions@ == base.positions + mesh.positions@.take(
                    mesh.positions@.len() as int,
                ),
                mesh_data.normals@ == base.normals + mesh.normals@.take(i as int),
                mesh_data.uvs@ == base.uvs,
                mesh_data.indices@ == base.indices,
            decreases mesh.normals.len() - i,
        {
            mesh_data.normals.push(mesh.normals[i]);
            proof {
                assert(mesh_data.normals@ =~= base.normals + mesh.normals@.take(i as int + 1));
            }
            i += 1;
        }
        let mut i: usize = 0;
        while i < mesh.uvs.len()
            invariant
                i <= mesh.uvs.len(),
                mesh_data.positions@ == base.positions + mesh.positions@.take(
                    mesh.positions@.len() as int,
                ),
                mesh_data.normals@ == base.normals + mesh.normals@.take(mesh.normals@.len() as int),
                mesh_data.uvs@ == base.uvs + mesh.uvs@.take(i as int),
                mesh_data.indices@ == base.indices,
            decreases mesh.uvs.len() - i,
        {
            mesh_data.uvs.push(mesh.uvs[i]);
            proof {
                assert(mesh_data.uvs@ =~= base.uvs + mesh.uvs@.take(i as int + 1));
            }
            i += 1;
        }
        let ghost moved = Seq::new(
            mesh.indices@.len(),
            |j: int| (mesh.indices@[j] + base.positions.len()) as u32,
        );
        let mut i: usize = 0;
        while i < mesh.indices.len()
            invariant
                i <= mesh.indices.len(),
                index_start == base.positions.len(),
                upto.len() > 0,
                upto.last() == mesh@,
                upto.drop_last() == before,
                index_start == total_vertices(before),
                combinable(upto),
                moved == Seq::new(
                    mesh.indices@.len(),
                    |j: int| (mesh.indices@[j] + base.positions.len()) as u32,
                ),
                mesh_data.positions@ == base.positions + mesh.positions@.take(
                    mesh.positions@.len() as int,
                ),
                mesh_data.normals@ == base.normals + mesh.normals@.take(mesh.normals@.len() as int),
                mesh_data.uvs@ == base.uvs + mesh.uvs@.take(mesh.uvs@.len() as int),
                mesh_data.indices@ == base.indices + moved.take(i as int),
            decreases mesh.indices.len() - i,
        {
            assert(upto.last().indices[i as int] + total_vertices(upto.drop_last()) <= u32::MAX);
            mesh_data.indices.push(mesh.indices[i] + index_start);
            proof {
                assert(mesh_data.indices@ =~= base.indices + moved.take(i as int + 1));
            }
            i += 1;
        }
        proof {
            assert(mesh.positions@.take(mesh.positions@.len() as int) =~= mesh.positions@);
            assert(mesh.normals@.take(mesh.normals@.len() as int) =~= mesh.normals@);
            assert(mesh.uvs@.take(mesh.uvs@.len() as int) =~= mesh.uvs@);
            assert(moved.take(mesh.indices@.len() as int) =~= moved);
            assert(mesh_data@ == append_mesh(base, mesh@));
            assert(total_vertices(upto) <= u32::MAX);
        }
        index_start += mesh.positions.len() as u32;
        m += 1;
    }
    proof {
        assert(views(meshes@).take(m as int) =~= views(meshes@));
    }
    mesh_data
}

/// A list of meshes that can be joined can be joined up to any point.
pub proof fn lemma_combinable_prefix(ms: Seq<MeshView>, n: int)
    requires
        combinable(ms),
        0 <= n <= ms.len(),
    ensures
        combinable(ms.take(n)),
    decreases ms.len(),
{
    if n == ms.len() {
        assert(ms.take(n) =~= ms);
    } else {
        assert(ms.drop_last().take(n) =~= ms.take(n));
        lemma_combinable_prefix(ms.drop_last(), n);
    }
}

/// The joined mesh has as many vertices as its parts together.
pub proof fn lemma_combine_counts(ms: Seq<MeshView>)
    ensures
        combine(ms).positions.len() == total_vertices(ms),
        combine(ms).indices.len() == total_indices(ms),
    decreases ms.len(),
{
    if ms.len() > 0 {
        lemma_combine_counts(ms.drop_last());
    }
}

/// Joining meshes keeps them intact: where each part is well formed and the
/// vertices of all parts can be counted in 32 bits, the parts can be joined,
/// the joined mesh has exactly the vertices and the indices of its parts
/// together, and every index of every triangle names a vertex of the joined
/// mesh.
pub proof fn lemma_combine_well_formed(ms: Seq<MeshView>)
    requires
        forall|i: int| 0 <= i < ms.len() ==> well_formed(#[trigger] ms[i]),
        total_vertices(ms) <= u32::MAX,
    ensures
        combinable(ms),
        well_formed(combine(ms)),
        combine(ms).positions.len() == total_vertices(ms),
        combine(ms).indices.len() == total_indices(ms),
    decreases ms.len(),
{
    lemma_combine_counts(ms);
    if ms.len() > 0 {
        let front = ms.drop_last();
        let last = ms.last();
        assert forall|i: int| 0 <= i < front.len() implies well_formed(#[trigger] front[i]) by {
            assert(front[i] == ms[i]);
        }
        lemma_combine_well_formed(front);
        lemma_combine_counts(front);
        assert(well_formed(last));
        let joined = combine(ms);
        let head = combine(front);
        assert forall|i: int| 0 <= i < joined.indices.len() implies (#[trigger] joined.indices[i])
            < joined.positions.len() by {
            if i >= head.indices.len() {
                let j = i - head.indices.len();
                assert(last.indices[j] < last.positions.len());
            }
        }
    }
}

} // verus!
