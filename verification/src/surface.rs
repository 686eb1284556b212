//! The surface of a chunk as quads: which faces of which boxes are exposed,
//! and the meshes made of them, with and without merging of voxels.

use crate::chunk::{ChunkData, in_chunk, AIR};
use crate::coords::ChunkIndex;
use crate::merge::{merge_voxels, merged_extent, unit, Extent, lemma_merged_extent_bounds};
use crate::mesh::{
    add_face, empty_mesh, push_quad, quad_fits, quads_mesh, well_formed, FaceDirection, MeshData,
    Quad, Vec3i,
};
use crate::surface_laws::{
    lemma_greedy_covers_visible_faces, lemma_greedy_no_more_quads_than_naive, quad_contains,
};
use vstd::prelude::*;

verus! {

/// Number of cells of a chunk.
pub open spec fn cell_count() -> int {
    4096
}

/// Number of faces of all cells of a chunk.
pub open spec fn face_count() -> int {
    24576
}

/// The x of the cell with number `n`, where the cells are numbered along x
/// first, then along z, then along y.
pub open spec fn cell_x(n: int) -> int {
    n % 16
}

/// The z of the cell with number `n`.
pub open spec fn cell_z(n: int) -> int {
    (n / 16) % 16
}

/// The y of the cell with number `n`.
pub open spec fn cell_y(n: int) -> int {
    n / 256
}

/// The number of the cell at (x, y, z).
pub open spec fn cell_number(x: int, y: int, z: int) -> int {
    (y * 16 + z) * 16 + x
}

/// The faces of a cell in the order in which they are added to a mesh.
pub open spec fn face_in_order(f: int) -> FaceDirection {
    if f == 0 {
        FaceDirection::Top
    } else if f == 1 {
        FaceDirection::Bottom
    } else if f == 2 {
        FaceDirection::Left
    } else if f == 3 {
        FaceDirection::Right
    } else if f == 4 {
        FaceDirection::Front
    } else {
        FaceDirection::Back
    }
}

/// The place of a face in the order in which faces are added to a mesh.
pub open spec fn face_order(face: FaceDirection) -> int {
    match face {
        FaceDirection::Top => 0,
        FaceDirection::Bottom => 1,
        FaceDirection::Left => 2,
        FaceDirection::Right => 3,
        FaceDirection::Front => 4,
        FaceDirection::Back => 5,
    }
}

/// Whether some voxel in the given range of the chunk, bounds included, is
/// empty.
pub open spec fn has_air(c: ChunkData, x0: int, x1: int, y0: int, y1: int, z0: int, z1: int) -> bool {
    exists|x: int, y: int, z: int|
        x0 <= x <= x1 && y0 <= y <= y1 && z0 <= z <= z1 && #[trigger] c.voxel(x, y, z) == AIR
}

/// Whether the face `face` of the box anchored at (x, y, z) with extent `e`
/// is shown: it lies on the chunk's side, or at least one of the voxels
/// that touch it from outside is empty.
pub open spec fn box_exposed(
    c: ChunkData,
    x: int,
    y: int,
    z: int,
    e: Extent,
    face: FaceDirection,
) -> bool {
    let lx = x - e.x + 1;
    let ly = y - e.y + 1;
    let lz = z - e.z + 1;
    match face {
        FaceDirection::Top => y == 15 || has_air(c, lx, x, y + 1, y + 1, lz, z),
        FaceDirection::Bottom => ly == 0 || has_air(c, lx, x, ly - 1, ly - 1, lz, z),
        FaceDirection::Left => lx == 0 || has_air(c, lx - 1, lx - 1, ly, y, lz, z),
        FaceDirection::Right => x == 15 || has_air(c, x + 1, x + 1, ly, y, lz, z),
        FaceDirection::Front => z == 15 || has_air(c, lx, x, ly, y, z + 1, z + 1),
        FaceDirection::Back => lz == 0 || has_air(c, lx, x, ly, y, lz - 1, lz - 1),
    }
}

/// The quad that shows the face `face` of the box anchored at local position
/// (x, y, z) of the chunk at `index` with extent `e`, in world coordinates:
/// the quad starts at the box's corner with the least coordinates, moved to
/// the far side for the faces that look in a positive direction, and spans
/// the box's extent across the face and one voxel along its normal.
pub open spec fn box_quad(
    index: ChunkIndex,
    x: int,
    y: int,
    z: int,
    e: Extent,
    face: FaceDirection,
) -> Quad {
    let hx = 16 * index.x + x;
    let hy = 16 * index.y + y;
    let hz = 16 * index.z + z;
    let lx = hx - e.x + 1;
    let ly = hy - e.y + 1;
    let lz = hz - e.z + 1;
    match face {
        FaceDirection::Top => Quad {
            face,
            offset: Vec3i { x: lx as i64, y: hy as i64, z: lz as i64 },
            size: Vec3i { x: e.x as i64, y: 1, z: e.z as i64 },
        },
        FaceDirection::Bottom => Quad {
            face,
            offset: Vec3i { x: lx as i64, y: ly as i64, z: lz as i64 },
            size: Vec3i { x: e.x as i64, y: 1, z: e.z as i64 },
        },
        FaceDirection::Left => Quad {
            face,
            offset: Vec3i { x: lx as i64, y: ly as i64, z: lz as i64 },
            size: Vec3i { x: 1, y: e.y as i64, z: e.z as i64 },
        },
        FaceDirection::Right => Quad {
            face,
            offset: Vec3i { x: hx as i64, y: ly as i64, z: lz as i64 },
            size: Vec3i { x: 1, y: e.y as i64, z: e.z as i64 },
        },
        FaceDirection::Front => Quad {
            face,
            offset: Vec3i { x: lx as i64, y: ly as i64, z: hz as i64 },
            size: Vec3i { x: e.x as i64, y: e.y as i64, z: 1 },
        },
        FaceDirection::Back => Quad {
            face,
            offset: Vec3i { x: lx as i64, y: ly as i64, z: lz as i64 },
            size: Vec3i { x: e.x as i64, y: e.y as i64, z: 1 },
        },
    }
}

/// The extent that the cell (x, y, z) is drawn with: after merging, the
/// extent of its box or zero; without merging, one voxel.
pub open spec fn extent_at(c: ChunkData, merged: bool, x: int, y: int, z: int) -> Extent {
    if merged {
        merged_extent(c, x, y, z)
    } else {
        unit()
    }
}

/// Whether the face `face` of the cell (x, y, z) is drawn: the cell is
/// solid, it is an anchor, and the face of its box is shown.
pub open spec fn draws(c: ChunkData, merged: bool, x: int, y: int, z: int, face: FaceDirection) -> bool {
    let e = extent_at(c, merged, x, y, z);
    c.voxel(x, y, z) != AIR && !e.is_absorbed() && box_exposed(c, x, y, z, e, face)
}

/// Whether face number `k` of the chunk is drawn, where the six faces of
/// cell `n` have the numbers from `6 * n`.
pub open spec fn emits(c: ChunkData, merged: bool, k: int) -> bool {
    let n = k / 6;
    draws(c, merged, cell_x(n), cell_y(n), cell_z(n), face_in_order(k % 6))
}

/// The quad of face number `k` of the chunk.
pub open spec fn quad_at(c: ChunkData, merged: bool, k: int) -> Quad {
    let n = k / 6;
    let x = cell_x(n);
    let y = cell_y(n);
    let z = cell_z(n);
    box_quad(c.index, x, y, z, extent_at(c, merged, x, y, z), face_in_order(k % 6))
}

/// The quads of the faces with numbers below `k` that are drawn, in the
/// order of their numbers.
pub open spec fn surface_upto(c: ChunkData, merged: bool, k: int) -> Seq<Quad>
    decreases k,
{
    if k <= 0 {
        Seq::empty()
    } else if emits(c, merged, k - 1) {
        surface_upto(c, merged, k - 1).push(quad_at(c, merged, k - 1))
    } else {
        surface_upto(c, merged, k - 1)
    }
}

/// The quads of the surface of `c` after merging: for each box of voxels of
/// one material, those of its six faces that are shown.
pub open spec fn greedy_quads(c: ChunkData) -> Seq<Quad> {
    surface_upto(c, true, face_count())
}

/// The quads of the surface of `c` without merging: for each solid voxel,
/// those of its six faces that lie on the chunk's side or touch an empty
/// voxel.
pub open spec fn naive_quads(c: ChunkData) -> Seq<Quad> {
    surface_upto(c, false, face_count())
}

/// At most one quad is drawn per face.
pub proof fn lemma_surface_len(c: ChunkData, merged: bool, k: int)
    requires
        0 <= k,
    ensures
        surface_upto(c, merged, k).len() <= k,
    decreases k,
{
    if k > 0 {
        lemma_surface_len(c, merged, k - 1);
    }
}

/// A mesh of quads has four vertices and six indices for each quad, and its
/// buffers agree with each other as long as the vertices can be counted in
/// 32 bits.
pub proof fn lemma_quads_mesh_shape(quads: Seq<Quad>)
    requires
        4 * quads.len() <= u32::MAX,
    ensures
        quads_mesh(quads).positions.len() == 4 * quads.len(),
        quads_mesh(quads).normals.len() == 4 * quads.len(),
        quads_mesh(quads).uvs.len() == 4 * quads.len(),
        quads_mesh(quads).indices.len() == 6 * quads.len(),
        well_formed(quads_mesh(quads)),
    decreases quads.len(),
{
    if quads.len() > 0 {
        lemma_quads_mesh_shape(quads.drop_last());
    }
}

/// Adding a quad to the mesh of a list of quads gives the mesh of the list
/// with that quad at its end.
pub proof fn lemma_quads_mesh_push(quads: Seq<Quad>, q: Quad)
    ensures
        quads_mesh(quads.push(q)) == push_quad(quads_mesh(quads), q),
{
    assert(quads.push(q).drop_last() =~= quads);
}

/// Whether some voxel in the given range of the chunk is empty.
fn region_has_air(
    chunk: &ChunkData,
    x0: usize,
    x1: usize,
    y0: usize,
    y1: usize,
    z0: usize,
    z1: usize,
) -> (b: bool)
    requires
        x0 <= x1 < 16,
        y0 <= y1 < 16,
        z0 <= z1 < 16,
    ensures
        b == has_air(*chunk, x0 as int, x1 as int, y0 as int, y1 as int, z0 as int, z1 as int),
{
    let mut x: usize = x0;
    while x <= x1
        invariant
            x0 <= x <= x1 + 1,
            x1 < 16,
            y0 <= y1 < 16,
            z0 <= z1 < 16,
            forall|a: int, b: int, d: int|
                x0 <= a < x && y0 <= b <= y1 && z0 <= d <= z1 ==> #[trigger] chunk.voxel(a, b, d)
                    != AIR,
        decreases x1 + 1 - x,
    {
        let mut y: usize = y0;
        while y <= y1
            invariant
                x0 <= x <= x1,
                y0 <= y <= y1 + 1,
                x1 < 16,
                y1 < 16,
                z0 <= z1 < 16,
                forall|a: int, b: int, d: int|
                    x0 <= a < x && y0 <= b <= y1 && z0 <= d <= z1 ==> #[trigger] chunk.voxel(a, b, d)
                        != AIR,
                forall|b: int, d: int|
                    y0 <= b < y && z0 <= d <= z1 ==> #[trigger] chunk.voxel(x as int, b, d) != AIR,
            decreases y1 + 1 - y,
        {
            let mut z: usize = z0;
            while z <= z1
                invariant
                    x0 <= x <= x1,
                    y0 <= y <= y1,
                    z0 <= z <= z1 + 1,
                    x1 < 16,
                    y1 < 16,
                    z1 < 16,
                    forall|a: int, b: int, d: int|
                        x0 <= a < x && y0 <= b <= y1 && z0 <= d <= z1 ==> #[trigger] chunk.voxel(
                            a,
                            b,
                            d,
                        ) != AIR,
                    forall|b: int, d: int|
                        y0 <= b < y && z0 <= d <= z1 ==> #[trigger] chunk.voxel(x as int, b, d)
                            != AIR,
                    forall|d: int| z0 <= d < z ==> #[trigger] chunk.voxel(x as int, y as int, d) != AIR,
                decreases z1 + 1 - z,
            {
                if chunk.voxels[x][y][z] == AIR {
                    assert(chunk.voxel(x as int, y as int, z as int) == AIR);
                    return true;
                }
                z += 1;
            }
            y += 1;
        }
        x += 1;
    }
    false
}

/// Whether the face `face` of the box anchored at (x, y, z) with extent `e`
/// is shown.
fn face_exposed(chunk: &ChunkData, x: usize, y: usize, z: usize, e: Extent, face: FaceDirection) -> (b:
    bool)
    requires
        in_chunk(x as int, y as int, z as int),
        1 <= e.x <= x + 1,
        1 <= e.y <= y + 1,
        1 <= e.z <= z + 1,
    ensures
        b == box_exposed(*chunk, x as int, y as int, z as int, e, face),
{
    let lx: usize = x + 1 - e.x as usize;
    let ly: usize = y + 1 - e.y as usize;
    let lz: usize = z + 1 - e.z as usize;
    match face {
        FaceDirection::Top => y == 15 || region_has_air(chunk, lx, x, y + 1, y + 1, lz, z),
        FaceDirection::Bottom => ly == 0 || region_has_air(chunk, lx, x, ly - 1, ly - 1, lz, z),
        FaceDirection::Left => lx == 0 || region_has_air(chunk, lx - 1, lx - 1, ly, y, lz, z),
        FaceDirection::Right => x == 15 || region_has_air(chunk, x + 1, x + 1, ly, y, lz, z),
        FaceDirection::Front => z == 15 || region_has_air(chunk, lx, x, ly, y, z + 1, z + 1),
        FaceDirection::Back => lz == 0 || region_has_air(chunk, lx, x, ly, y, lz - 1, lz - 1),
    }
}

/// The quad that shows the face `face` of the box anchored at (x, y, z).
fn face_quad(index: ChunkIndex, x: usize, y: usize, z: usize, e: Extent, face: FaceDirection) -> (q:
    Quad)
    requires
        in_chunk(x as int, y as int, z as int),
        1 <= e.x <= x + 1,
        1 <= e.y <= y + 1,
        1 <= e.z <= z + 1,
    ensures
        q == box_quad(index, x as int, y as int, z as int, e, face),
        quad_fits(q),
{
    let hx: i64 = 16 * (index.x as i64) + x as i64;
    let hy: i64 = 16 * (index.y as i64) + y as i64;
    let hz: i64 = 16 * (index.z as i64) + z as i64;
    let lx: i64 = hx - e.x as i64 + 1;
    let ly: i64 = hy - e.y as i64 + 1;
    let lz: i64 = hz - e.z as i64 + 1;
    let sx: i64 = e.x as i64;
    let sy: i64 = e.y as i64;
    let sz: i64 = e.z as i64;
    match face {
        FaceDirection::Top => Quad {
            face,
            offset: Vec3i { x: lx, y: hy, z: lz },
            size: Vec3i { x: sx, y: 1, z: sz },
        },
        FaceDirection::Bottom => Quad {
            face,
            offset: Vec3i { x: lx, y: ly, z: lz },
            size: Vec3i { x: sx, y: 1, z: sz },
        },
        FaceDirection::Left => Quad {
            face,
            offset: Vec3i { x: lx, y: ly, z: lz },
            size: Vec3i { x: 1, y: sy, z: sz },
        },
        FaceDirection::Right => Quad {
            face,
            offset: Vec3i { x: hx, y: ly, z: lz },
            size: Vec3i { x: 1, y: sy, z: sz },
        },
        FaceDirection::Front => Quad {
            face,
            offset: Vec3i { x: lx, y: ly, z: hz },
            size: Vec3i { x: sx, y: sy, z: 1 },
        },
        FaceDirection::Back => Quad {
            face,
            offset: Vec3i { x: lx, y: ly, z: lz },
            size: Vec3i { x: sx, y: sy, z: 1 },
        },
    }
}

/// The face that is added to a mesh as number `f` of its cell.
fn nth_face(f: usize) -> (face: FaceDirection)
    requires
        f < 6,
    ensures
        face == face_in_order(f as int),
{
    if f == 0 {
        FaceDirection::Top
    } else if f == 1 {
        FaceDirection::Bottom
    } else if f == 2 {
        FaceDirection::Left
    } else if f == 3 {
        FaceDirection::Right
    } else if f == 4 {
        FaceDirection::Front
    } else {
        FaceDirection::Back
    }
}

/// The cell with number `n` is the cell at the coordinates that the number
/// was made from.
pub proof fn lemma_cell_number(x: int, y: int, z: int)
    requires
        in_chunk(x, y, z),
    ensures
        0 <= cell_number(x, y, z) < cell_count(),
        cell_x(cell_number(x, y, z)) == x,
        cell_y(cell_number(x, y, z)) == y,
        cell_z(cell_number(x, y, z)) == z,
{
}

/// A cell that is empty or absorbed adds nothing to the surface.
proof fn lemma_cell_skipped(c: ChunkData, merged: bool, n: int)
    requires
        0 <= n,
        c.voxel(cell_x(n), cell_y(n), cell_z(n)) == AIR || extent_at(
            c,
            merged,
            cell_x(n),
            cell_y(n),
            cell_z(n),
        ).is_absorbed(),
    ensures
        surface_upto(c, merged, 6 * n + 6) == surface_upto(c, merged, 6 * n),
{
    reveal_with_fuel(surface_upto, 7);
    assert((6 * n) / 6 == n);
    assert((6 * n + 1) / 6 == n);
    assert((6 * n + 2) / 6 == n);
    assert((6 * n + 3) / 6 == n);
    assert((6 * n + 4) / 6 == n);
    assert((6 * n + 5) / 6 == n);
}

/// Adds to `mesh` the faces of the box anchored at (x, y, z) that are shown.
fn add_cell(
    mesh: &mut MeshData,
    chunk: &ChunkData,
    x: usize,
    y: usize,
    z: usize,
    e: Extent,
    Ghost(merged): Ghost<bool>,
)
    requires
        in_chunk(x as int, y as int, z as int),
        e == extent_at(*chunk, merged, x as int, y as int, z as int),
        1 <= e.x <= x + 1,
        1 <= e.y <= y + 1,
        1 <= e.z <= z + 1,
        chunk.voxel(x as int, y as int, z as int) != AIR,
        old(mesh)@ == quads_mesh(
            surface_upto(*chunk, merged, 6 * cell_number(x as int, y as int, z as int)),
        ),
    ensures
        final(mesh)@ == quads_mesh(
            surface_upto(*chunk, merged, 6 * cell_number(x as int, y as int, z as int) + 6),
        ),
{
    let ghost n = cell_number(x as int, y as int, z as int);
    proof {
        lemma_cell_number(x as int, y as int, z as int);
    }
    let mut f: usize = 0;
    while f < 6
        invariant
            f <= 6,
            in_chunk(x as int, y as int, z as int),
            n == cell_number(x as int, y as int, z as int),
            0 <= n < cell_count(),
            cell_x(n) == x,
            cell_y(n) == y,
            cell_z(n) == z,
            e == extent_at(*chunk, merged, x as int, y as int, z as int),
            1 <= e.x <= x + 1,
            1 <= e.y <= y + 1,
            1 <= e.z <= z + 1,
            chunk.voxel(x as int, y as int, z as int) != AIR,
            mesh@ == quads_mesh(surface_upto(*chunk, merged, 6 * n + f)),
        decreases 6 - f,
    {
        let ghost k = 6 * n + f;
        let ghost before = surface_upto(*chunk, merged, k);
        proof {
            assert(k / 6 == n);
            assert(k % 6 == f);
            lemma_surface_len(*chunk, merged, k);
            lemma_quads_mesh_shape(before);
        }
        let face = nth_face(f);
        if face_exposed(chunk, x, y, z, e, face) {
            let q = face_quad(chunk.index, x, y, z, e, face);
            add_face(mesh, q.face, q.offset, q.size);
            proof {
                assert(emits(*chunk, merged, k));
                assert(q == quad_at(*chunk, merged, k));
                assert(surface_upto(*chunk, merged, k + 1) == before.push(q));
                lemma_quads_mesh_push(before, q);
            }
        } else {
            proof {
                assert(!emits(*chunk, merged, k));
                assert(surface_upto(*chunk, merged, k + 1) == before);
            }
        }
        f += 1;
    }
}

/// The mesh of the faces that are shown of all boxes of `chunk`, where
/// `sizes` holds the extent of every cell.
fn emit_surface(chunk: &ChunkData, sizes: &[[[Extent; 16]; 16]; 16], Ghost(merged): Ghost<bool>) -> (mesh:
    MeshData)
    requires
        forall|x: int, y: int, z: int|
            in_chunk(x, y, z) ==> #[trigger] sizes[x][y][z] == extent_at(*chunk, merged, x, y, z),
    ensures
        mesh@ == quads_mesh(surface_upto(*chunk, merged, face_count())),
{
    let mut mesh_data = MeshData::new();
    let mut y: usize = 0;
    while y < 16
        invariant
            y <= 16,
            forall|x: int, y: int, z: int|
                in_chunk(x, y, z) ==> #[trigger] sizes[x][y][z] == extent_at(
                    *chunk,
                    merged,
                    x,
                    y,
                    z,
                ),
            mesh_data@ == quads_mesh(surface_upto(*chunk, merged, 6 * cell_number(0, y as int, 0))),
        decreases 16 - y,
    {
        let mut z: usize = 0;
        while z < 16
            invariant
                y < 16,
                z <= 16,
                forall|x: int, y: int, z: int|
                    in_chunk(x, y, z) ==> #[trigger] sizes[x][y][z] == extent_at(
                        *chunk,
                        merged,
                        x,
                        y,
                        z,
                    ),
                mesh_data@ == quads_mesh(
                    surface_upto(*chunk, merged, 6 * cell_number(0, y as int, z as int)),
                ),
            decreases 16 - z,
        {
            let mut x: usize = 0;
            while x < 16
                invariant
                    y < 16,
                    z < 16,
                    x <= 16,
                    forall|x: int, y: int, z: int|
                        in_chunk(x, y, z) ==> #[trigger] sizes[x][y][z] == extent_at(
                            *chunk,
                            merged,
                            x,
                            y,
                            z,
                        ),
                    mesh_data@ == quads_mesh(
                        surface_upto(*chunk, merged, 6 * cell_number(x as int, y as int, z as int)),
                    ),
                decreases 16 - x,
            {
                let e = sizes[x][y][z];
                proof {
                    lemma_cell_number(x as int, y as int, z as int);
                    assert(sizes[x as int][y as int][z as int] == extent_at(
                        *chunk,
                        merged,
                        x as int,
                        y as int,
                        z as int,
                    ));
                    lemma_merged_extent_bounds(*chunk, x as int, y as int, z as int);
                }
                if chunk.voxels[x][y][z] == AIR || e.is_zero() {
                    proof {
                        lemma_cell_skipped(*chunk, merged, cell_number(x as int, y as int, z as int));
                    }
                } else {
                    add_cell(&mut mesh_data, chunk, x, y, z, e, Ghost(merged));
                }
                x += 1;
            }
            z += 1;
        }
        y += 1;
    }
    mesh_data
}

/// The mesh of the surface of `chunk`, one quad for each face of a solid
/// voxel that lies on the chunk's side or touches an empty voxel.
pub fn default_mesh(chunk: &ChunkData) -> (mesh_data: MeshData)
    ensures
        mesh_data@ == quads_mesh(naive_quads(*chunk)),
        well_formed(mesh_data@),
        mesh_data@.positions.len() == 4 * naive_quads(*chunk).len(),
        mesh_data@.indices.len() == 6 * naive_quads(*chunk).len(),
{
    let one = Extent { x: 1, y: 1, z: 1 };
    let sizes = [[[one; 16]; 16]; 16];
    proof {
        lemma_surface_len(*chunk, false, face_count());
        lemma_quads_mesh_shape(naive_quads(*chunk));
    }
    emit_surface(chunk, &sizes, Ghost(false))
}

/// The mesh of the surface of `chunk` after neighbouring voxels of one
/// material have been merged into boxes: one quad for each face of a box of
/// solid voxels that lies on the chunk's side or touches at least one empty
/// voxel. The mesh has no more quads than the mesh without merging, and
/// every face of a solid voxel that lies on the chunk's side or touches an
/// empty voxel is covered by a quad that looks the same way.
pub fn greedy_meshing(chunk: &ChunkData) -> (mesh_data: MeshData)
    ensures
        mesh_data@ == quads_mesh(greedy_quads(*chunk)),
        well_formed(mesh_data@),
        mesh_data@.positions.len() == 4 * greedy_quads(*chunk).len(),
        mesh_data@.indices.len() == 6 * greedy_quads(*chunk).len(),
        greedy_quads(*chunk).len() <= naive_quads(*chunk).len(),
        forall|x: int, y: int, z: int, face: FaceDirection|
            in_chunk(x, y, z) && chunk.voxel(x, y, z) != AIR && box_exposed(
                *chunk,
                x,
                y,
                z,
                unit(),
                face,
            ) ==> exists|i: int|
                0 <= i < greedy_quads(*chunk).len() && quad_contains(
                    #[trigger] greedy_quads(*chunk)[i],
                    #[trigger] box_quad(chunk.index, x, y, z, unit(), face),
                ),
{
    let sizes = merge_voxels(chunk);
    proof {
        lemma_surface_len(*chunk, true, face_count());
        lemma_quads_mesh_shape(greedy_quads(*chunk));
        lemma_greedy_no_more_quads_than_naive(*chunk);
        assert forall|x: int, y: int, z: int, face: FaceDirection|
            in_chunk(x, y, z) && chunk.voxel(x, y, z) != AIR && box_exposed(
                *chunk,
                x,
                y,
                z,
                unit(),
                face,
            ) implies exists|i: int|
            0 <= i < greedy_quads(*chunk).len() && quad_contains(
                #[trigger] greedy_quads(*chunk)[i],
                #[trigger] box_quad(chunk.index, x, y, z, unit(), face),
            ) by {
            lemma_greedy_covers_visible_faces(*chunk, x, y, z, face);
        }
    }
    emit_surface(chunk, &sizes, Ghost(true))
}

} // verus!
