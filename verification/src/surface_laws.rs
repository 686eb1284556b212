//! What holds of the merged surface of every chunk: it shows every face that
//! the unmerged surface shows, with no more quads.

use crate::boxes::{
    anchor_x, anchor_y, anchor_z, in_box, lemma_anchor, lemma_anchor_unique, lemma_box_cells,
};
use crate::chunk::{ChunkData, in_chunk, AIR};
use crate::merge::{kept, lemma_merged_extent_bounds, merged_extent, unit, x_run, y_run, z_run};
use crate::mesh::{FaceDirection, Quad};
use crate::surface::{
    box_exposed, box_quad, cell_count, cell_number, cell_x, cell_y, cell_z, draws, emits,
    face_count, face_in_order, face_order, greedy_quads, has_air, lemma_cell_number, naive_quads,
    quad_at, surface_upto,
};
use vstd::prelude::*;
use vstd::relations::injective_on;
use vstd::set_lib::{lemma_len_subset, lemma_map_size};

verus! {

/// Whether the quad `q` looks the same way as the quad `u` and covers it.
pub open spec fn quad_contains(q: Quad, u: Quad) -> bool {
    &&& q.face == u.face
    &&& q.offset.x <= u.offset.x
    &&& u.offset.x + u.size.x <= q.offset.x + q.size.x
    &&& q.offset.y <= u.offset.y
    &&& u.offset.y + u.size.y <= q.offset.y + q.size.y
    &&& q.offset.z <= u.offset.z
    &&& u.offset.z + u.size.z <= q.offset.z + q.size.z
}

/// A range of one voxel has air exactly if that voxel is empty.
proof fn lemma_has_air_cell(c: ChunkData, x: int, y: int, z: int)
    ensures
        has_air(c, x, x, y, y, z, z) <==> c.voxel(x, y, z) == AIR,
{
}

/// A quad that is drawn is one of the quads of the surface.
pub proof fn lemma_drawn_in_surface(c: ChunkData, merged: bool, k: int, upto: int)
    requires
        0 <= k < upto,
        emits(c, merged, k),
    ensures
        exists|i: int|
            0 <= i < surface_upto(c, merged, upto).len() && #[trigger] surface_upto(
                c,
                merged,
                upto,
            )[i] == quad_at(c, merged, k),
    decreases upto,
{
    let s = surface_upto(c, merged, upto);
    if k == upto - 1 {
        assert(s[s.len() - 1] == quad_at(c, merged, k));
    } else {
        lemma_drawn_in_surface(c, merged, k, upto - 1);
        let prev = surface_upto(c, merged, upto - 1);
        let i = choose|i: int| 0 <= i < prev.len() && #[trigger] prev[i] == quad_at(c, merged, k);
        assert(s[i] == quad_at(c, merged, k));
    }
}

/// Where a face of a solid voxel lies on the chunk's side or touches an
/// empty voxel, the same face of the box that holds the voxel is drawn, and
/// the quad of the box covers the face of the voxel.
pub proof fn lemma_box_face_drawn(c: ChunkData, x: int, y: int, z: int, face: FaceDirection)
    requires
        in_chunk(x, y, z),
        draws(c, false, x, y, z, face),
    ensures
        in_chunk(anchor_x(c, x, y, z), anchor_y(c, x, y, z), anchor_z(c, x, y, z)),
        draws(c, true, anchor_x(c, x, y, z), anchor_y(c, x, y, z), anchor_z(c, x, y, z), face),
        quad_contains(
            box_quad(
                c.index,
                anchor_x(c, x, y, z),
                anchor_y(c, x, y, z),
                anchor_z(c, x, y, z),
                merged_extent(c, anchor_x(c, x, y, z), anchor_y(c, x, y, z), anchor_z(c, x, y, z)),
                face,
            ),
            box_quad(c.index, x, y, z, unit(), face),
        ),
{
    let ax = anchor_x(c, x, y, z);
    let ay = anchor_y(c, x, y, z);
    let az = anchor_z(c, x, y, z);
    lemma_anchor(c, x, y, z);
    lemma_merged_extent_bounds(c, ax, ay, az);
    let e = merged_extent(c, ax, ay, az);
    let lx = ax - e.x + 1;
    let ly = ay - e.y + 1;
    let lz = az - e.z + 1;
    match face {
        FaceDirection::Top => {
            lemma_has_air_cell(c, x, y + 1, z);
            if y < 15 {
                if y < ay {
                    lemma_box_cells(c, ax, ay, az, x, y + 1, z);
                }
                assert(c.voxel(x, ay + 1, z) == AIR);
                assert(has_air(c, lx, ax, ay + 1, ay + 1, lz, az));
            }
        },
        FaceDirection::Bottom => {
            lemma_has_air_cell(c, x, y - 1, z);
            if y > 0 {
                if y > ly {
                    lemma_box_cells(c, ax, ay, az, x, y - 1, z);
                }
                assert(c.voxel(x, ly - 1, z) == AIR);
                assert(has_air(c, lx, ax, ly - 1, ly - 1, lz, az));
            }
        },
        FaceDirection::Left => {
            lemma_has_air_cell(c, x - 1, y, z);
            if x > 0 {
                if x > lx {
                    lemma_box_cells(c, ax, ay, az, x - 1, y, z);
                }
                assert(c.voxel(lx - 1, y, z) == AIR);
                assert(has_air(c, lx - 1, lx - 1, ly, ay, lz, az));
            }
        },
        FaceDirection::Right => {
            lemma_has_air_cell(c, x + 1, y, z);
            if x < 15 {
                if x < ax {
                    lemma_box_cells(c, ax, ay, az, x + 1, y, z);
                }
                assert(c.voxel(ax + 1, y, z) == AIR);
                assert(has_air(c, ax + 1, ax + 1, ly, ay, lz, az));
            }
        },
        FaceDirection::Front => {
            lemma_has_air_cell(c, x, y, z + 1);
            if z < 15 {
                if z < az {
                    lemma_box_cells(c, ax, ay, az, x, y, z + 1);
                }
                assert(c.voxel(x, y, az + 1) == AIR);
                assert(has_air(c, lx, ax, ly, ay, az + 1, az + 1));
            }
        },
        FaceDirection::Back => {
            lemma_has_air_cell(c, x, y, z - 1);
            if z > 0 {
                if z > lz {
                    lemma_box_cells(c, ax, ay, az, x, y, z - 1);
                }
                assert(c.voxel(x, y, lz - 1) == AIR);
                assert(has_air(c, lx, ax, ly, ay, lz - 1, lz - 1));
            }
        },
    }
}

/// No face is missing from the merged surface: for every face of a solid
/// voxel that lies on the chunk's side or touches an empty voxel, the merged
/// surface holds a quad that looks the same way and covers that face.
pub proof fn lemma_greedy_covers_visible_faces(
    c: ChunkData,
    x: int,
    y: int,
    z: int,
    face: FaceDirection,
)
    requires
        in_chunk(x, y, z),
        c.voxel(x, y, z) != AIR,
        box_exposed(c, x, y, z, unit(), face),
    ensures
        exists|i: int|
            0 <= i < greedy_quads(c).len() && quad_contains(
                #[trigger] greedy_quads(c)[i],
                box_quad(c.index, x, y, z, unit(), face),
            ),
{
    let ax = anchor_x(c, x, y, z);
    let ay = anchor_y(c, x, y, z);
    let az = anchor_z(c, x, y, z);
    lemma_box_face_drawn(c, x, y, z, face);
    lemma_cell_number(ax, ay, az);
    let n = cell_number(ax, ay, az);
    let k = 6 * n + face_order(face);
    assert(k / 6 == n);
    assert(k % 6 == face_order(face));
    assert(face_in_order(face_order(face)) == face);
    assert(emits(c, true, k));
    lemma_drawn_in_surface(c, true, k, face_count());
    let i = choose|i: int|
        0 <= i < greedy_quads(c).len() && #[trigger] greedy_quads(c)[i] == quad_at(c, true, k);
    assert(quad_contains(greedy_quads(c)[i], box_quad(c.index, x, y, z, unit(), face)));
}

/// The numbers below `upto` of the faces that are drawn.
pub open spec fn drawn_faces(c: ChunkData, merged: bool, upto: int) -> Set<int> {
    Set::new(|k: int| 0 <= k < upto && emits(c, merged, k))
}

/// The surface holds one quad for each face that is drawn.
pub proof fn lemma_surface_counts_drawn_faces(c: ChunkData, merged: bool, upto: int)
    requires
        0 <= upto,
    ensures
        drawn_faces(c, merged, upto).finite(),
        drawn_faces(c, merged, upto).len() == surface_upto(c, merged, upto).len(),
    decreases upto,
{
    if upto == 0 {
        assert(drawn_faces(c, merged, upto) =~= Set::empty());
    } else {
        lemma_surface_counts_drawn_faces(c, merged, upto - 1);
        let prev = drawn_faces(c, merged, upto - 1);
        if emits(c, merged, upto - 1) {
            assert(drawn_faces(c, merged, upto) =~= prev.insert(upto - 1));
        } else {
            assert(drawn_faces(c, merged, upto) =~= prev);
        }
    }
}

/// Some empty voxel in the given range of the chunk, where there is one.
pub open spec fn air_cell(c: ChunkData, x0: int, x1: int, y0: int, y1: int, z0: int, z1: int) -> (
    int,
    int,
    int,
) {
    choose|p: (int, int, int)|
        x0 <= p.0 <= x1 && y0 <= p.1 <= y1 && z0 <= p.2 <= z1 && #[trigger] c.voxel(p.0, p.1, p.2)
            == AIR
}

/// In a range that has air, the chosen voxel lies in the range and is
/// empty.
proof fn lemma_air_cell(c: ChunkData, x0: int, x1: int, y0: int, y1: int, z0: int, z1: int)
    requires
        has_air(c, x0, x1, y0, y1, z0, z1),
    ensures
        x0 <= air_cell(c, x0, x1, y0, y1, z0, z1).0 <= x1,
        y0 <= air_cell(c, x0, x1, y0, y1, z0, z1).1 <= y1,
        z0 <= air_cell(c, x0, x1, y0, y1, z0, z1).2 <= z1,
        c.voxel(
            air_cell(c, x0, x1, y0, y1, z0, z1).0,
            air_cell(c, x0, x1, y0, y1, z0, z1).1,
            air_cell(c, x0, x1, y0, y1, z0, z1).2,
        ) == AIR,
{
    let (x, y, z) = choose|x: int, y: int, z: int|
        x0 <= x <= x1 && y0 <= y <= y1 && z0 <= z <= z1 && #[trigger] c.voxel(x, y, z) == AIR;
    let p = (x, y, z);
    assert(x0 <= p.0 <= x1 && y0 <= p.1 <= y1 && z0 <= p.2 <= z1 && c.voxel(p.0, p.1, p.2) == AIR);
}

/// A voxel of the box anchored at (ax, ay, az) whose own face `face` lies
/// on the chunk's side or touches an empty voxel, where the box's face is
/// shown.
pub open spec fn shown_cell(c: ChunkData, ax: int, ay: int, az: int, face: FaceDirection) -> (
    int,
    int,
    int,
) {
    let lx = ax - x_run(c, ax, ay, az) + 1;
    let ly = ay - y_run(c, ax, ay, az) + 1;
    let lz = az - z_run(c, ax, ay, az) + 1;
    match face {
        FaceDirection::Top => if ay == 15 {
            (ax, ay, az)
        } else {
            let p = air_cell(c, lx, ax, ay + 1, ay + 1, lz, az);
            (p.0, ay, p.2)
        },
        FaceDirection::Bottom => if ly == 0 {
            (ax, ly, az)
        } else {
            let p = air_cell(c, lx, ax, ly - 1, ly - 1, lz, az);
            (p.0, ly, p.2)
        },
        FaceDirection::Left => if lx == 0 {
            (lx, ay, az)
        } else {
            let p = air_cell(c, lx - 1, lx - 1, ly, ay, lz, az);
            (lx, p.1, p.2)
        },
        FaceDirection::Right => if ax == 15 {
            (ax, ay, az)
        } else {
            let p = air_cell(c, ax + 1, ax + 1, ly, ay, lz, az);
            (ax, p.1, p.2)
        },
        FaceDirection::Front => if az == 15 {
            (ax, ay, az)
        } else {
            let p = air_cell(c, lx, ax, ly, ay, az + 1, az + 1);
            (p.0, p.1, az)
        },
        FaceDirection::Back => if lz == 0 {
            (ax, ay, lz)
        } else {
            let p = air_cell(c, lx, ax, ly, ay, lz - 1, lz - 1);
            (p.0, p.1, lz)
        },
    }
}

/// Where a face of a box is drawn, the box holds a voxel whose own face on
/// that side is drawn without merging.
pub proof fn lemma_shown_cell(c: ChunkData, ax: int, ay: int, az: int, face: FaceDirection)
    requires
        in_chunk(ax, ay, az),
        draws(c, true, ax, ay, az, face),
    ensures
        kept(c, ax, ay, az),
        in_box(
            c,
            ax,
            ay,
            az,
            shown_cell(c, ax, ay, az, face).0,
            shown_cell(c, ax, ay, az, face).1,
            shown_cell(c, ax, ay, az, face).2,
        ),
        in_chunk(
            shown_cell(c, ax, ay, az, face).0,
            shown_cell(c, ax, ay, az, face).1,
            shown_cell(c, ax, ay, az, face).2,
        ),
        draws(
            c,
            false,
            shown_cell(c, ax, ay, az, face).0,
            shown_cell(c, ax, ay, az, face).1,
            shown_cell(c, ax, ay, az, face).2,
            face,
        ),
{
    lemma_merged_extent_bounds(c, ax, ay, az);
    let e = merged_extent(c, ax, ay, az);
    let lx = ax - e.x + 1;
    let ly = ay - e.y + 1;
    let lz = az - e.z + 1;
    let w = shown_cell(c, ax, ay, az, face);
    match face {
        FaceDirection::Top => {
            if ay != 15 {
                lemma_air_cell(c, lx, ax, ay + 1, ay + 1, lz, az);
            }
            lemma_has_air_cell(c, w.0, w.1 + 1, w.2);
        },
        FaceDirection::Bottom => {
            if ly != 0 {
                lemma_air_cell(c, lx, ax, ly - 1, ly - 1, lz, az);
            }
            lemma_has_air_cell(c, w.0, w.1 - 1, w.2);
        },
        FaceDirection::Left => {
            if lx != 0 {
                lemma_air_cell(c, lx - 1, lx - 1, ly, ay, lz, az);
            }
            lemma_has_air_cell(c, w.0 - 1, w.1, w.2);
        },
        FaceDirection::Right => {
            if ax != 15 {
                lemma_air_cell(c, ax + 1, ax + 1, ly, ay, lz, az);
            }
            lemma_has_air_cell(c, w.0 + 1, w.1, w.2);
        },
        FaceDirection::Front => {
            if az != 15 {
                lemma_air_cell(c, lx, ax, ly, ay, az + 1, az + 1);
            }
            lemma_has_air_cell(c, w.0, w.1, w.2 + 1);
        },
        FaceDirection::Back => {
            if lz != 0 {
                lemma_air_cell(c, lx, ax, ly, ay, lz - 1, lz - 1);
            }
            lemma_has_air_cell(c, w.0, w.1, w.2 - 1);
        },
    }
    lemma_box_cells(c, ax, ay, az, w.0, w.1, w.2);
}

/// The number of a face of a single voxel that is drawn without merging
/// where face number `k` is drawn after merging: the same side of a voxel
/// of the box.
pub open spec fn shown_face(c: ChunkData, k: int) -> int {
    let n = k / 6;
    let w = shown_cell(c, cell_x(n), cell_y(n), cell_z(n), face_in_order(k % 6));
    6 * cell_number(w.0, w.1, w.2) + k % 6
}

/// Merging does not add faces: the merged surface of a chunk has at most as
/// many quads as its unmerged surface, which has one quad for each face of
/// a solid voxel that lies on the chunk's side or touches an empty voxel.
pub proof fn lemma_greedy_no_more_quads_than_naive(c: ChunkData)
    ensures
        greedy_quads(c).len() <= naive_quads(c).len(),
{
    let merged_set = drawn_faces(c, true, face_count());
    let plain_set = drawn_faces(c, false, face_count());
    lemma_surface_counts_drawn_faces(c, true, face_count());
    lemma_surface_counts_drawn_faces(c, false, face_count());
    let f = |k: int| shown_face(c, k);
    let image = merged_set.map(f);
    assert forall|k: int| merged_set.contains(k) implies plain_set.contains(#[trigger] f(k)) by {
        lemma_shown_face(c, k);
    }
    assert forall|k1: int, k2: int|
        merged_set.contains(k1) && merged_set.contains(k2) && #[trigger] f(k1) == #[trigger] f(
            k2,
        ) implies k1 == k2 by {
        lemma_shown_face(c, k1);
        lemma_shown_face(c, k2);
    }
    assert(injective_on(f, merged_set));
    lemma_map_size(merged_set, image, f);
    assert(image.subset_of(plain_set)) by {
        assert forall|j: int| image.contains(j) implies plain_set.contains(j) by {
            let k = choose|k: int| merged_set.contains(k) && f(k) == j;
            assert(plain_set.contains(f(k)));
        }
    }
    lemma_len_subset(image, plain_set);
}

/// The face that stands for a drawn face of a box is drawn without merging,
/// and the face of the box can be told from it.
proof fn lemma_shown_face(c: ChunkData, k: int)
    requires
        0 <= k < face_count(),
        emits(c, true, k),
    ensures
        0 <= shown_face(c, k) < face_count(),
        emits(c, false, shown_face(c, k)),
        shown_face(c, k) % 6 == k % 6,
        anchor_x(
            c,
            cell_x(shown_face(c, k) / 6),
            cell_y(shown_face(c, k) / 6),
            cell_z(shown_face(c, k) / 6),
        ) == cell_x(k / 6),
        anchor_y(
            c,
            cell_x(shown_face(c, k) / 6),
            cell_y(shown_face(c, k) / 6),
            cell_z(shown_face(c, k) / 6),
        ) == cell_y(k / 6),
        anchor_z(
            c,
            cell_x(shown_face(c, k) / 6),
            cell_y(shown_face(c, k) / 6),
            cell_z(shown_face(c, k) / 6),
        ) == cell_z(k / 6),
        k == 6 * cell_number(cell_x(k / 6), cell_y(k / 6), cell_z(k / 6)) + k % 6,
{
    let n = k / 6;
    let ax = cell_x(n);
    let ay = cell_y(n);
    let az = cell_z(n);
    let face = face_in_order(k % 6);
    assert(0 <= n < cell_count());
    assert(in_chunk(ax, ay, az));
    assert(cell_number(ax, ay, az) == n);
    lemma_shown_cell(c, ax, ay, az, face);
    let w = shown_cell(c, ax, ay, az, face);
    lemma_cell_number(w.0, w.1, w.2);
    let j = shown_face(c, k);
    assert(j / 6 == cell_number(w.0, w.1, w.2));
    assert(j % 6 == k % 6);
    lemma_anchor_unique(c, ax, ay, az, w.0, w.1, w.2);
}

} // verus!
