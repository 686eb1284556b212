//! What the merging passes leave behind: every cell of a chunk lies in the
//! box of exactly one anchor, and all cells of a box hold one material.

use crate::chunk::{ChunkData, in_chunk};
use crate::merge::{
    kept, lemma_x_run_bounds, lemma_y_run_bounds, lemma_z_run_bounds, x_kept, x_run, xz_kept,
    y_link, y_run, z_link, z_run,
};
use vstd::prelude::*;

verus! {

/// Whether the cell (x, y, z) lies in the box that is anchored at
/// (ax, ay, az).
pub open spec fn in_box(c: ChunkData, ax: int, ay: int, az: int, x: int, y: int, z: int) -> bool {
    &&& ax - x_run(c, ax, ay, az) < x <= ax
    &&& ay - y_run(c, ax, ay, az) < y <= ay
    &&& az - z_run(c, ax, ay, az) < z <= az
}

/// The cells of a run along x hold one material, and the run of each of
/// them reaches back to the same cell.
pub proof fn lemma_x_run_cells(c: ChunkData, x: int, y: int, z: int, x1: int)
    requires
        0 <= x < 16,
        x - x_run(c, x, y, z) < x1 <= x,
    ensures
        0 <= x1,
        c.voxel(x1, y, z) == c.voxel(x, y, z),
        x_run(c, x1, y, z) == x_run(c, x, y, z) - (x - x1),
    decreases x,
{
    lemma_x_run_bounds(c, x, y, z);
    if x1 < x {
        lemma_x_run_cells(c, x - 1, y, z, x1);
    }
}

/// The rows of a slab are whole runs along x of one material and one
/// length, and each of them but the last is taken up by the next.
pub proof fn lemma_z_run_cells(c: ChunkData, x: int, y: int, z: int, z1: int)
    requires
        0 <= z < 16,
        x_kept(c, x, y, z),
        z - z_run(c, x, y, z) < z1 <= z,
    ensures
        0 <= z1,
        x_kept(c, x, y, z1),
        c.voxel(x, y, z1) == c.voxel(x, y, z),
        x_run(c, x, y, z1) == x_run(c, x, y, z),
        z_run(c, x, y, z1) == z_run(c, x, y, z) - (z - z1),
        z1 < z ==> z_link(c, x, y, z1 + 1),
    decreases z,
{
    lemma_z_run_bounds(c, x, y, z);
    if z1 < z {
        lemma_z_run_cells(c, x, y, z - 1, z1);
    }
}

/// The slabs of a box are whole slabs of one material and one extent, and
/// each of them but the last is taken up by the next.
pub proof fn lemma_y_run_cells(c: ChunkData, x: int, y: int, z: int, y1: int)
    requires
        0 <= y < 16,
        xz_kept(c, x, y, z),
        y - y_run(c, x, y, z) < y1 <= y,
    ensures
        0 <= y1,
        xz_kept(c, x, y1, z),
        c.voxel(x, y1, z) == c.voxel(x, y, z),
        x_run(c, x, y1, z) == x_run(c, x, y, z),
        z_run(c, x, y1, z) == z_run(c, x, y, z),
        y_run(c, x, y1, z) == y_run(c, x, y, z) - (y - y1),
        y1 < y ==> y_link(c, x, y1 + 1, z),
    decreases y,
{
    lemma_y_run_bounds(c, x, y, z);
    if y1 < y {
        lemma_y_run_cells(c, x, y - 1, z, y1);
    }
}

/// Every cell of a box lies inside the chunk and holds the material of the
/// box's anchor; the slab and the row that lead from the anchor to the cell
/// have the extent of the box.
pub proof fn lemma_box_cells(c: ChunkData, ax: int, ay: int, az: int, x: int, y: int, z: int)
    requires
        in_chunk(ax, ay, az),
        kept(c, ax, ay, az),
        in_box(c, ax, ay, az, x, y, z),
    ensures
        in_chunk(x, y, z),
        c.voxel(x, y, z) == c.voxel(ax, ay, az),
        xz_kept(c, ax, y, az),
        x_run(c, ax, y, az) == x_run(c, ax, ay, az),
        z_run(c, ax, y, az) == z_run(c, ax, ay, az),
        x_kept(c, ax, y, z),
        x_run(c, ax, y, z) == x_run(c, ax, ay, az),
{
    lemma_y_run_cells(c, ax, ay, az, y);
    lemma_z_run_cells(c, ax, y, az, z);
    lemma_x_run_cells(c, ax, y, z, x);
}

/// Where the run along x ends that the cell (x, y, z) belongs to.
pub open spec fn x_end(c: ChunkData, x: int, y: int, z: int) -> int
    decreases 15 - x,
{
    if x < 15 && !x_kept(c, x, y, z) {
        x_end(c, x + 1, y, z)
    } else {
        x
    }
}

/// Where the slab ends that the row ending at (x, y, z) belongs to.
pub open spec fn z_end(c: ChunkData, x: int, y: int, z: int) -> int
    decreases 15 - z,
{
    if z < 15 && z_link(c, x, y, z + 1) {
        z_end(c, x, y, z + 1)
    } else {
        z
    }
}

/// Where the box ends that the slab ending at (x, y, z) belongs to.
pub open spec fn y_end(c: ChunkData, x: int, y: int, z: int) -> int
    decreases 15 - y,
{
    if y < 15 && y_link(c, x, y + 1, z) {
        y_end(c, x, y + 1, z)
    } else {
        y
    }
}

/// The x of the anchor of the box that holds the cell (x, y, z).
pub open spec fn anchor_x(c: ChunkData, x: int, y: int, z: int) -> int {
    x_end(c, x, y, z)
}

/// The z of the anchor of the box that holds the cell (x, y, z).
pub open spec fn anchor_z(c: ChunkData, x: int, y: int, z: int) -> int {
    z_end(c, anchor_x(c, x, y, z), y, z)
}

/// The y of the anchor of the box that holds the cell (x, y, z).
pub open spec fn anchor_y(c: ChunkData, x: int, y: int, z: int) -> int {
    y_end(c, anchor_x(c, x, y, z), y, anchor_z(c, x, y, z))
}

/// The run along x that a cell belongs to ends inside the chunk, at a cell
/// of the same material whose run reaches back over the cell.
pub proof fn lemma_x_end(c: ChunkData, x: int, y: int, z: int)
    requires
        0 <= x < 16,
    ensures
        x <= x_end(c, x, y, z) < 16,
        x_kept(c, x_end(c, x, y, z), y, z),
        c.voxel(x_end(c, x, y, z), y, z) == c.voxel(x, y, z),
        x_run(c, x, y, z) == x_run(c, x_end(c, x, y, z), y, z) - (x_end(c, x, y, z) - x),
    decreases 15 - x,
{
    if x < 15 && !x_kept(c, x, y, z) {
        lemma_x_end(c, x + 1, y, z);
    }
}

/// The slab that a row belongs to ends inside the chunk, at a row of the
/// same material and length that has taken up the rows back to that row.
pub proof fn lemma_z_end(c: ChunkData, x: int, y: int, z: int)
    requires
        0 <= z < 16,
        x_kept(c, x, y, z),
    ensures
        z <= z_end(c, x, y, z) < 16,
        xz_kept(c, x, y, z_end(c, x, y, z)),
        c.voxel(x, y, z_end(c, x, y, z)) == c.voxel(x, y, z),
        x_run(c, x, y, z_end(c, x, y, z)) == x_run(c, x, y, z),
        z_run(c, x, y, z) == z_run(c, x, y, z_end(c, x, y, z)) - (z_end(c, x, y, z) - z),
    decreases 15 - z,
{
    if z < 15 && z_link(c, x, y, z + 1) {
        lemma_z_end(c, x, y, z + 1);
    }
}

/// The box that a slab belongs to ends inside the chunk, at a slab of the
/// same material and extent that has taken up the slabs back to that slab.
pub proof fn lemma_y_end(c: ChunkData, x: int, y: int, z: int)
    requires
        0 <= y < 16,
        xz_kept(c, x, y, z),
    ensures
        y <= y_end(c, x, y, z) < 16,
        kept(c, x, y_end(c, x, y, z), z),
        c.voxel(x, y_end(c, x, y, z), z) == c.voxel(x, y, z),
        x_run(c, x, y_end(c, x, y, z), z) == x_run(c, x, y, z),
        z_run(c, x, y_end(c, x, y, z), z) == z_run(c, x, y, z),
        y_run(c, x, y, z) == y_run(c, x, y_end(c, x, y, z), z) - (y_end(c, x, y, z) - y),
    decreases 15 - y,
{
    if y < 15 && y_link(c, x, y + 1, z) {
        lemma_y_end(c, x, y + 1, z);
    }
}

/// Every cell of a chunk lies in the box of an anchor, and that anchor holds
/// the cell's material.
pub proof fn lemma_anchor(c: ChunkData, x: int, y: int, z: int)
    requires
        in_chunk(x, y, z),
    ensures
        in_chunk(anchor_x(c, x, y, z), anchor_y(c, x, y, z), anchor_z(c, x, y, z)),
        kept(c, anchor_x(c, x, y, z), anchor_y(c, x, y, z), anchor_z(c, x, y, z)),
        in_box(c, anchor_x(c, x, y, z), anchor_y(c, x, y, z), anchor_z(c, x, y, z), x, y, z),
        c.voxel(anchor_x(c, x, y, z), anchor_y(c, x, y, z), anchor_z(c, x, y, z)) == c.voxel(
            x,
            y,
            z,
        ),
{
    let ax = anchor_x(c, x, y, z);
    let az = anchor_z(c, x, y, z);
    lemma_x_end(c, x, y, z);
    lemma_z_end(c, ax, y, z);
    lemma_y_end(c, ax, y, az);
    lemma_x_run_bounds(c, x, y, z);
    lemma_z_run_bounds(c, ax, y, z);
    lemma_y_run_bounds(c, ax, y, az);
}

/// A cell within the reach of a run along x belongs to that run.
proof fn lemma_x_end_reached(c: ChunkData, ex: int, y: int, z: int, x: int)
    requires
        0 <= ex < 16,
        x_kept(c, ex, y, z),
        ex - x_run(c, ex, y, z) < x <= ex,
    ensures
        x_end(c, x, y, z) == ex,
    decreases ex - x,
{
    if x < ex {
        lemma_x_run_cells(c, ex, y, z, x);
        lemma_x_run_cells(c, ex, y, z, x + 1);
        lemma_x_end_reached(c, ex, y, z, x + 1);
    }
}

/// A row within the reach of a slab belongs to that slab.
proof fn lemma_z_end_reached(c: ChunkData, x: int, y: int, ez: int, z: int)
    requires
        0 <= ez < 16,
        xz_kept(c, x, y, ez),
        ez - z_run(c, x, y, ez) < z <= ez,
    ensures
        z_end(c, x, y, z) == ez,
    decreases ez - z,
{
    if z < ez {
        lemma_z_run_cells(c, x, y, ez, z);
        lemma_z_end_reached(c, x, y, ez, z + 1);
    }
}

/// A slab within the reach of a box belongs to that box.
proof fn lemma_y_end_reached(c: ChunkData, x: int, ey: int, z: int, y: int)
    requires
        0 <= ey < 16,
        kept(c, x, ey, z),
        ey - y_run(c, x, ey, z) < y <= ey,
    ensures
        y_end(c, x, y, z) == ey,
    decreases ey - y,
{
    if y < ey {
        lemma_y_run_cells(c, x, ey, z, y);
        lemma_y_end_reached(c, x, ey, z, y + 1);
    }
}

/// Boxes do not overlap: a cell lies in the box of one anchor only.
pub proof fn lemma_anchor_unique(c: ChunkData, ax: int, ay: int, az: int, x: int, y: int, z: int)
    requires
        in_chunk(ax, ay, az),
        kept(c, ax, ay, az),
        in_box(c, ax, ay, az, x, y, z),
    ensures
        anchor_x(c, x, y, z) == ax,
        anchor_y(c, x, y, z) == ay,
        anchor_z(c, x, y, z) == az,
{
    lemma_box_cells(c, ax, ay, az, x, y, z);
    lemma_x_end_reached(c, ax, y, z, x);
    lemma_z_end_reached(c, ax, y, az, z);
    lemma_y_end_reached(c, ax, ay, az, y);
}

} // verus!
