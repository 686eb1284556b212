//! Merging of neighbouring voxels of one material into boxes.
//!
//! Three passes over a chunk grow boxes along x, then along z, then along y.
//! Each box is recorded at its corner with the greatest coordinates, the
//! anchor, as the box's extent; every other cell of a box is absorbed and has
//! the extent zero.

use crate::chunk::{ChunkData, in_chunk};
use vstd::prelude::*;

verus! {

/// How far a box reaches back from its anchor along each axis, in voxels.
/// All three are zero for an absorbed cell and at least one for an anchor.
#[derive(Debug, Copy, Clone, PartialEq, Eq, Structural)]
pub struct Extent {
    pub x: u8,
    pub y: u8,
    pub z: u8,
}

/// The extent of an absorbed cell.
pub open spec fn absorbed() -> Extent {
    Extent { x: 0, y: 0, z: 0 }
}

/// The extent of a single voxel.
pub open spec fn unit() -> Extent {
    Extent { x: 1, y: 1, z: 1 }
}

impl Extent {
    /// Whether this is the extent of an absorbed cell.
    pub open spec fn is_absorbed(&self) -> bool {
        self.x == 0 && self.y == 0 && self.z == 0
    }

    /// Whether all three parts are zero.
    pub fn is_zero(&self) -> (b: bool)
        ensures
            b == self.is_absorbed(),
    {
        self.x == 0 && self.y == 0 && self.z == 0
    }
}

/// Whether two voxels can belong to one box: they are of the same material.
pub fn can_merge_mesh(voxel1: u8, voxel2: u8) -> (b: bool)
    ensures
        b == (voxel1 == voxel2),
{
    voxel1 == voxel2
}

/// Number of voxels of one material that end at (x, y, z) going up along x:
/// the cell itself and the cells before it, as long as the material stays
/// the same.
pub open spec fn x_run(c: ChunkData, x: int, y: int, z: int) -> int
    decreases x,
{
    if 0 < x && c.voxel(x, y, z) == c.voxel(x - 1, y, z) {
        1 + x_run(c, x - 1, y, z)
    } else {
        1
    }
}

/// Whether the run along x ends at (x, y, z): the next cell along x lies
/// outside the chunk or holds another material.
pub open spec fn x_kept(c: ChunkData, x: int, y: int, z: int) -> bool {
    x == 15 || c.voxel(x + 1, y, z) != c.voxel(x, y, z)
}

/// Whether the row that ends at (x, y, z) takes up the row that ends at
/// (x, y, z - 1): both are whole runs along x, of the same material and of
/// the same length.
pub open spec fn z_link(c: ChunkData, x: int, y: int, z: int) -> bool {
    &&& 0 < z
    &&& x_kept(c, x, y, z)
    &&& x_kept(c, x, y, z - 1)
    &&& c.voxel(x, y, z) == c.voxel(x, y, z - 1)
    &&& x_run(c, x, y, z) == x_run(c, x, y, z - 1)
}

/// Number of rows that the pass along z has joined into the slab that ends
/// at (x, y, z).
pub open spec fn z_run(c: ChunkData, x: int, y: int, z: int) -> int
    decreases z,
{
    if z_link(c, x, y, z) {
        1 + z_run(c, x, y, z - 1)
    } else {
        1
    }
}

/// Whether (x, y, z) is still an anchor after the pass along z.
pub open spec fn xz_kept(c: ChunkData, x: int, y: int, z: int) -> bool {
    x_kept(c, x, y, z) && !(z < 15 && z_link(c, x, y, z + 1))
}

/// Whether the slab that ends at (x, y, z) takes up the slab that ends at
/// (x, y - 1, z): both are whole slabs, of the same material and of the same
/// extent along x and z.
pub open spec fn y_link(c: ChunkData, x: int, y: int, z: int) -> bool {
    &&& 0 < y
    &&& xz_kept(c, x, y, z)
    &&& xz_kept(c, x, y - 1, z)
    &&& c.voxel(x, y, z) == c.voxel(x, y - 1, z)
    &&& x_run(c, x, y, z) == x_run(c, x, y - 1, z)
    &&& z_run(c, x, y, z) == z_run(c, x, y - 1, z)
}

/// Number of slabs that the pass along y has joined into the box that ends
/// at (x, y, z).
pub open spec fn y_run(c: ChunkData, x: int, y: int, z: int) -> int
    decreases y,
{
    if y_link(c, x, y, z) {
        1 + y_run(c, x, y - 1, z)
    } else {
        1
    }
}

/// Whether (x, y, z) is an anchor after all three passes.
pub open spec fn kept(c: ChunkData, x: int, y: int, z: int) -> bool {
    xz_kept(c, x, y, z) && !(y < 15 && y_link(c, x, y + 1, z))
}

/// The extents after the pass along x.
pub open spec fn extent_x(c: ChunkData, x: int, y: int, z: int) -> Extent {
    if x_kept(c, x, y, z) {
        Extent { x: x_run(c, x, y, z) as u8, y: 1, z: 1 }
    } else {
        absorbed()
    }
}

/// The extents after the passes along x and z.
pub open spec fn extent_xz(c: ChunkData, x: int, y: int, z: int) -> Extent {
    if xz_kept(c, x, y, z) {
        Extent { x: x_run(c, x, y, z) as u8, y: 1, z: z_run(c, x, y, z) as u8 }
    } else {
        absorbed()
    }
}

/// The extents after all three passes: at an anchor the lengths of the runs
/// along the three axes, elsewhere zero.
pub open spec fn merged_extent(c: ChunkData, x: int, y: int, z: int) -> Extent {
    if kept(c, x, y, z) {
        Extent {
            x: x_run(c, x, y, z) as u8,
            y: y_run(c, x, y, z) as u8,
            z: z_run(c, x, y, z) as u8,
        }
    } else {
        absorbed()
    }
}

/// A run along x that ends at x holds at least the cell itself and at most
/// the x + 1 cells from the chunk's side up to it.
pub proof fn lemma_x_run_bounds(c: ChunkData, x: int, y: int, z: int)
    requires
        0 <= x < 16,
    ensures
        1 <= x_run(c, x, y, z) <= x + 1,
    decreases x,
{
    if 0 < x && c.voxel(x, y, z) == c.voxel(x - 1, y, z) {
        lemma_x_run_bounds(c, x - 1, y, z);
    }
}

/// A slab that ends at z holds between 1 and z + 1 rows.
pub proof fn lemma_z_run_bounds(c: ChunkData, x: int, y: int, z: int)
    requires
        0 <= z < 16,
    ensures
        1 <= z_run(c, x, y, z) <= z + 1,
    decreases z,
{
    if z_link(c, x, y, z) {
        lemma_z_run_bounds(c, x, y, z - 1);
    }
}

/// A box that ends at y holds between 1 and y + 1 slabs.
pub proof fn lemma_y_run_bounds(c: ChunkData, x: int, y: int, z: int)
    requires
        0 <= y < 16,
    ensures
        1 <= y_run(c, x, y, z) <= y + 1,
    decreases y,
{
    if y_link(c, x, y, z) {
        lemma_y_run_bounds(c, x, y - 1, z);
    }
}

/// The extent of an anchor reaches back at most to the chunk's sides, and
/// is at least one voxel along each axis.
pub proof fn lemma_merged_extent_bounds(c: ChunkData, x: int, y: int, z: int)
    requires
        in_chunk(x, y, z),
    ensures
        merged_extent(c, x, y, z).is_absorbed() <==> !kept(c, x, y, z),
        kept(c, x, y, z) ==> {
            &&& 1 <= merged_extent(c, x, y, z).x <= x + 1
            &&& 1 <= merged_extent(c, x, y, z).y <= y + 1
            &&& 1 <= merged_extent(c, x, y, z).z <= z + 1
            &&& merged_extent(c, x, y, z).x == x_run(c, x, y, z)
            &&& merged_extent(c, x, y, z).y == y_run(c, x, y, z)
            &&& merged_extent(c, x, y, z).z == z_run(c, x, y, z)
        },
{
    lemma_x_run_bounds(c, x, y, z);
    lemma_y_run_bounds(c, x, y, z);
    lemma_z_run_bounds(c, x, y, z);
}

/// Whether row (b, d) comes before row (y, z) where the rows are taken with
/// the first coordinate as the outer one.
pub open spec fn row_before(b: int, d: int, y: int, z: int) -> bool {
    b < y || (b == y && d < z)
}

/// The pass along x: in every row along x, each cell of the same material as
/// the cell before it takes up that cell's extent along x.
fn merge_along_x(chunk: &ChunkData) -> (sizes: [[[Extent; 16]; 16]; 16])
    ensures
        forall|x: int, y: int, z: int|
            in_chunk(x, y, z) ==> #[trigger] sizes[x][y][z] == extent_x(*chunk, x, y, z),
{
    let one = Extent { x: 1, y: 1, z: 1 };
    let zero = Extent { x: 0, y: 0, z: 0 };
    let mut sizes = [[[one; 16]; 16]; 16];
    let mut y: usize = 0;
    while y < 16
        invariant
            y <= 16,
            one == unit(),
            zero == absorbed(),
            forall|a: int, b: int, d: int|
                in_chunk(a, b, d) && b < y ==> #[trigger] sizes[a][b][d] == extent_x(
                    *chunk,
                    a,
                    b,
                    d,
                ),
            forall|a: int, b: int, d: int|
                in_chunk(a, b, d) && b >= y ==> #[trigger] sizes[a][b][d] == unit(),
        decreases 16 - y,
    {
        let mut z: usize = 0;
        while z < 16
            invariant
                y < 16,
                z <= 16,
                one == unit(),
                zero == absorbed(),
                forall|a: int, b: int, d: int|
                    in_chunk(a, b, d) && row_before(b, d, y as int, z as int)
                        ==> #[trigger] sizes[a][b][d] == extent_x(*chunk, a, b, d),
                forall|a: int, b: int, d: int|
                    in_chunk(a, b, d) && !row_before(b, d, y as int, z as int)
                        ==> #[trigger] sizes[a][b][d] == unit(),
            decreases 16 - z,
        {
            proof {
                reveal_with_fuel(x_run, 2);
            }
            let mut x: usize = 1;
            while x < 16
                invariant
                    y < 16,
                    z < 16,
                    1 <= x <= 16,
                    one == unit(),
                    zero == absorbed(),
                    forall|a: int, b: int, d: int|
                        in_chunk(a, b, d) && row_before(b, d, y as int, z as int)
                            ==> #[trigger] sizes[a][b][d] == extent_x(*chunk, a, b, d),
                    forall|a: int, b: int, d: int|
                        in_chunk(a, b, d) && !row_before(b, d, y as int, z as int) && !(b == y && d
                            == z) ==> #[trigger] sizes[a][b][d] == unit(),
                    forall|a: int|
                        0 <= a < x - 1 ==> #[trigger] sizes[a][y as int][z as int] == extent_x(
                            *chunk,
                            a,
                            y as int,
                            z as int,
                        ),
                    sizes[x - 1][y as int][z as int] == (Extent {
                        x: x_run(*chunk, x - 1, y as int, z as int) as u8,
                        y: 1,
                        z: 1,
                    }),
                    forall|a: int| x <= a < 16 ==> #[trigger] sizes[a][y as int][z as int] == unit(),
                decreases 16 - x,
            {
                proof {
                    lemma_x_run_bounds(*chunk, x - 1, y as int, z as int);
                    lemma_x_run_bounds(*chunk, x as int, y as int, z as int);
                }
                if can_merge_mesh(chunk.voxels[x][y][z], chunk.voxels[x - 1][y][z]) {
                    let here = sizes[x][y][z];
                    let back = sizes[x - 1][y][z];
                    sizes[x][y][z] = Extent { x: here.x + back.x, y: here.y, z: here.z };
                    sizes[x - 1][y][z] = zero;
                }
                x += 1;
            }
            z += 1;
        }
        y += 1;
    }
    sizes
}

/// The cell (x, y, z) while the pass along z stands just behind it: it has
/// taken up the rows before it and has not been taken up itself.
pub open spec fn open_xz(c: ChunkData, x: int, y: int, z: int) -> Extent {
    if x_kept(c, x, y, z) {
        Extent { x: x_run(c, x, y, z) as u8, y: 1, z: z_run(c, x, y, z) as u8 }
    } else {
        absorbed()
    }
}

/// The pass along z: in every row along z, each anchor takes up the anchor
/// before it where both are of the same material and of the same extent
/// along x.
fn merge_along_z(chunk: &ChunkData, after_x: [[[Extent; 16]; 16]; 16]) -> (sizes: [[[Extent;
    16]; 16]; 16])
    requires
        forall|x: int, y: int, z: int|
            in_chunk(x, y, z) ==> #[trigger] after_x[x][y][z] == extent_x(*chunk, x, y, z),
    ensures
        forall|x: int, y: int, z: int|
            in_chunk(x, y, z) ==> #[trigger] sizes[x][y][z] == extent_xz(*chunk, x, y, z),
{
    let zero = Extent { x: 0, y: 0, z: 0 };
    let mut sizes = after_x;
    let mut y: usize = 0;
    while y < 16
        invariant
            y <= 16,
            zero == absorbed(),
            forall|a: int, b: int, d: int|
                in_chunk(a, b, d) && b < y ==> #[trigger] sizes[a][b][d] == extent_xz(
                    *chunk,
                    a,
                    b,
                    d,
                ),
            forall|a: int, b: int, d: int|
                in_chunk(a, b, d) && b >= y ==> #[trigger] sizes[a][b][d] == extent_x(
                    *chunk,
                    a,
                    b,
                    d,
                ),
        decreases 16 - y,
    {
        let mut x: usize = 0;
        while x < 16
            invariant
                y < 16,
                x <= 16,
                zero == absorbed(),
                forall|a: int, b: int, d: int|
                    in_chunk(a, b, d) && row_before(b, a, y as int, x as int)
                        ==> #[trigger] sizes[a][b][d] == extent_xz(*chunk, a, b, d),
                forall|a: int, b: int, d: int|
                    in_chunk(a, b, d) && !row_before(b, a, y as int, x as int)
                        ==> #[trigger] sizes[a][b][d] == extent_x(*chunk, a, b, d),
            decreases 16 - x,
        {
            proof {
                reveal_with_fuel(z_run, 2);
                lemma_x_run_bounds(*chunk, x as int, y as int, 0);
            }
            let mut z: usize = 1;
            while z < 16
                invariant
                    y < 16,
                    x < 16,
                    1 <= z <= 16,
                    zero == absorbed(),
                    forall|a: int, b: int, d: int|
                        in_chunk(a, b, d) && row_before(b, a, y as int, x as int)
                            ==> #[trigger] sizes[a][b][d] == extent_xz(*chunk, a, b, d),
                    forall|a: int, b: int, d: int|
                        in_chunk(a, b, d) && !row_before(b, a, y as int, x as int) && !(b == y && a
                            == x) ==> #[trigger] sizes[a][b][d] == extent_x(*chunk, a, b, d),
                    forall|d: int|
                        0 <= d < z - 1 ==> #[trigger] sizes[x as int][y as int][d] == extent_xz(
                            *chunk,
                            x as int,
                            y as int,
                            d,
                        ),
                    sizes[x as int][y as int][z - 1] == open_xz(*chunk, x as int, y as int, z - 1),
                    forall|d: int|
                        z <= d < 16 ==> #[trigger] sizes[x as int][y as int][d] == extent_x(
                            *chunk,
                            x as int,
                            y as int,
                            d,
                        ),
                decreases 16 - z,
            {
                proof {
                    lemma_x_run_bounds(*chunk, x as int, y as int, z as int);
                    lemma_x_run_bounds(*chunk, x as int, y as int, z - 1);
                    lemma_z_run_bounds(*chunk, x as int, y as int, z - 1);
                    lemma_z_run_bounds(*chunk, x as int, y as int, z as int);
                }
                let here = sizes[x][y][z];
                let back = sizes[x][y][z - 1];
                if !here.is_zero() && !back.is_zero() {
                    if can_merge_mesh(chunk.voxels[x][y][z], chunk.voxels[x][y][z - 1]) && back.x
                        == here.x {
                        sizes[x][y][z] = Extent { x: here.x, y: here.y, z: here.z + back.z };
                        sizes[x][y][z - 1] = zero;
                    }
                }
                z += 1;
            }
            x += 1;
        }
        y += 1;
    }
    sizes
}

/// The cell (x, y, z) while the pass along y stands just behind it.
pub open spec fn open_xyz(c: ChunkData, x: int, y: int, z: int) -> Extent {
    if xz_kept(c, x, y, z) {
        Extent {
            x: x_run(c, x, y, z) as u8,
            y: y_run(c, x, y, z) as u8,
            z: z_run(c, x, y, z) as u8,
        }
    } else {
        absorbed()
    }
}

/// The pass along y: in every row along y, each anchor takes up the anchor
/// before it where both are of the same material and of the same extent
/// along x and along z.
fn merge_along_y(chunk: &ChunkData, after_xz: [[[Extent; 16]; 16]; 16]) -> (sizes: [[[Extent;
    16]; 16]; 16])
    requires
        forall|x: int, y: int, z: int|
            in_chunk(x, y, z) ==> #[trigger] after_xz[x][y][z] == extent_xz(*chunk, x, y, z),
    ensures
        forall|x: int, y: int, z: int|
            in_chunk(x, y, z) ==> #[trigger] sizes[x][y][z] == merged_extent(*chunk, x, y, z),
{
    let zero = Extent { x: 0, y: 0, z: 0 };
    let mut sizes = after_xz;
    let mut x: usize = 0;
    while x < 16
        invariant
            x <= 16,
            zero == absorbed(),
            forall|a: int, b: int, d: int|
                in_chunk(a, b, d) && a < x ==> #[trigger] sizes[a][b][d] == merged_extent(
                    *chunk,
                    a,
                    b,
                    d,
                ),
            forall|a: int, b: int, d: int|
                in_chunk(a, b, d) && a >= x ==> #[trigger] sizes[a][b][d] == extent_xz(
                    *chunk,
                    a,
                    b,
                    d,
                ),
        decreases 16 - x,
    {
        let mut z: usize = 0;
        while z < 16
            invariant
                x < 16,
                z <= 16,
                zero == absorbed(),
                forall|a: int, b: int, d: int|
                    in_chunk(a, b, d) && row_before(a, d, x as int, z as int)
                        ==> #[trigger] sizes[a][b][d] == merged_extent(*chunk, a, b, d),
                forall|a: int, b: int, d: int|
                    in_chunk(a, b, d) && !row_before(a, d, x as int, z as int)
                        ==> #[trigger] sizes[a][b][d] == extent_xz(*chunk, a, b, d),
            decreases 16 - z,
        {
            proof {
                reveal_with_fuel(y_run, 2);
                lemma_x_run_bounds(*chunk, x as int, 0, z as int);
                lemma_z_run_bounds(*chunk, x as int, 0, z as int);
            }
            let mut y: usize = 1;
            while y < 16
                invariant
                    x < 16,
                    z < 16,
                    1 <= y <= 16,
                    zero == absorbed(),
                    forall|a: int, b: int, d: int|
                        in_chunk(a, b, d) && row_before(a, d, x as int, z as int)
                            ==> #[trigger] sizes[a][b][d] == merged_extent(*chunk, a, b, d),
                    forall|a: int, b: int, d: int|
                        in_chunk(a, b, d) && !row_before(a, d, x as int, z as int) && !(a == x && d
                            == z) ==> #[trigger] sizes[a][b][d] == extent_xz(*chunk, a, b, d),
                    forall|b: int|
                        0 <= b < y - 1 ==> #[trigger] sizes[x as int][b][z as int]
                            == merged_extent(*chunk, x as int, b, z as int),
                    sizes[x as int][y - 1][z as int] == open_xyz(*chunk, x as int, y - 1, z as int),
                    forall|b: int|
                        y <= b < 16 ==> #[trigger] sizes[x as int][b][z as int] == extent_xz(
                            *chunk,
                            x as int,
                            b,
                            z as int,
                        ),
                decreases 16 - y,
            {
                proof {
                    lemma_x_run_bounds(*chunk, x as int, y as int, z as int);
                    lemma_x_run_bounds(*chunk, x as int, y - 1, z as int);
                    lemma_z_run_bounds(*chunk, x as int, y as int, z as int);
                    lemma_z_run_bounds(*chunk, x as int, y - 1, z as int);
                    lemma_y_run_bounds(*chunk, x as int, y as int, z as int);
                    lemma_y_run_bounds(*chunk, x as int, y - 1, z as int);
                }
                let here = sizes[x][y][z];
                let back = sizes[x][y - 1][z];
                if !here.is_zero() && !back.is_zero() {
                    if can_merge_mesh(chunk.voxels[x][y][z], chunk.voxels[x][y - 1][z]) && back.x
                        == here.x && back.z == here.z {
                        sizes[x][y][z] = Extent { x: here.x, y: here.y + back.y, z: here.z };
                        sizes[x][y - 1][z] = zero;
                    }
                }
                y += 1;
            }
            z += 1;
        }
        x += 1;
    }
    sizes
}

/// The extent of every cell of `chunk` after the three merging passes.
pub fn merge_voxels(chunk: &ChunkData) -> (sizes: [[[Extent; 16]; 16]; 16])
    ensures
        forall|x: int, y: int, z: int|
            in_chunk(x, y, z) ==> #[trigger] sizes[x][y][z] == merged_extent(*chunk, x, y, z),
{
    let after_x = merge_along_x(chunk);
    let after_xz = merge_along_z(chunk, after_x);
    merge_along_y(chunk, after_xz)
}

} // verus!
