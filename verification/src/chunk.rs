//! One chunk of the world: a cube of 16 x 16 x 16 voxels, filled from the
//! height of the terrain above each of its horizontal cells.

use crate::coords::{ChunkIndex, VoxelLocalIndex};
use vstd::array::spec_array_update;
use vstd::prelude::*;

verus! {

/// Material of empty space.
pub const AIR: u8 = 0;

/// Material that the terrain is made of.
pub const GROUND: u8 = 1;

/// Lowest height that the terrain reaches, in voxels.
pub const LAND_MIN: i32 = 48;

/// Greatest height that the terrain reaches, in voxels.
pub const LAND_MAX: i32 = 128;

/// The voxels of one chunk; the voxel at local position (x, y, z) is
/// `voxels[x][y][z]`, 0 where it is empty.
#[derive(Debug, Copy, Clone)]
pub struct ChunkData {
    /// Level of detail; 0 for full resolution.
    pub level: u32,
    pub index: ChunkIndex,
    pub voxels: [[[u8; 16]; 16]; 16],
}

/// Whether (x, y, z) is a position inside a chunk.
pub open spec fn in_chunk(x: int, y: int, z: int) -> bool {
    0 <= x < 16 && 0 <= y < 16 && 0 <= z < 16
}

/// The material of the terrain at altitude `16 * chunk_y + y`, where the
/// land reaches up to `land`: ground at and below the land's height, air
/// above it.
pub open spec fn terrain_voxel(chunk_y: int, y: int, land: int) -> u8 {
    if 16 * chunk_y + y > land {
        AIR
    } else {
        GROUND
    }
}

impl ChunkData {
    /// The material at local position (x, y, z).
    pub open spec fn voxel(&self, x: int, y: int, z: int) -> u8 {
        self.voxels[x][y][z]
    }

    /// Whether this chunk is the untouched terrain at `index` under the land
    /// heights `heights`, where `heights[x][z]` belongs to the cells at
    /// local x and z.
    pub open spec fn is_terrain(&self, index: ChunkIndex, heights: [[i32; 16]; 16]) -> bool {
        &&& self.level == 0
        &&& self.index == index
        &&& forall|x: int, y: int, z: int|
            in_chunk(x, y, z) ==> #[trigger] self.voxel(x, y, z) == terrain_voxel(
                index.y as int,
                y,
                heights[x][z] as int,
            )
    }

    /// Whether two chunks hold the same voxels.
    pub open spec fn same_voxels(&self, other: &ChunkData) -> bool {
        forall|x: int, y: int, z: int|
            in_chunk(x, y, z) ==> #[trigger] self.voxel(x, y, z) == other.voxel(x, y, z)
    }

    /// The terrain of the chunk at `chunk_index`: every voxel at or below
    /// the land's height over its horizontal cell is ground, every voxel
    /// above it is air.
    pub fn new(chunk_index: ChunkIndex, heights: &[[i32; 16]; 16]) -> (chunk: ChunkData)
        ensures
            chunk.is_terrain(chunk_index, *heights),
    {
        let mut voxels = [[[0u8; 16]; 16]; 16];
        let base: i64 = 16 * (chunk_index.y as i64);
        let mut x: usize = 0;
        while x < 16
            invariant
                x <= 16,
                base == 16 * chunk_index.y,
                forall|a: int, b: int, c: int|
                    0 <= a < x && 0 <= b < 16 && 0 <= c < 16 ==> #[trigger] voxels[a][b][c]
                        == terrain_voxel(chunk_index.y as int, b, heights[a][c] as int),
            decreases 16 - x,
        {
            let mut z: usize = 0;
            while z < 16
                invariant
                    x < 16,
                    z <= 16,
                    base == 16 * chunk_index.y,
                    forall|a: int, b: int, c: int|
                        0 <= a < x && 0 <= b < 16 && 0 <= c < 16 ==> #[trigger] voxels[a][b][c]
                            == terrain_voxel(chunk_index.y as int, b, heights[a][c] as int),
                    forall|b: int, c: int|
                        0 <= b < 16 && 0 <= c < z ==> #[trigger] voxels[x as int][b][c]
                            == terrain_voxel(chunk_index.y as int, b, heights[x as int][c] as int),
                decreases 16 - z,
            {
                let land: i64 = heights[x][z] as i64;
                let mut y: usize = 0;
                while y < 16
                    invariant
                        x < 16,
                        z < 16,
                        y <= 16,
                        base == 16 * chunk_index.y,
                        land == heights[x as int][z as int],
                        forall|a: int, b: int, c: int|
                            0 <= a < x && 0 <= b < 16 && 0 <= c < 16 ==> #[trigger] voxels[a][b][c]
                                == terrain_voxel(chunk_index.y as int, b, heights[a][c] as int),
                        forall|b: int, c: int|
                            0 <= b < 16 && 0 <= c < z ==> #[trigger] voxels[x as int][b][c]
                                == terrain_voxel(
                                chunk_index.y as int,
                                b,
                                heights[x as int][c] as int,
                            ),
                        forall|b: int|
                            0 <= b < y ==> #[trigger] voxels[x as int][b][z as int]
                                == terrain_voxel(chunk_index.y as int, b, land as int),
                    decreases 16 - y,
                {
                    if base + (y as i64) > land {
                        voxels[x][y][z] = AIR;
                    } else {
                        voxels[x][y][z] = GROUND;
                    }
                    y += 1;
                }
                z += 1;
            }
            x += 1;
        }
        ChunkData { level: 0, index: chunk_index, voxels }
    }

    /// The material of the voxel at `local`.
    pub fn get(&self, local: &VoxelLocalIndex) -> (tid: u8)
        requires
            local.x < 16 && local.y < 16 && local.z < 16,
        ensures
            tid == self.voxel(local.x as int, local.y as int, local.z as int),
    {
        self.voxels[local.x as usize][local.y as usize][local.z as usize]
    }

    /// Overwrites the voxel at `local` with the material `tid`; every other
    /// voxel, the index and the level stay as they are.
    pub fn set(&mut self, local: &VoxelLocalIndex, tid: u8)
        requires
            local.x < 16 && local.y < 16 && local.z < 16,
        ensures
            *final(self) == old(self).with_voxel(*local, tid),
    {
        self.voxels[local.x as usize][local.y as usize][local.z as usize] = tid;
        proof {
            let want = old(self).with_voxel(*local, tid);
            assert(self.voxels =~= want.voxels) by {
                assert forall|x: int| 0 <= x < 16 implies self.voxels[x] == want.voxels[x] by {
                    assert forall|y: int| 0 <= y < 16 implies self.voxels[x][y]
                        == want.voxels[x][y] by {
                        assert(self.voxels[x][y] =~= want.voxels[x][y]);
                    }
                    assert(self.voxels[x] =~= want.voxels[x]);
                }
            }
        }
    }

    /// This chunk with the voxel at `local` replaced by `tid`.
    pub open spec fn with_voxel(self, local: VoxelLocalIndex, tid: u8) -> ChunkData {
        ChunkData {
            level: self.level,
            index: self.index,
            voxels: spec_array_update(
                self.voxels,
                local.x as int,
                spec_array_update(
                    self.voxels[local.x as int],
                    local.y as int,
                    spec_array_update(
                        self.voxels[local.x as int][local.y as int],
                        local.z as int,
                        tid,
                    ),
                ),
            ),
        }
    }
}

/// Terrain is a function of the chunk's position and of the land heights
/// under it: two chunks made for the same position from the same heights
/// are the same chunk.
pub proof fn lemma_terrain_deterministic(
    a: ChunkData,
    b: ChunkData,
    index: ChunkIndex,
    heights: [[i32; 16]; 16],
)
    requires
        a.is_terrain(index, heights),
        b.is_terrain(index, heights),
    ensures
        a.same_voxels(&b),
        a == b,
{
    assert forall|x: int, y: int, z: int| in_chunk(x, y, z) implies #[trigger] a.voxel(x, y, z)
        == b.voxel(x, y, z) by {
        assert(b.voxel(x, y, z) == terrain_voxel(index.y as int, y, heights[x][z] as int));
    }
    assert(a.voxels =~= b.voxels) by {
        assert forall|x: int| 0 <= x < 16 implies a.voxels[x] == b.voxels[x] by {
            assert forall|y: int| 0 <= y < 16 implies a.voxels[x][y] == b.voxels[x][y] by {
                assert forall|z: int| 0 <= z < 16 implies a.voxels[x][y][z] == b.voxels[x][y][z] by {
                    assert(a.voxel(x, y, z) == b.voxel(x, y, z));
                }
                assert(a.voxels[x][y] =~= b.voxels[x][y]);
            }
            assert(a.voxels[x] =~= b.voxels[x]);
        }
    }
}

} // verus!
