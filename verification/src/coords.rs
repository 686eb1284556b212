//! Coordinates of the voxel world: voxel positions, chunk indices, chunk
//! columns and the fixed sizes that relate them.

use vstd::prelude::*;

verus! {

/// Largest extent of the world in chunks, in each horizontal direction.
pub const WORLD_SIZE: usize = 100;

/// Number of chunks per horizontal direction that exist at start-up.
pub const INIT_WORLD_SIZE: usize = 4;

/// Edge length of a chunk in voxels.
pub const CHUNK_SIZE: usize = 16;

/// Number of chunks stacked in one column.
pub const CHUNK_LIMIT_Y: usize = 16;

/// Height of the world in voxels.
pub const HEIGHT_LIMIT: usize = CHUNK_SIZE * CHUNK_LIMIT_Y;

/// Position of a voxel in world space, in whole voxels.
#[derive(Debug, Copy, Clone, PartialEq, Eq, Hash, Structural)]
pub struct VoxelPos {
    pub x: i32,
    pub y: i32,
    pub z: i32,
}

/// Position of a chunk in chunk space: voxel coordinates divided by the chunk
/// edge, rounded down.
#[derive(Debug, Copy, Clone, PartialEq, Eq, Hash, Structural)]
pub struct ChunkIndex {
    pub x: i32,
    pub y: i32,
    pub z: i32,
}

/// A vertical stack of chunks that share their horizontal position.
#[derive(Debug, Default, Copy, Clone, PartialEq, Eq, Hash, Structural)]
pub struct ChunkColumn {
    pub x: i32,
    pub z: i32,
}

/// Position of a voxel inside its chunk; each coordinate is below the chunk
/// edge.
#[derive(Debug, Copy, Clone, PartialEq, Eq, Hash, Structural)]
pub struct VoxelLocalIndex {
    pub x: u8,
    pub y: u8,
    pub z: u8,
}

/// The chunk coordinate that holds the voxel coordinate `v`: `v / 16`,
/// rounded towards negative infinity.
pub open spec fn chunk_coord(v: int) -> int {
    v / 16
}

/// The offset of the voxel coordinate `v` inside its chunk, in `0..16`.
pub open spec fn local_coord(v: int) -> int {
    v % 16
}

/// The chunk that holds the voxel at `pos`.
pub open spec fn chunk_of(pos: VoxelPos) -> ChunkIndex {
    ChunkIndex {
        x: chunk_coord(pos.x as int) as i32,
        y: chunk_coord(pos.y as int) as i32,
        z: chunk_coord(pos.z as int) as i32,
    }
}

/// Where the voxel at `pos` lies inside its chunk.
pub open spec fn local_of(pos: VoxelPos) -> VoxelLocalIndex {
    VoxelLocalIndex {
        x: local_coord(pos.x as int) as u8,
        y: local_coord(pos.y as int) as u8,
        z: local_coord(pos.z as int) as u8,
    }
}

/// The column that the chunk at `index` belongs to.
pub open spec fn column_of(index: ChunkIndex) -> ChunkColumn {
    ChunkColumn { x: index.x, z: index.z }
}

/// The chunk of column `column` at level `y`.
pub open spec fn chunk_in_column(column: ChunkColumn, y: int) -> ChunkIndex {
    ChunkIndex { x: column.x, y: y as i32, z: column.z }
}

/// Absolute value of an integer.
pub open spec fn abs(v: int) -> int {
    if v < 0 {
        -v
    } else {
        v
    }
}

/// Chebyshev distance between two horizontal chunk positions: the larger of
/// the distances along x and along z.
pub open spec fn horizontal_distance(ax: int, az: int, bx: int, bz: int) -> int {
    if abs(ax - bx) >= abs(az - bz) {
        abs(ax - bx)
    } else {
        abs(az - bz)
    }
}

/// Whether the horizontal position `(x, z)` lies within `sight_range` chunks of
/// the observer's chunk, by Chebyshev distance.
pub open spec fn in_sight(x: int, z: int, observer: ChunkIndex, sight_range: int) -> bool {
    horizontal_distance(x, z, observer.x as int, observer.z as int) <= sight_range
}

fn floor_div_16(v: i32) -> (r: i32)
    ensures
        r == chunk_coord(v as int),
{
    let shifted: i64 = v as i64 + 0x8000_0000i64;
    let q: i64 = shifted / 16;
    (q - 0x800_0000i64) as i32
}

fn floor_mod_16(v: i32) -> (r: u8)
    ensures
        r == local_coord(v as int),
        r < 16,
{
    let shifted: i64 = v as i64 + 0x8000_0000i64;
    let m: i64 = shifted % 16;
    m as u8
}

/// The chunk that holds the voxel at `pos`.
pub fn get_chunk_index(pos: &VoxelPos) -> (index: ChunkIndex)
    ensures
        index == chunk_of(*pos),
        16 * index.x <= pos.x < 16 * index.x + 16,
        16 * index.y <= pos.y < 16 * index.y + 16,
        16 * index.z <= pos.z < 16 * index.z + 16,
{
    ChunkIndex { x: floor_div_16(pos.x), y: floor_div_16(pos.y), z: floor_div_16(pos.z) }
}

/// Splits a voxel position into the chunk that holds it and the position
/// inside that chunk.
pub fn pos_to_voxel(pos: &VoxelPos) -> (r: (ChunkIndex, VoxelLocalIndex))
    ensures
        r.0 == chunk_of(*pos),
        r.1 == local_of(*pos),
        r.1.x < 16 && r.1.y < 16 && r.1.z < 16,
        pos.x == 16 * r.0.x + r.1.x,
        pos.y == 16 * r.0.y + r.1.y,
        pos.z == 16 * r.0.z + r.1.z,
{
    let chunk_index = get_chunk_index(pos);
    (
        chunk_index,
        VoxelLocalIndex {
            x: floor_mod_16(pos.x),
            y: floor_mod_16(pos.y),
            z: floor_mod_16(pos.z),
        },
    )
}

/// The voxel at local position `local` of the chunk at `index`, if its world
/// coordinates are representable.
pub open spec fn voxel_pos_of(index: ChunkIndex, local: VoxelLocalIndex) -> VoxelPos {
    VoxelPos {
        x: (16 * index.x + local.x) as i32,
        y: (16 * index.y + local.y) as i32,
        z: (16 * index.z + local.z) as i32,
    }
}

/// Splitting a position and putting the parts together again gives the
/// position back, and the parts of a position put together from a chunk and
/// a local position are that chunk and that local position.
pub proof fn lemma_pos_to_voxel_inverse(pos: VoxelPos, index: ChunkIndex, local: VoxelLocalIndex)
    ensures
        voxel_pos_of(chunk_of(pos), local_of(pos)) == pos,
        (local.x < 16 && local.y < 16 && local.z < 16 && i32::MIN <= 16 * index.x && 16 * index.x
            + 15 <= i32::MAX && i32::MIN <= 16 * index.y && 16 * index.y + 15 <= i32::MAX
            && i32::MIN <= 16 * index.z && 16 * index.z + 15 <= i32::MAX) ==> {
            &&& chunk_of(voxel_pos_of(index, local)) == index
            &&& local_of(voxel_pos_of(index, local)) == local
        },
{
}

/// The number that stands for a column where columns are stored by number:
/// its two coordinates, moved into the non-negative range, side by side in
/// 32 bits each.
pub open spec fn column_key(column: ChunkColumn) -> u64 {
    ((column.x + 0x8000_0000) * 0x1_0000_0000 + (column.z + 0x8000_0000)) as u64
}

/// The column that the number `key` stands for.
pub open spec fn key_column(key: u64) -> ChunkColumn {
    ChunkColumn {
        x: (key / 0x1_0000_0000 - 0x8000_0000) as i32,
        z: (key % 0x1_0000_0000 - 0x8000_0000) as i32,
    }
}

/// Every column has a number of its own, and every number stands for a
/// column.
pub proof fn lemma_column_key(column: ChunkColumn, key: u64)
    ensures
        key_column(column_key(column)) == column,
        column_key(key_column(key)) == key,
{
    let x: int = column.x + 0x8000_0000;
    let z: int = column.z + 0x8000_0000;
    let k: int = x * 0x1_0000_0000 + z;
    assert(0 <= x < 0x1_0000_0000 && 0 <= z < 0x1_0000_0000);
    assert(0 <= k < 0x1_0000_0000_0000_0000);
    assert(column_key(column) == k);
    assert(k / 0x1_0000_0000 == x && k % 0x1_0000_0000 == z);
    let q: int = (key / 0x1_0000_0000) as int;
    let r: int = (key % 0x1_0000_0000) as int;
    assert(0 <= q < 0x1_0000_0000 && 0 <= r < 0x1_0000_0000);
    assert(key == q * 0x1_0000_0000 + r);
}

/// Different columns have different numbers.
pub proof fn lemma_column_key_injective(a: ChunkColumn, b: ChunkColumn)
    ensures
        column_key(a) == column_key(b) <==> a == b,
{
    lemma_column_key(a, 0);
    lemma_column_key(b, 0);
}

impl ChunkIndex {
    /// The column that this chunk belongs to.
    pub fn column(&self) -> (c: ChunkColumn)
        ensures
            c == column_of(*self),
    {
        ChunkColumn { x: self.x, z: self.z }
    }

    /// Whether this chunk lies within `sight_range` chunks of `observer`,
    /// measured horizontally; the vertical position plays no part.
    pub fn is_in_sight(&self, observer: &ChunkIndex, sight_range: u8) -> (b: bool)
        ensures
            b == in_sight(self.x as int, self.z as int, *observer, sight_range as int),
    {
        within(self.x, self.z, observer, sight_range)
    }
}

impl ChunkColumn {
    /// The number that stands for this column.
    pub fn key(&self) -> (key: u64)
        ensures
            key == column_key(*self),
    {
        let x: u64 = (self.x as i64 + 0x8000_0000i64) as u64;
        let z: u64 = (self.z as i64 + 0x8000_0000i64) as u64;
        x * 0x1_0000_0000u64 + z
    }

    /// The column that the number `key` stands for.
    pub fn from_key(key: u64) -> (column: ChunkColumn)
        ensures
            column == key_column(key),
    {
        let x: i64 = (key / 0x1_0000_0000u64) as i64 - 0x8000_0000i64;
        let z: i64 = (key % 0x1_0000_0000u64) as i64 - 0x8000_0000i64;
        ChunkColumn { x: x as i32, z: z as i32 }
    }

    /// The chunk of this column at level `y`.
    pub fn chunk_at(&self, y: i32) -> (index: ChunkIndex)
        ensures
            index == chunk_in_column(*self, y as int),
    {
        ChunkIndex { x: self.x, y, z: self.z }
    }

    /// Whether this column lies within `sight_range` chunks of `observer`.
    pub fn is_in_sight(&self, observer: &ChunkIndex, sight_range: u8) -> (b: bool)
        ensures
            b == in_sight(self.x as int, self.z as int, *observer, sight_range as int),
    {
        within(self.x, self.z, observer, sight_range)
    }
}

fn within(x: i32, z: i32, observer: &ChunkIndex, sight_range: u8) -> (b: bool)
    ensures
        b == in_sight(x as int, z as int, *observer, sight_range as int),
{
    let dx: i64 = x as i64 - observer.x as i64;
    let dz: i64 = z as i64 - observer.z as i64;
    let r: i64 = sight_range as i64;
    -r <= dx && dx <= r && -r <= dz && dz <= r
}

} // verus!
