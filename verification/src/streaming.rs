//! Streaming of chunks around the observer: which chunks have to be made,
//! making them resident, and evicting those that are out of sight.

use crate::chunk::ChunkData;
use crate::coords::{ChunkIndex, column_of, in_sight, CHUNK_LIMIT_Y, INIT_WORLD_SIZE};
use crate::queues::{marked, ChunkMeshesUpdateQueue};
use crate::remesh::{visible_columns, VoxelMeshes};
use crate::world::VoxelData;
use crate::sequences::lemma_push_contains;
use vstd::prelude::*;

verus! {

/// Whether the chunk at `index` has to be resident for an observer in the
/// chunk `observer`: it lies within `sight_range` chunks horizontally, on
/// one of the levels of a column.
pub open spec fn wanted(index: ChunkIndex, observer: ChunkIndex, sight_range: int) -> bool {
    in_sight(index.x as int, index.z as int, observer, sight_range) && 0 <= index.y < CHUNK_LIMIT_Y
}

/// Whether the chunk at `index` comes before the place (dx, dz, y) when the
/// chunks around `observer` are taken along x, then along z, then upwards.
pub open spec fn taken_before(index: ChunkIndex, observer: ChunkIndex, dx: int, dz: int, y: int) -> bool {
    let ix = index.x - observer.x;
    let iz = index.z - observer.z;
    ix < dx || (ix == dx && (iz < dz || (iz == dz && index.y < y)))
}

/// Whether the chunk at `index` is among those that are wanted at start-up:
/// the chunks of the first columns along x and z.
pub open spec fn wanted_at_start(index: ChunkIndex) -> bool {
    0 <= index.x < INIT_WORLD_SIZE && 0 <= index.y < CHUNK_LIMIT_Y && 0 <= index.z < INIT_WORLD_SIZE
}

/// The chunks that are wanted at start-up, each once.
pub fn initial_chunks() -> (chunks: Vec<ChunkIndex>)
    ensures
        chunks@.len() == 256,
        chunks@.no_duplicates(),
        forall|index: ChunkIndex| #[trigger] chunks@.contains(index) <==> wanted_at_start(index),
{
    let mut chunks: Vec<ChunkIndex> = Vec::new();
    let origin = ChunkIndex { x: 0, y: 0, z: 0 };
    let mut x: i32 = 0;
    while x < 4
        invariant
            0 <= x <= 4,
            origin == (ChunkIndex { x: 0, y: 0, z: 0 }),
            chunks@.len() == 64 * x,
            chunks@.no_duplicates(),
            forall|index: ChunkIndex| #[trigger]
                chunks@.contains(index) <==> wanted_at_start(index) && taken_before(
                    index,
                    origin,
                    x as int,
                    0,
                    0,
                ),
        decreases 4 - x,
    {
        let mut z: i32 = 0;
        while z < 4
            invariant
                0 <= x < 4,
                0 <= z <= 4,
                origin == (ChunkIndex { x: 0, y: 0, z: 0 }),
                chunks@.len() == 64 * x + 16 * z,
                chunks@.no_duplicates(),
                forall|index: ChunkIndex| #[trigger]
                    chunks@.contains(index) <==> wanted_at_start(index) && taken_before(
                        index,
                        origin,
                        x as int,
                        z as int,
                        0,
                    ),
            decreases 4 - z,
        {
            let mut y: i32 = 0;
            while y < 16
                invariant
                    0 <= x < 4,
                    0 <= z < 4,
                    0 <= y <= 16,
                    origin == (ChunkIndex { x: 0, y: 0, z: 0 }),
                    chunks@.len() == 64 * x + 16 * z + y,
                    chunks@.no_duplicates(),
                    forall|index: ChunkIndex| #[trigger]
                        chunks@.contains(index) <==> wanted_at_start(index) && taken_before(
                            index,
                            origin,
                            x as int,
                            z as int,
                            y as int,
                        ),
                decreases 16 - y,
            {
                let index = ChunkIndex { x, y, z };
                let ghost before = chunks@;
                assert(!before.contains(index));
                chunks.push(index);
                proof {
                    assert forall|other: ChunkIndex| #[trigger]
                        chunks@.contains(other) <==> before.contains(other) || other == index by {
                        lemma_push_contains(before, index, other);
                    }
                }
                y += 1;
            }
            z += 1;
        }
        x += 1;
    }
    chunks
}

/// The chunks that are wanted around `observer` and are not resident, each
/// once: the chunks to make.
pub fn load_chunks_around(voxel_data: &VoxelData, observer: &ChunkIndex, sight_range: u8) -> (missing:
    Vec<ChunkIndex>)
    ensures
        missing@.no_duplicates(),
        forall|index: ChunkIndex| #[trigger]
            missing@.contains(index) <==> wanted(index, *observer, sight_range as int)
                && !voxel_data@.contains_key(index),
{
    let mut missing: Vec<ChunkIndex> = Vec::new();
    let range: i64 = sight_range as i64;
    let mut dx: i64 = -range;
    while dx <= range
        invariant
            range == sight_range,
            -range <= dx <= range + 1,
            missing@.no_duplicates(),
            forall|index: ChunkIndex| #[trigger]
                missing@.contains(index) <==> wanted(index, *observer, range as int)
                    && !voxel_data@.contains_key(index) && taken_before(
                    index,
                    *observer,
                    dx as int,
                    -range,
                    0,
                ),
        decreases range + 1 - dx,
    {
        let x: i64 = observer.x as i64 + dx;
        let mut dz: i64 = -range;
        while dz <= range
            invariant
                range == sight_range,
                -range <= dx <= range,
                -range <= dz <= range + 1,
                x == observer.x + dx,
                missing@.no_duplicates(),
                forall|index: ChunkIndex| #[trigger]
                    missing@.contains(index) <==> wanted(index, *observer, range as int)
                        && !voxel_data@.contains_key(index) && taken_before(
                        index,
                        *observer,
                        dx as int,
                        dz as int,
                        0,
                    ),
            decreases range + 1 - dz,
        {
            let z: i64 = observer.z as i64 + dz;
            let mut y: i32 = 0;
            while y < 16
                invariant
                    range == sight_range,
                    -range <= dx <= range,
                    -range <= dz <= range,
                    0 <= y <= 16,
                    x == observer.x + dx,
                    z == observer.z + dz,
                    missing@.no_duplicates(),
                    forall|index: ChunkIndex| #[trigger]
                        missing@.contains(index) <==> wanted(index, *observer, range as int)
                            && !voxel_data@.contains_key(index) && taken_before(
                            index,
                            *observer,
                            dx as int,
                            dz as int,
                            y as int,
                        ),
                decreases 16 - y,
            {
                if -0x8000_0000i64 <= x && x <= 0x7fff_ffffi64 && -0x8000_0000i64 <= z && z
                    <= 0x7fff_ffffi64 {
                    let chunk_index_to_load = ChunkIndex { x: x as i32, y, z: z as i32 };
                    if !voxel_data.contains_key(&chunk_index_to_load) {
                        let ghost before = missing@;
                        assert(!before.contains(chunk_index_to_load));
                        missing.push(chunk_index_to_load);
                        proof {
                            assert forall|index: ChunkIndex| #[trigger]
                                missing@.contains(index) <==> before.contains(index) || index
                                    == chunk_index_to_load by {
                                lemma_push_contains(before, chunk_index_to_load, index);
                            }
                        }
                    }
                }
                y += 1;
            }
            dz += 1;
        }
        dx += 1;
    }
    missing
}

/// Makes the chunk at `index` resident as the terrain under the land heights
/// `heights` and marks its column for a rebuild, unless the chunk is
/// resident already: then nothing changes. Says whether the chunk was made.
pub fn gen_chunks_data(
    voxel_data: &mut VoxelData,
    chunk_meshes_update_queue: &mut ChunkMeshesUpdateQueue,
    index: ChunkIndex,
    heights: &[[i32; 16]; 16],
) -> (made: bool)
    requires
        old(voxel_data).wf(),
    ensures
        final(voxel_data).wf(),
        made == !old(voxel_data)@.contains_key(index),
        !made ==> final(voxel_data)@ == old(voxel_data)@ && final(chunk_meshes_update_queue)@
            == old(chunk_meshes_update_queue)@,
        made ==> {
            &&& final(voxel_data)@.contains_key(index)
            &&& final(voxel_data)@[index].is_terrain(index, *heights)
            &&& final(voxel_data)@ == old(voxel_data)@.insert(index, final(voxel_data)@[index])
            &&& final(chunk_meshes_update_queue)@ == marked(
                old(chunk_meshes_update_queue)@,
                column_of(index),
            )
        },
{
    if voxel_data.contains_key(&index) {
        false
    } else {
        let chunk = ChunkData::new(index, heights);
        voxel_data.insert(chunk);
        chunk_meshes_update_queue.mark(index.column());
        true
    }
}

/// The chunks that stay resident for an observer in the chunk `observer`:
/// those within `sight_range` chunks horizontally, whatever their level.
pub open spec fn visible(observer: ChunkIndex, sight_range: int) -> Set<ChunkIndex> {
    Set::new(|index: ChunkIndex| in_sight(index.x as int, index.z as int, observer, sight_range))
}

/// Evicts every resident chunk whose horizontal distance from the
/// observer's chunk is greater than `sight_range`, and drops the mesh of
/// every column at such a distance; the other chunks and column meshes stay
/// as they are. Edits of an evicted chunk go with it: a chunk that is made
/// again is terrain again.
pub fn remove_chunk(
    voxel_data: &mut VoxelData,
    column_meshes: &mut VoxelMeshes,
    observer: &ChunkIndex,
    sight_range: u8,
)
    requires
        old(voxel_data).wf(),
        old(column_meshes).wf(),
    ensures
        final(voxel_data).wf(),
        final(column_meshes).wf(),
        final(voxel_data)@ == old(voxel_data)@.restrict(visible(*observer, sight_range as int)),
        final(column_meshes)@ == old(column_meshes)@.restrict(
            visible_columns(*observer, sight_range as int),
        ),
{
    column_meshes.retain_in_sight(observer, sight_range);
    let ghost before = voxel_data@;
    let ghost keep = visible(*observer, sight_range as int);
    let all = voxel_data.indices();
    let mut i: usize = 0;
    while i < all.len()
        invariant
            i <= all@.len(),
            voxel_data.wf(),
            all@.to_set() == before.dom(),
            keep == visible(*observer, sight_range as int),
            forall|index: ChunkIndex| #[trigger]
                voxel_data@.contains_key(index) <==> before.contains_key(index) && (keep.contains(
                    index,
                ) || !all@.take(i as int).contains(index)),
            forall|index: ChunkIndex| #[trigger]
                voxel_data@.contains_key(index) ==> voxel_data@[index] == before[index],
        decreases all.len() - i,
    {
        let index = all[i];
        proof {
            assert(all@.take(i as int + 1) =~= all@.take(i as int).push(index));
            assert forall|j: ChunkIndex| #[trigger]
                all@.take(i as int + 1).contains(j) <==> all@.take(i as int).contains(j) || j
                    == index by {
                lemma_push_contains(all@.take(i as int), index, j);
            }
        }
        if !index.is_in_sight(observer, sight_range) {
            voxel_data.remove(&index);
        }
        i += 1;
    }
    proof {
        assert(all@.take(all@.len() as int) =~= all@);
        assert forall|index: ChunkIndex| before.contains_key(index) implies all@.contains(index) by {
            assert(all@.to_set().contains(index));
        }
        assert(voxel_data@ =~= before.restrict(keep));
    }
}

} // verus!
