use mcrs::chunk::ChunkData;
use mcrs::coords::{ChunkColumn, ChunkIndex};
use mcrs::queues::ChunkMeshesUpdateQueue;
use mcrs::remesh::VoxelMeshes;
use mcrs::streaming::{gen_chunks_data, initial_chunks, load_chunks_around, remove_chunk};
use mcrs::world::VoxelData;

fn at(x: i32, y: i32, z: i32) -> ChunkIndex {
    ChunkIndex { x, y, z }
}

fn flat(land: i32) -> [[i32; 16]; 16] {
    [[land; 16]; 16]
}

fn load_all(world: &mut VoxelData, dirty: &mut ChunkMeshesUpdateQueue, observer: &ChunkIndex, range: u8) {
    for index in load_chunks_around(world, observer, range) {
        assert!(gen_chunks_data(world, dirty, index, &flat(70)));
    }
}

#[test]
fn chunks_around_the_observer_are_loaded() {
    let mut world = VoxelData::new();
    let mut dirty = ChunkMeshesUpdateQueue::new();
    let observer = at(0, 0, 0);
    let missing = load_chunks_around(&world, &observer, 1);
    assert_eq!(missing.len(), 3 * 3 * 16);
    load_all(&mut world, &mut dirty, &observer, 1);
    assert_eq!(world.len(), 3 * 3 * 16);
    for x in -1..=1 {
        for z in -1..=1 {
            for y in 0..16 {
                assert!(world.contains_key(&at(x, y, z)));
            }
        }
    }
    for index in world.indices() {
        assert!((index.x).abs() <= 1 && (index.z).abs() <= 1);
        assert!(0 <= index.y && index.y < 16);
    }
    assert!(!world.contains_key(&at(2, 0, 0)));
    assert!(!world.contains_key(&at(0, 0, -2)));
    assert!(!world.contains_key(&at(0, 16, 0)));
    assert!(!world.contains_key(&at(0, -1, 0)));
    assert_eq!(dirty.len(), 9);
    assert!(load_chunks_around(&world, &observer, 1).is_empty());
}

#[test]
fn missing_chunks_are_listed_once_each() {
    let world = VoxelData::new();
    let missing = load_chunks_around(&world, &at(5, 9, -7), 2);
    assert_eq!(missing.len(), 5 * 5 * 16);
    let mut sorted = missing.clone();
    sorted.sort_by_key(|i| (i.x, i.y, i.z));
    sorted.dedup();
    assert_eq!(sorted.len(), missing.len());
    for index in &missing {
        assert!((index.x - 5).abs() <= 2 && (index.z + 7).abs() <= 2);
        assert!(0 <= index.y && index.y < 16);
    }
}

#[test]
fn only_chunks_that_are_not_resident_are_listed() {
    let mut world = VoxelData::new();
    let mut dirty = ChunkMeshesUpdateQueue::new();
    gen_chunks_data(&mut world, &mut dirty, at(0, 3, 0), &flat(70));
    gen_chunks_data(&mut world, &mut dirty, at(9, 9, 9), &flat(70));
    let missing = load_chunks_around(&world, &at(0, 0, 0), 0);
    assert_eq!(missing.len(), 15);
    assert!(!missing.contains(&at(0, 3, 0)));
    assert!(missing.contains(&at(0, 0, 0)));
    assert!(missing.contains(&at(0, 15, 0)));
}

#[test]
fn sight_range_zero_loads_the_column_of_the_observer() {
    let world = VoxelData::new();
    let missing = load_chunks_around(&world, &at(-4, 200, 4), 0);
    assert_eq!(missing.len(), 16);
    for index in missing {
        assert_eq!((index.x, index.z), (-4, 4));
    }
}

#[test]
fn chunks_beyond_the_limits_of_the_coordinates_are_left_out() {
    let world = VoxelData::new();
    let missing = load_chunks_around(&world, &at(i32::MAX, 0, i32::MIN), 1);
    assert_eq!(missing.len(), 2 * 2 * 16);
    for index in missing {
        assert!(index.x >= i32::MAX - 1);
        assert!(index.z <= i32::MIN + 1);
    }
}

#[test]
fn generated_chunk_is_terrain_and_marks_its_column() {
    let mut world = VoxelData::new();
    let mut dirty = ChunkMeshesUpdateQueue::new();
    assert!(gen_chunks_data(&mut world, &mut dirty, at(2, 4, -3), &flat(70)));
    let expected = ChunkData::new(at(2, 4, -3), &flat(70));
    assert_eq!(world.get(&at(2, 4, -3)).unwrap().voxels, expected.voxels);
    assert_eq!(world.get(&at(2, 4, -3)).unwrap().voxels[0][6][0], 1);
    assert_eq!(world.get(&at(2, 4, -3)).unwrap().voxels[0][7][0], 0);
    assert_eq!(dirty.pending(), vec![ChunkColumn { x: 2, z: -3 }]);
}

#[test]
fn resident_chunk_is_not_generated_again() {
    let mut world = VoxelData::new();
    let mut dirty = ChunkMeshesUpdateQueue::new();
    assert!(gen_chunks_data(&mut world, &mut dirty, at(0, 4, 0), &flat(70)));
    dirty.clear();
    world.set_voxel(&mcrs::coords::VoxelPos { x: 1, y: 64, z: 1 }, 9);
    assert!(!gen_chunks_data(&mut world, &mut dirty, at(0, 4, 0), &flat(100)));
    assert_eq!(world.get(&at(0, 4, 0)).unwrap().voxels[1][0][1], 9);
    assert_eq!(world.get(&at(0, 4, 0)).unwrap().voxels[0][7][0], 0);
    assert!(dirty.is_empty());
    assert_eq!(world.len(), 1);
}

#[test]
fn chunks_out_of_sight_are_evicted() {
    let mut world = VoxelData::new();
    let mut dirty = ChunkMeshesUpdateQueue::new();
    let mut meshes = VoxelMeshes::new();
    load_all(&mut world, &mut dirty, &at(0, 0, 0), 2);
    assert_eq!(world.len(), 5 * 5 * 16);
    for column in dirty.pending() {
        meshes.mark_dirty(column);
    }
    assert_eq!(meshes.len(), 25);
    // the observer moves two chunks along x and looks one chunk far
    remove_chunk(&mut world, &mut meshes, &at(2, 7, 0), 1);
    assert_eq!(world.len(), 2 * 3 * 16);
    for index in world.indices() {
        assert!((index.x - 2).abs() <= 1 && index.z.abs() <= 1);
    }
    for y in 0..16 {
        assert!(world.contains_key(&at(1, y, -1)));
        assert!(world.contains_key(&at(2, y, 1)));
        assert!(!world.contains_key(&at(0, y, 0)));
        assert!(!world.contains_key(&at(2, y, 2)));
    }
    assert_eq!(meshes.len(), 6);
    for column in meshes.columns() {
        assert!((column.x - 2).abs() <= 1 && column.z.abs() <= 1);
    }
    assert!(meshes.get(&ChunkColumn { x: 1, z: 0 }).is_some());
    assert!(meshes.get(&ChunkColumn { x: 0, z: 0 }).is_none());
}

#[test]
fn nothing_is_evicted_within_sight() {
    let mut world = VoxelData::new();
    let mut dirty = ChunkMeshesUpdateQueue::new();
    let mut meshes = VoxelMeshes::new();
    load_all(&mut world, &mut dirty, &at(0, 0, 0), 1);
    remove_chunk(&mut world, &mut meshes, &at(0, 0, 0), 1);
    assert_eq!(world.len(), 144);
    remove_chunk(&mut world, &mut meshes, &at(1, 0, -1), 2);
    assert_eq!(world.len(), 144);
    remove_chunk(&mut world, &mut meshes, &at(100, 0, 0), 8);
    assert_eq!(world.len(), 0);
}

#[test]
fn evicted_terrain_comes_back_the_same_and_edits_are_lost() {
    let mut world = VoxelData::new();
    let mut dirty = ChunkMeshesUpdateQueue::new();
    let mut meshes = VoxelMeshes::new();
    gen_chunks_data(&mut world, &mut dirty, at(0, 4, 0), &flat(70));
    let untouched = world.get(&at(0, 4, 0)).unwrap().voxels;
    world.set_voxel(&mcrs::coords::VoxelPos { x: 0, y: 70, z: 0 }, 0);
    remove_chunk(&mut world, &mut meshes, &at(50, 0, 50), 1);
    assert!(!world.contains_key(&at(0, 4, 0)));
    gen_chunks_data(&mut world, &mut dirty, at(0, 4, 0), &flat(70));
    assert_eq!(world.get(&at(0, 4, 0)).unwrap().voxels, untouched);
}

#[test]
fn chunks_at_start_up() {
    let chunks = initial_chunks();
    assert_eq!(chunks.len(), mcrs::INIT_WORLD_SIZE * mcrs::INIT_WORLD_SIZE * mcrs::CHUNK_LIMIT_Y);
    assert_eq!(chunks[0], at(0, 0, 0));
    assert_eq!(chunks[1], at(0, 1, 0));
    assert_eq!(chunks[16], at(0, 0, 1));
    assert_eq!(chunks[64], at(1, 0, 0));
    assert_eq!(chunks[255], at(3, 15, 3));
    let mut sorted = chunks.clone();
    sorted.sort_by_key(|i| (i.x, i.y, i.z));
    sorted.dedup();
    assert_eq!(sorted.len(), 256);
    for index in chunks {
        assert!((0..4).contains(&index.x) && (0..16).contains(&index.y) && (0..4).contains(&index.z));
    }
}
