use mcrs::coords::{ChunkColumn, ChunkIndex, VoxelPos};
use mcrs::mesh::combine_meshes;
use mcrs::queues::{ChunkMeshesUpdateQueue, VoxelModifyQueue};
use mcrs::remesh::{
    build_column_mesh, column_is_complete, handle_chunk_meshes_update_queue, update_column_meshes,
    VoxelMeshes,
};
use mcrs::streaming::gen_chunks_data;
use mcrs::surface::greedy_meshing;
use mcrs::world::VoxelData;
use mcrs::edit::handle_voxel_modify_queue;

fn column(x: i32, z: i32) -> ChunkColumn {
    ChunkColumn { x, z }
}

fn flat(land: i32) -> [[i32; 16]; 16] {
    [[land; 16]; 16]
}

fn load_column(world: &mut VoxelData, dirty: &mut ChunkMeshesUpdateQueue, c: ChunkColumn, levels: i32) {
    for y in 0..levels {
        gen_chunks_data(world, dirty, ChunkIndex { x: c.x, y, z: c.z }, &flat(70));
    }
}

#[test]
fn column_is_complete_with_all_sixteen_chunks() {
    let mut world = VoxelData::new();
    let mut dirty = ChunkMeshesUpdateQueue::new();
    assert!(!column_is_complete(&world, &column(0, 0)));
    load_column(&mut world, &mut dirty, column(0, 0), 15);
    assert!(!column_is_complete(&world, &column(0, 0)));
    assert!(build_column_mesh(&world, &column(0, 0)).is_none());
    load_column(&mut world, &mut dirty, column(0, 0), 16);
    assert!(column_is_complete(&world, &column(0, 0)));
    assert!(!column_is_complete(&world, &column(0, 1)));
    assert!(build_column_mesh(&world, &column(0, 0)).is_some());
}

#[test]
fn column_mesh_joins_the_meshes_of_its_chunks_from_the_bottom_up() {
    let mut world = VoxelData::new();
    let mut dirty = ChunkMeshesUpdateQueue::new();
    load_column(&mut world, &mut dirty, column(3, -2), 16);
    let built = build_column_mesh(&world, &column(3, -2)).unwrap();
    let parts: Vec<_> = (0..16)
        .map(|y| greedy_meshing(world.get(&ChunkIndex { x: 3, y, z: -2 }).unwrap()))
        .collect();
    let expected = combine_meshes(&parts);
    assert_eq!(built.positions, expected.positions);
    assert_eq!(built.normals, expected.normals);
    assert_eq!(built.uvs, expected.uvs);
    assert_eq!(built.indices, expected.indices);
    // four full chunks, one chunk with ground up to its seventh layer, eleven empty ones
    assert_eq!(built.vertex_count(), 5 * 24);
    for &i in &built.indices {
        assert!((i as usize) < built.positions.len());
    }
    let lowest = built.positions.iter().map(|p| p.y).min().unwrap();
    let highest = built.positions.iter().map(|p| p.y).max().unwrap();
    assert_eq!((lowest, highest), (0, 71));
}

#[test]
fn pending_columns_get_a_dirty_mesh_and_the_queue_is_emptied() {
    let mut dirty = ChunkMeshesUpdateQueue::new();
    let mut meshes = VoxelMeshes::new();
    dirty.mark(column(1, 0));
    dirty.mark(column(2, 0));
    dirty.mark(column(1, 0));
    handle_chunk_meshes_update_queue(&mut dirty, &mut meshes);
    assert!(dirty.is_empty());
    assert_eq!(meshes.len(), 2);
    let mut listed = meshes.columns();
    listed.sort_by_key(|c| (c.x, c.z));
    assert_eq!(listed, vec![column(1, 0), column(2, 0)]);
    assert_eq!(meshes.get(&column(1, 0)).unwrap().column, column(1, 0));
    assert!(meshes.get(&column(1, 0)).unwrap().dirty && meshes.get(&column(2, 0)).unwrap().dirty);
    assert_eq!(meshes.get(&column(1, 0)).unwrap().mesh.vertex_count(), 0);
    assert!(meshes.contains_key(&column(2, 0)));
    assert!(!meshes.contains_key(&column(0, 2)));
    assert!(meshes.get(&column(0, 2)).is_none());
    dirty.mark(column(2, 0));
    dirty.mark(column(3, 0));
    handle_chunk_meshes_update_queue(&mut dirty, &mut meshes);
    assert_eq!(meshes.len(), 3);
    assert!(meshes.get(&column(3, 0)).unwrap().dirty);
}

#[test]
fn column_marked_many_times_is_rebuilt_once() {
    let mut world = VoxelData::new();
    let mut dirty = ChunkMeshesUpdateQueue::new();
    let mut meshes = VoxelMeshes::new();
    // sixteen chunks mark the column sixteen times
    load_column(&mut world, &mut dirty, column(0, 0), 16);
    for _ in 0..5 {
        dirty.mark(column(0, 0));
    }
    handle_chunk_meshes_update_queue(&mut dirty, &mut meshes);
    assert_eq!(meshes.len(), 1);
    let rebuilt = update_column_meshes(&mut meshes, &world);
    assert_eq!(rebuilt, vec![column(0, 0)]);
    assert!(!meshes.get(&column(0, 0)).unwrap().dirty);
    assert_eq!(meshes.get(&column(0, 0)).unwrap().mesh.vertex_count(), 5 * 24);
    // nothing is dirty any more
    assert!(update_column_meshes(&mut meshes, &world).is_empty());
}

#[test]
fn incomplete_column_is_skipped_and_not_queued_again() {
    let mut world = VoxelData::new();
    let mut dirty = ChunkMeshesUpdateQueue::new();
    let mut meshes = VoxelMeshes::new();
    load_column(&mut world, &mut dirty, column(0, 0), 16);
    load_column(&mut world, &mut dirty, column(1, 0), 7);
    handle_chunk_meshes_update_queue(&mut dirty, &mut meshes);
    let rebuilt = update_column_meshes(&mut meshes, &world);
    assert_eq!(rebuilt, vec![column(0, 0)]);
    assert!(dirty.is_empty());
    let waiting = meshes.get(&column(1, 0)).unwrap();
    assert!(!waiting.dirty);
    assert_eq!(waiting.mesh.vertex_count(), 0);
    // the rest of the column arrives
    load_column(&mut world, &mut dirty, column(1, 0), 16);
    assert_eq!(dirty.pending(), vec![column(1, 0)]);
    handle_chunk_meshes_update_queue(&mut dirty, &mut meshes);
    assert_eq!(update_column_meshes(&mut meshes, &world), vec![column(1, 0)]);
    assert!(!meshes.get(&column(1, 0)).unwrap().dirty);
    assert_eq!(meshes.len(), 2);
}

#[test]
fn edit_leads_to_a_new_mesh_of_its_column() {
    let mut world = VoxelData::new();
    let mut dirty = ChunkMeshesUpdateQueue::new();
    let mut edits = VoxelModifyQueue::new();
    let mut meshes = VoxelMeshes::new();
    load_column(&mut world, &mut dirty, column(0, 0), 16);
    load_column(&mut world, &mut dirty, column(0, 1), 16);
    handle_chunk_meshes_update_queue(&mut dirty, &mut meshes);
    update_column_meshes(&mut meshes, &world);
    let before = meshes.get(&column(0, 0)).unwrap().mesh.vertex_count();
    // dig a hole into the top of the ground
    edits.submit(VoxelPos { x: 8, y: 70, z: 8 }, 0);
    handle_voxel_modify_queue(&mut world, &mut edits, &mut dirty);
    handle_chunk_meshes_update_queue(&mut dirty, &mut meshes);
    assert!(meshes.get(&column(0, 0)).unwrap().dirty);
    assert!(!meshes.get(&column(0, 1)).unwrap().dirty);
    assert_eq!(update_column_meshes(&mut meshes, &world), vec![column(0, 0)]);
    let after = meshes.get(&column(0, 0)).unwrap().mesh.vertex_count();
    assert!(after > before);
    assert_eq!(meshes.get(&column(0, 1)).unwrap().mesh.vertex_count(), before);
}

#[test]
fn column_that_was_dropped_is_rebuilt_only_after_a_new_mark() {
    let mut world = VoxelData::new();
    let mut dirty = ChunkMeshesUpdateQueue::new();
    let mut meshes = VoxelMeshes::new();
    load_column(&mut world, &mut dirty, column(4, 4), 10);
    handle_chunk_meshes_update_queue(&mut dirty, &mut meshes);
    assert!(update_column_meshes(&mut meshes, &world).is_empty());
    assert!(!meshes.get(&column(4, 4)).unwrap().dirty);
    // the missing chunks become resident without a mark of the column
    for y in 10..16 {
        let index = ChunkIndex { x: 4, y, z: 4 };
        world.insert(mcrs::chunk::ChunkData::new(index, &flat(70)));
    }
    assert!(column_is_complete(&world, &column(4, 4)));
    assert!(update_column_meshes(&mut meshes, &world).is_empty());
    assert_eq!(meshes.get(&column(4, 4)).unwrap().mesh.vertex_count(), 0);
    // a mark brings the rebuild
    dirty.mark(column(4, 4));
    handle_chunk_meshes_update_queue(&mut dirty, &mut meshes);
    assert_eq!(update_column_meshes(&mut meshes, &world), vec![column(4, 4)]);
    assert_eq!(meshes.get(&column(4, 4)).unwrap().mesh.vertex_count(), 5 * 24);
}

#[test]
fn dropped_column_keeps_the_mesh_that_it_had() {
    let mut world = VoxelData::new();
    let mut dirty = ChunkMeshesUpdateQueue::new();
    let mut meshes = VoxelMeshes::new();
    load_column(&mut world, &mut dirty, column(0, 0), 16);
    handle_chunk_meshes_update_queue(&mut dirty, &mut meshes);
    update_column_meshes(&mut meshes, &world);
    let built = meshes.get(&column(0, 0)).unwrap().mesh.positions.clone();
    // a clean column goes through a cycle with a chunk missing
    world.remove(&ChunkIndex { x: 0, y: 15, z: 0 });
    assert!(update_column_meshes(&mut meshes, &world).is_empty());
    assert_eq!(meshes.get(&column(0, 0)).unwrap().mesh.positions, built);
    assert!(!meshes.get(&column(0, 0)).unwrap().dirty);
}
