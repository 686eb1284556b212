use mcrs::chunk::ChunkData;
use mcrs::coords::{ChunkColumn, ChunkIndex, VoxelPos};
use mcrs::edit::{handle_voxel_modify_queue, hit_voxel, VoxelAction};
use mcrs::queues::{ChunkMeshesUpdateQueue, VoxelModifyQueue};
use mcrs::world::VoxelData;

fn filled(index: ChunkIndex, tid: u8) -> ChunkData {
    ChunkData { level: 0, index, voxels: [[[tid; 16]; 16]; 16] }
}

fn pos(x: i32, y: i32, z: i32) -> VoxelPos {
    VoxelPos { x, y, z }
}

fn world_with_ground() -> VoxelData {
    let mut world = VoxelData::new();
    // ground below y = 16, air above, in the column (0, 0); air only in (1, 0)
    world.insert(filled(ChunkIndex { x: 0, y: 0, z: 0 }, 1));
    world.insert(filled(ChunkIndex { x: 0, y: 1, z: 0 }, 0));
    world.insert(filled(ChunkIndex { x: 1, y: 1, z: 0 }, 0));
    world
}

#[test]
fn removing_a_voxel_empties_its_cell_and_marks_its_column() {
    let mut world = world_with_ground();
    let mut edits = VoxelModifyQueue::new();
    let mut dirty = ChunkMeshesUpdateQueue::new();
    let target = pos(5, 15, 9);
    edits.submit(target, 0);
    assert_eq!(world.voxel(&target), Some(1));
    handle_voxel_modify_queue(&mut world, &mut edits, &mut dirty);
    assert_eq!(world.voxel(&target), Some(0));
    assert_eq!(world.get(&ChunkIndex { x: 0, y: 0, z: 0 }).unwrap().voxels[5][15][9], 0);
    assert_eq!(world.get(&ChunkIndex { x: 0, y: 0, z: 0 }).unwrap().voxels[5][14][9], 1);
    assert!(dirty.contains(&ChunkColumn { x: 0, z: 0 }));
    assert_eq!(dirty.len(), 1);
    assert_eq!(edits.len(), 0);
}

#[test]
fn the_last_edit_of_a_voxel_wins() {
    let mut world = world_with_ground();
    let mut edits = VoxelModifyQueue::new();
    let mut dirty = ChunkMeshesUpdateQueue::new();
    let target = pos(0, 16, 0);
    edits.submit(target, 3);
    edits.submit(pos(1, 16, 0), 4);
    edits.submit(target, 7);
    handle_voxel_modify_queue(&mut world, &mut edits, &mut dirty);
    assert_eq!(world.voxel(&target), Some(7));
    assert_eq!(world.voxel(&pos(1, 16, 0)), Some(4));
    assert_eq!(dirty.pending(), vec![ChunkColumn { x: 0, z: 0 }]);
}

#[test]
fn edit_in_a_chunk_that_is_not_resident_is_dropped() {
    let mut world = world_with_ground();
    let mut edits = VoxelModifyQueue::new();
    let mut dirty = ChunkMeshesUpdateQueue::new();
    edits.submit(pos(-1, 5, 5), 1);
    edits.submit(pos(16, 5, 5), 1);
    edits.submit(pos(16, 16, 5), 2);
    handle_voxel_modify_queue(&mut world, &mut edits, &mut dirty);
    assert_eq!(world.len(), 3);
    assert_eq!(world.voxel(&pos(-1, 5, 5)), None);
    assert_eq!(world.voxel(&pos(16, 5, 5)), None);
    assert_eq!(world.voxel(&pos(16, 16, 5)), Some(2));
    assert_eq!(dirty.pending(), vec![ChunkColumn { x: 1, z: 0 }]);
    assert!(edits.queue.is_empty());
}

#[test]
fn draining_an_empty_queue_changes_nothing() {
    let mut world = world_with_ground();
    let mut edits = VoxelModifyQueue::new();
    let mut dirty = ChunkMeshesUpdateQueue::new();
    dirty.mark(ChunkColumn { x: 9, z: 9 });
    handle_voxel_modify_queue(&mut world, &mut edits, &mut dirty);
    assert_eq!(world.voxel(&pos(5, 15, 9)), Some(1));
    assert_eq!(dirty.pending(), vec![ChunkColumn { x: 9, z: 9 }]);
}

#[test]
fn breaking_targets_the_first_solid_voxel() {
    let world = world_with_ground();
    let mut edits = VoxelModifyQueue::new();
    let ray = [pos(3, 18, 3), pos(3, 17, 3), pos(3, 16, 3), pos(3, 15, 3), pos(3, 14, 3)];
    let queued = hit_voxel(&world, &ray, VoxelAction::Break, &mut edits);
    assert_eq!(queued, Some((pos(3, 15, 3), 0)));
    assert_eq!(edits.queue, vec![(pos(3, 15, 3), 0)]);
}

#[test]
fn placing_targets_the_last_empty_voxel_before_the_first_solid_one() {
    let world = world_with_ground();
    let mut edits = VoxelModifyQueue::new();
    let ray = [pos(3, 18, 3), pos(3, 17, 3), pos(3, 16, 3), pos(3, 15, 3), pos(3, 14, 3)];
    let queued = hit_voxel(&world, &ray, VoxelAction::Place, &mut edits);
    assert_eq!(queued, Some((pos(3, 16, 3), 1)));
    assert_eq!(edits.queue, vec![(pos(3, 16, 3), 1)]);
}

#[test]
fn ray_from_inside_a_solid_voxel() {
    let world = world_with_ground();
    let mut edits = VoxelModifyQueue::new();
    let ray = [pos(3, 10, 3), pos(3, 11, 3)];
    assert_eq!(hit_voxel(&world, &ray, VoxelAction::Place, &mut edits), Some((pos(3, 10, 3), 1)));
    assert_eq!(hit_voxel(&world, &ray, VoxelAction::Break, &mut edits), Some((pos(3, 10, 3), 0)));
    assert_eq!(edits.len(), 2);
}

#[test]
fn ray_that_meets_no_solid_voxel_queues_nothing() {
    let world = world_with_ground();
    let mut edits = VoxelModifyQueue::new();
    let through_air = [pos(3, 18, 3), pos(4, 18, 3), pos(5, 18, 3)];
    let out_of_the_world = [pos(3, 18, 3), pos(3, 18, -1), pos(3, 5, -1)];
    assert_eq!(hit_voxel(&world, &through_air, VoxelAction::Break, &mut edits), None);
    assert_eq!(hit_voxel(&world, &through_air, VoxelAction::Place, &mut edits), None);
    assert_eq!(hit_voxel(&world, &out_of_the_world, VoxelAction::Break, &mut edits), None);
    assert_eq!(hit_voxel(&world, &[], VoxelAction::Break, &mut edits), None);
    assert_eq!(edits.len(), 0);
}

#[test]
fn break_then_drain_removes_the_voxel_that_was_looked_at() {
    let mut world = world_with_ground();
    let mut edits = VoxelModifyQueue::new();
    let mut dirty = ChunkMeshesUpdateQueue::new();
    let ray = [pos(8, 17, 8), pos(8, 16, 8), pos(8, 15, 8), pos(8, 14, 8)];
    hit_voxel(&world, &ray, VoxelAction::Break, &mut edits);
    handle_voxel_modify_queue(&mut world, &mut edits, &mut dirty);
    assert_eq!(world.voxel(&pos(8, 15, 8)), Some(0));
    // the next break along the same ray goes one voxel deeper
    hit_voxel(&world, &ray, VoxelAction::Break, &mut edits);
    assert_eq!(edits.queue, vec![(pos(8, 14, 8), 0)]);
}
