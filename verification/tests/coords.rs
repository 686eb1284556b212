use mcrs::coords::{get_chunk_index, pos_to_voxel, ChunkColumn, ChunkIndex, VoxelPos};
use mcrs::{CHUNK_LIMIT_Y, CHUNK_SIZE, HEIGHT_LIMIT};

fn pos(x: i32, y: i32, z: i32) -> VoxelPos {
    VoxelPos { x, y, z }
}

#[test]
fn sizes_of_the_world() {
    assert_eq!(CHUNK_SIZE, 16);
    assert_eq!(CHUNK_LIMIT_Y, 16);
    assert_eq!(HEIGHT_LIMIT, 256);
}

#[test]
fn chunk_index_of_positions_in_the_first_chunk() {
    assert_eq!(get_chunk_index(&pos(0, 0, 0)), ChunkIndex { x: 0, y: 0, z: 0 });
    assert_eq!(get_chunk_index(&pos(15, 15, 15)), ChunkIndex { x: 0, y: 0, z: 0 });
}

#[test]
fn chunk_index_rounds_towards_negative_infinity() {
    assert_eq!(get_chunk_index(&pos(16, -1, -16)), ChunkIndex { x: 1, y: -1, z: -1 });
    assert_eq!(get_chunk_index(&pos(-17, 31, 32)), ChunkIndex { x: -2, y: 1, z: 2 });
}

#[test]
fn chunk_index_at_the_limits_of_the_coordinates() {
    assert_eq!(
        get_chunk_index(&pos(i32::MIN, i32::MAX, 0)),
        ChunkIndex { x: -134217728, y: 134217727, z: 0 }
    );
}

#[test]
fn pos_to_voxel_splits_a_position() {
    let (chunk, local) = pos_to_voxel(&pos(-1, 17, 31));
    assert_eq!(chunk, ChunkIndex { x: -1, y: 1, z: 1 });
    assert_eq!((local.x, local.y, local.z), (15, 1, 15));
}

#[test]
fn pos_to_voxel_parts_give_the_position_back() {
    for &(x, y, z) in &[(0, 0, 0), (5, 130, -7), (-16, -17, 48), (i32::MAX, i32::MIN, 1)] {
        let (chunk, local) = pos_to_voxel(&pos(x, y, z));
        assert!(local.x < 16 && local.y < 16 && local.z < 16);
        assert_eq!(chunk.x as i64 * 16 + local.x as i64, x as i64);
        assert_eq!(chunk.y as i64 * 16 + local.y as i64, y as i64);
        assert_eq!(chunk.z as i64 * 16 + local.z as i64, z as i64);
    }
}

#[test]
fn sight_is_measured_by_the_larger_horizontal_distance() {
    let observer = ChunkIndex { x: 2, y: 5, z: -3 };
    assert!(ChunkIndex { x: 4, y: 0, z: -5 }.is_in_sight(&observer, 2));
    assert!(!ChunkIndex { x: 5, y: 5, z: -3 }.is_in_sight(&observer, 2));
    assert!(!ChunkIndex { x: 2, y: 5, z: 0 }.is_in_sight(&observer, 2));
    assert!(ChunkIndex { x: 2, y: 100, z: -3 }.is_in_sight(&observer, 0));
    assert!(ChunkColumn { x: 0, z: -1 }.is_in_sight(&observer, 2));
    assert!(!ChunkColumn { x: -1, z: -1 }.is_in_sight(&observer, 2));
}

#[test]
fn sight_at_the_limits_of_the_coordinates() {
    let observer = ChunkIndex { x: i32::MIN, y: 0, z: i32::MAX };
    assert!(!ChunkIndex { x: i32::MAX, y: 0, z: i32::MAX }.is_in_sight(&observer, 255));
    assert!(ChunkIndex { x: i32::MIN + 255, y: 0, z: i32::MAX - 255 }.is_in_sight(&observer, 255));
}

#[test]
fn column_and_chunk_of_a_column() {
    let index = ChunkIndex { x: 7, y: 3, z: -9 };
    assert_eq!(index.column(), ChunkColumn { x: 7, z: -9 });
    assert_eq!(ChunkColumn { x: 7, z: -9 }.chunk_at(3), index);
}
