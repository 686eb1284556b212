use lerp::Lerp;
use mcrs::chunk::ChunkData;
use mcrs::coords::{ChunkIndex, VoxelLocalIndex};
use noise::{NoiseFn, Perlin};

fn flat(land: i32) -> [[i32; 16]; 16] {
    [[land; 16]; 16]
}

fn sampled_heights(index: &ChunkIndex) -> [[i32; 16]; 16] {
    let perlin = Perlin::new(123);
    let mut heights = [[0i32; 16]; 16];
    for x in 0..16 {
        for z in 0..16 {
            let val = perlin.get([
                (x as f64 + index.x as f64 * 16.0) / 64.0,
                (z as f64 + index.z as f64 * 16.0) / 64.0,
                0.0,
            ]);
            heights[x][z] = 48.0.lerp(128.0, (val + 1.0) / 2.0) as i32;
        }
    }
    heights
}

#[test]
fn terrain_is_ground_up_to_the_land_and_air_above() {
    let chunk = ChunkData::new(ChunkIndex { x: 0, y: 3, z: 0 }, &flat(50));
    assert_eq!(chunk.level, 0);
    assert_eq!(chunk.index, ChunkIndex { x: 0, y: 3, z: 0 });
    for x in 0..16 {
        for z in 0..16 {
            for y in 0..16 {
                let expected = if 48 + y as i32 > 50 { 0 } else { 1 };
                assert_eq!(chunk.voxels[x][y][z], expected);
            }
        }
    }
    assert_eq!(chunk.voxels[4][2][9], 1);
    assert_eq!(chunk.voxels[4][3][9], 0);
}

#[test]
fn terrain_follows_the_height_of_each_cell() {
    let mut heights = flat(0);
    for x in 0..16 {
        for z in 0..16 {
            heights[x][z] = (x + z) as i32;
        }
    }
    let chunk = ChunkData::new(ChunkIndex { x: -2, y: 0, z: 5 }, &heights);
    assert_eq!(chunk.voxels[0][0][0], 1);
    assert_eq!(chunk.voxels[0][1][0], 0);
    assert_eq!(chunk.voxels[3][10][7], 1);
    assert_eq!(chunk.voxels[3][11][7], 0);
    assert_eq!(chunk.voxels[15][15][15], 1);
}

#[test]
fn chunk_above_the_land_is_empty_and_chunk_below_is_full() {
    let above = ChunkData::new(ChunkIndex { x: 0, y: 9, z: 0 }, &flat(128));
    let below = ChunkData::new(ChunkIndex { x: 0, y: 2, z: 0 }, &flat(48));
    let at_top = ChunkData::new(ChunkIndex { x: 0, y: 8, z: 0 }, &flat(128));
    let under_zero = ChunkData::new(ChunkIndex { x: 0, y: -1, z: 0 }, &flat(-100));
    for x in 0..16 {
        for y in 0..16 {
            for z in 0..16 {
                assert_eq!(above.voxels[x][y][z], 0);
                assert_eq!(below.voxels[x][y][z], 1);
                assert_eq!(at_top.voxels[x][y][z], if y == 0 { 1 } else { 0 });
                assert_eq!(under_zero.voxels[x][y][z], 0);
            }
        }
    }
}

#[test]
fn terrain_at_the_limits_of_the_coordinates() {
    let lowest = ChunkData::new(ChunkIndex { x: 0, y: i32::MIN, z: 0 }, &flat(i32::MIN));
    let highest = ChunkData::new(ChunkIndex { x: 0, y: i32::MAX, z: 0 }, &flat(i32::MAX));
    assert_eq!(lowest.voxels[0][0][0], 1);
    assert_eq!(highest.voxels[0][15][0], 0);
}

#[test]
fn generating_a_chunk_twice_gives_the_same_voxels() {
    for index in [
        ChunkIndex { x: 0, y: 4, z: 0 },
        ChunkIndex { x: -3, y: 5, z: 7 },
        ChunkIndex { x: 12, y: 6, z: -9 },
    ] {
        let first = ChunkData::new(index, &sampled_heights(&index));
        let second = ChunkData::new(index, &sampled_heights(&index));
        assert_eq!(first.voxels, second.voxels);
        assert_eq!(first.index, second.index);
        assert_eq!(first.level, second.level);
    }
}

#[test]
fn sampled_land_lies_between_its_bounds() {
    let index = ChunkIndex { x: 1, y: 0, z: -1 };
    let heights = sampled_heights(&index);
    for x in 0..16 {
        for z in 0..16 {
            assert!(heights[x][z] >= mcrs::chunk::LAND_MIN);
            assert!(heights[x][z] <= mcrs::chunk::LAND_MAX);
        }
    }
    let low = ChunkData::new(ChunkIndex { x: 1, y: 2, z: -1 }, &heights);
    let high = ChunkData::new(ChunkIndex { x: 1, y: 9, z: -1 }, &heights);
    assert_eq!(low.voxels[7][15][7], 1);
    assert_eq!(high.voxels[7][0][7], 0);
}

#[test]
fn get_and_set_a_voxel() {
    let mut chunk = ChunkData::new(ChunkIndex { x: 0, y: 0, z: 0 }, &flat(3));
    let local = VoxelLocalIndex { x: 2, y: 3, z: 4 };
    assert_eq!(chunk.get(&local), 1);
    chunk.set(&local, 0);
    assert_eq!(chunk.get(&local), 0);
    assert_eq!(chunk.get(&VoxelLocalIndex { x: 2, y: 2, z: 4 }), 1);
    assert_eq!(chunk.get(&VoxelLocalIndex { x: 2, y: 4, z: 4 }), 0);
    chunk.set(&VoxelLocalIndex { x: 15, y: 15, z: 15 }, 7);
    assert_eq!(chunk.voxels[15][15][15], 7);
}
