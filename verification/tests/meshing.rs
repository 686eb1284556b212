use mcrs::chunk::ChunkData;
use mcrs::coords::ChunkIndex;
use mcrs::merge::{can_merge_mesh, merge_voxels};
use mcrs::mesh::{MeshData, Vec2i, Vec3i};
use mcrs::surface::{default_mesh, greedy_meshing};

fn empty_chunk(index: ChunkIndex) -> ChunkData {
    ChunkData { level: 0, index, voxels: [[[0u8; 16]; 16]; 16] }
}

fn origin() -> ChunkIndex {
    ChunkIndex { x: 0, y: 0, z: 0 }
}

fn chunk_with(cells: &[(usize, usize, usize, u8)]) -> ChunkData {
    let mut chunk = empty_chunk(origin());
    for &(x, y, z, tid) in cells {
        chunk.voxels[x][y][z] = tid;
    }
    chunk
}

fn scrambled_chunk(seed: u64, index: ChunkIndex) -> ChunkData {
    let mut chunk = empty_chunk(index);
    let mut state = seed;
    for x in 0..16 {
        for y in 0..16 {
            for z in 0..16 {
                state = state.wrapping_mul(6364136223846793005).wrapping_add(1442695040888963407);
                let r = (state >> 33) % 4;
                chunk.voxels[x][y][z] = if r == 0 { 0 } else if r == 3 { 2 } else { 1 };
            }
        }
    }
    chunk
}

fn v(x: i64, y: i64, z: i64) -> Vec3i {
    Vec3i { x, y, z }
}

fn quads(mesh: &MeshData) -> usize {
    assert_eq!(mesh.positions.len() % 4, 0);
    assert_eq!(mesh.normals.len(), mesh.positions.len());
    assert_eq!(mesh.uvs.len(), mesh.positions.len());
    assert_eq!(mesh.indices.len() / 6 * 4, mesh.positions.len());
    mesh.positions.len() / 4
}

fn is_exposed(chunk: &ChunkData, x: i64, y: i64, z: i64) -> bool {
    if x < 0 || y < 0 || z < 0 || x > 15 || y > 15 || z > 15 {
        return true;
    }
    chunk.voxels[x as usize][y as usize][z as usize] == 0
}

fn naive_face_count(chunk: &ChunkData) -> usize {
    let mut count = 0;
    for x in 0..16i64 {
        for y in 0..16i64 {
            for z in 0..16i64 {
                if chunk.voxels[x as usize][y as usize][z as usize] == 0 {
                    continue;
                }
                for (dx, dy, dz) in [(1, 0, 0), (-1, 0, 0), (0, 1, 0), (0, -1, 0), (0, 0, 1), (0, 0, -1)] {
                    if is_exposed(chunk, x + dx, y + dy, z + dz) {
                        count += 1;
                    }
                }
            }
        }
    }
    count
}

fn quad_bounds(mesh: &MeshData, q: usize) -> (Vec3i, Vec3i, Vec3i) {
    let ps = &mesh.positions[4 * q..4 * q + 4];
    let lo = v(
        ps.iter().map(|p| p.x).min().unwrap(),
        ps.iter().map(|p| p.y).min().unwrap(),
        ps.iter().map(|p| p.z).min().unwrap(),
    );
    let hi = v(
        ps.iter().map(|p| p.x).max().unwrap(),
        ps.iter().map(|p| p.y).max().unwrap(),
        ps.iter().map(|p| p.z).max().unwrap(),
    );
    (lo, hi, mesh.normals[4 * q])
}

fn face_is_covered(mesh: &MeshData, lo: Vec3i, hi: Vec3i, normal: Vec3i) -> bool {
    (0..mesh.positions.len() / 4).any(|q| {
        let (qlo, qhi, qn) = quad_bounds(mesh, q);
        qn == normal
            && qlo.x <= lo.x
            && qlo.y <= lo.y
            && qlo.z <= lo.z
            && hi.x <= qhi.x
            && hi.y <= qhi.y
            && hi.z <= qhi.z
    })
}

fn every_visible_face_is_covered(chunk: &ChunkData, mesh: &MeshData) -> bool {
    let bx = chunk.index.x as i64 * 16;
    let by = chunk.index.y as i64 * 16;
    let bz = chunk.index.z as i64 * 16;
    for x in 0..16i64 {
        for y in 0..16i64 {
            for z in 0..16i64 {
                if chunk.voxels[x as usize][y as usize][z as usize] == 0 {
                    continue;
                }
                for (dx, dy, dz) in [(1, 0, 0), (-1, 0, 0), (0, 1, 0), (0, -1, 0), (0, 0, 1), (0, 0, -1)] {
                    if !is_exposed(chunk, x + dx, y + dy, z + dz) {
                        continue;
                    }
                    let mut lo = v(bx + x, by + y, bz + z);
                    let mut hi = v(bx + x + 1, by + y + 1, bz + z + 1);
                    if dx == 1 { lo.x = hi.x; }
                    if dx == -1 { hi.x = lo.x; }
                    if dy == 1 { lo.y = hi.y; }
                    if dy == -1 { hi.y = lo.y; }
                    if dz == 1 { lo.z = hi.z; }
                    if dz == -1 { hi.z = lo.z; }
                    if !face_is_covered(mesh, lo, hi, v(dx, dy, dz)) {
                        return false;
                    }
                }
            }
        }
    }
    true
}

#[test]
fn voxels_merge_when_their_material_is_the_same() {
    assert!(can_merge_mesh(1, 1));
    assert!(can_merge_mesh(0, 0));
    assert!(!can_merge_mesh(1, 2));
    assert!(!can_merge_mesh(0, 1));
}

#[test]
fn empty_chunk_has_no_surface() {
    let chunk = empty_chunk(origin());
    let greedy = greedy_meshing(&chunk);
    let naive = default_mesh(&chunk);
    assert_eq!(greedy.positions.len(), 0);
    assert_eq!(greedy.indices.len(), 0);
    assert_eq!(naive.positions.len(), 0);
    assert_eq!(naive.indices.len(), 0);
}

#[test]
fn single_voxel_has_six_faces() {
    let chunk = chunk_with(&[(3, 4, 5, 1)]);
    let greedy = greedy_meshing(&chunk);
    let naive = default_mesh(&chunk);
    assert_eq!(quads(&greedy), 6);
    assert_eq!(greedy.triangle_count(), 12);
    assert_eq!(greedy.vertex_count(), 24);
    assert_eq!(greedy.positions, naive.positions);
    assert_eq!(greedy.normals, naive.normals);
    assert_eq!(greedy.uvs, naive.uvs);
    assert_eq!(greedy.indices, naive.indices);
}

#[test]
fn faces_of_a_single_voxel_in_their_order() {
    let mesh = greedy_meshing(&chunk_with(&[(3, 4, 5, 1)]));
    // top
    assert_eq!(&mesh.positions[0..4], &[v(4, 5, 5), v(3, 5, 5), v(3, 5, 6), v(4, 5, 6)]);
    assert_eq!(&mesh.normals[0..4], &[v(0, 1, 0); 4]);
    // bottom
    assert_eq!(&mesh.positions[4..8], &[v(3, 4, 5), v(4, 4, 5), v(4, 4, 6), v(3, 4, 6)]);
    assert_eq!(&mesh.normals[4..8], &[v(0, -1, 0); 4]);
    // left
    assert_eq!(&mesh.positions[8..12], &[v(3, 5, 6), v(3, 5, 5), v(3, 4, 5), v(3, 4, 6)]);
    assert_eq!(&mesh.normals[8..12], &[v(-1, 0, 0); 4]);
    // right
    assert_eq!(&mesh.positions[12..16], &[v(4, 5, 5), v(4, 5, 6), v(4, 4, 6), v(4, 4, 5)]);
    assert_eq!(&mesh.normals[12..16], &[v(1, 0, 0); 4]);
    // front
    assert_eq!(&mesh.positions[16..20], &[v(4, 5, 6), v(3, 5, 6), v(3, 4, 6), v(4, 4, 6)]);
    assert_eq!(&mesh.normals[16..20], &[v(0, 0, 1); 4]);
    // back
    assert_eq!(&mesh.positions[20..24], &[v(3, 5, 5), v(4, 5, 5), v(4, 4, 5), v(3, 4, 5)]);
    assert_eq!(&mesh.normals[20..24], &[v(0, 0, -1); 4]);
    let corners = [
        Vec2i { x: 1, y: 0 },
        Vec2i { x: 0, y: 0 },
        Vec2i { x: 0, y: 1 },
        Vec2i { x: 1, y: 1 },
    ];
    for q in 0..6 {
        assert_eq!(&mesh.uvs[4 * q..4 * q + 4], &corners);
        let s = 4 * q as u32;
        assert_eq!(&mesh.indices[6 * q..6 * q + 6], &[s, s + 1, s + 2, s + 2, s + 3, s]);
    }
}

#[test]
fn full_chunk_merges_into_one_box() {
    let mut chunk = empty_chunk(ChunkIndex { x: 1, y: 2, z: 3 });
    chunk.voxels = [[[1u8; 16]; 16]; 16];
    let sizes = merge_voxels(&chunk);
    for x in 0..16 {
        for y in 0..16 {
            for z in 0..16 {
                let e = sizes[x][y][z];
                if (x, y, z) == (15, 15, 15) {
                    assert_eq!((e.x, e.y, e.z), (16, 16, 16));
                } else {
                    assert_eq!((e.x, e.y, e.z), (0, 0, 0));
                }
            }
        }
    }
    let mesh = greedy_meshing(&chunk);
    assert_eq!(quads(&mesh), 6);
    assert_eq!(&mesh.positions[0..4], &[v(32, 48, 48), v(16, 48, 48), v(16, 48, 64), v(32, 48, 64)]);
    assert_eq!(&mesh.positions[4..8], &[v(16, 32, 48), v(32, 32, 48), v(32, 32, 64), v(16, 32, 64)]);
    assert_eq!(&mesh.positions[8..12], &[v(16, 48, 64), v(16, 48, 48), v(16, 32, 48), v(16, 32, 64)]);
    assert_eq!(&mesh.positions[12..16], &[v(32, 48, 48), v(32, 48, 64), v(32, 32, 64), v(32, 32, 48)]);
    assert_eq!(&mesh.positions[16..20], &[v(32, 48, 64), v(16, 48, 64), v(16, 32, 64), v(32, 32, 64)]);
    assert_eq!(&mesh.positions[20..24], &[v(16, 48, 48), v(32, 48, 48), v(32, 32, 48), v(16, 32, 48)]);
    assert_eq!(quads(&default_mesh(&chunk)), 6 * 256);
}

#[test]
fn two_voxels_of_one_material_along_x_merge() {
    let chunk = chunk_with(&[(3, 4, 5, 1), (4, 4, 5, 1)]);
    let sizes = merge_voxels(&chunk);
    assert_eq!((sizes[4][4][5].x, sizes[4][4][5].y, sizes[4][4][5].z), (2, 1, 1));
    assert_eq!((sizes[3][4][5].x, sizes[3][4][5].y, sizes[3][4][5].z), (0, 0, 0));
    let mesh = greedy_meshing(&chunk);
    assert_eq!(quads(&mesh), 6);
    assert_eq!(&mesh.positions[0..4], &[v(5, 5, 5), v(3, 5, 5), v(3, 5, 6), v(5, 5, 6)]);
    assert_eq!(quads(&default_mesh(&chunk)), 10);
}

#[test]
fn voxels_of_different_materials_do_not_merge() {
    let chunk = chunk_with(&[(3, 4, 5, 1), (4, 4, 5, 2)]);
    let sizes = merge_voxels(&chunk);
    assert_eq!((sizes[4][4][5].x, sizes[4][4][5].y, sizes[4][4][5].z), (1, 1, 1));
    assert_eq!((sizes[3][4][5].x, sizes[3][4][5].y, sizes[3][4][5].z), (1, 1, 1));
    assert_eq!(quads(&greedy_meshing(&chunk)), 10);
    assert_eq!(quads(&default_mesh(&chunk)), 10);
}

#[test]
fn merging_goes_along_x_then_z_then_y() {
    let l_shape = chunk_with(&[(0, 0, 0, 1), (1, 0, 0, 1), (0, 0, 1, 1)]);
    let sizes = merge_voxels(&l_shape);
    assert_eq!((sizes[1][0][0].x, sizes[1][0][0].y, sizes[1][0][0].z), (2, 1, 1));
    assert_eq!((sizes[0][0][1].x, sizes[0][0][1].y, sizes[0][0][1].z), (1, 1, 1));
    assert_eq!((sizes[0][0][0].x, sizes[0][0][0].y, sizes[0][0][0].z), (0, 0, 0));
    assert_eq!(quads(&greedy_meshing(&l_shape)), 11);
    assert_eq!(quads(&default_mesh(&l_shape)), 14);

    let mut cells = Vec::new();
    for x in 2..4 {
        for y in 5..7 {
            for z in 8..10 {
                cells.push((x, y, z, 3u8));
            }
        }
    }
    let cube = chunk_with(&cells);
    let sizes = merge_voxels(&cube);
    assert_eq!((sizes[3][6][9].x, sizes[3][6][9].y, sizes[3][6][9].z), (2, 2, 2));
    assert_eq!(quads(&greedy_meshing(&cube)), 6);
    assert_eq!(quads(&default_mesh(&cube)), 24);
}

#[test]
fn face_that_is_shown_in_part_is_drawn_whole() {
    let chunk = chunk_with(&[(0, 0, 0, 1), (1, 0, 0, 1), (0, 1, 0, 2)]);
    let mesh = greedy_meshing(&chunk);
    // the box of the two voxels below comes first, with its whole top
    assert_eq!(&mesh.positions[0..4], &[v(2, 1, 0), v(0, 1, 0), v(0, 1, 1), v(2, 1, 1)]);
    assert_eq!(mesh.normals[0], v(0, 1, 0));
    assert_eq!(quads(&mesh), 6 + 5);
    assert_eq!(naive_face_count(&chunk), 5 + 4 + 5);
    assert!(every_visible_face_is_covered(&chunk, &mesh));
}

#[test]
fn face_that_is_hidden_is_not_drawn() {
    let chunk = chunk_with(&[(5, 5, 5, 1), (5, 6, 5, 2)]);
    let mesh = greedy_meshing(&chunk);
    assert_eq!(quads(&mesh), 10);
    // the lower voxel has no top face
    assert_eq!(mesh.normals[0], v(0, -1, 0));
}

#[test]
fn merged_surface_has_no_more_triangles_than_the_plain_one() {
    for seed in 1..6u64 {
        let chunk = scrambled_chunk(seed, ChunkIndex { x: -1, y: 3, z: 2 });
        let greedy = greedy_meshing(&chunk);
        let naive = default_mesh(&chunk);
        assert_eq!(quads(&naive), naive_face_count(&chunk));
        assert!(greedy.triangle_count() <= naive.triangle_count());
        assert!(greedy.triangle_count() > 0);
    }
}

#[test]
fn merged_surface_covers_every_visible_face() {
    for seed in 7..10u64 {
        let chunk = scrambled_chunk(seed, ChunkIndex { x: 2, y: 0, z: -4 });
        assert!(every_visible_face_is_covered(&chunk, &greedy_meshing(&chunk)));
        assert!(every_visible_face_is_covered(&chunk, &default_mesh(&chunk)));
    }
}

#[test]
fn terrain_surface_is_covered_and_smaller() {
    let mut heights = [[0i32; 16]; 16];
    for x in 0..16 {
        for z in 0..16 {
            heights[x][z] = 66 + ((x * 7 + z * 3) % 5) as i32;
        }
    }
    let chunk = ChunkData::new(ChunkIndex { x: 0, y: 4, z: 0 }, &heights);
    let greedy = greedy_meshing(&chunk);
    let naive = default_mesh(&chunk);
    assert!(every_visible_face_is_covered(&chunk, &greedy));
    assert!(greedy.triangle_count() < naive.triangle_count());
    for &i in &greedy.indices {
        assert!((i as usize) < greedy.positions.len());
    }
}

#[test]
fn meshing_is_the_same_every_time() {
    let chunk = scrambled_chunk(42, origin());
    let first = greedy_meshing(&chunk);
    let second = greedy_meshing(&chunk);
    assert_eq!(first.positions, second.positions);
    assert_eq!(first.indices, second.indices);
    assert_eq!(first.normals, second.normals);
    assert_eq!(first.uvs, second.uvs);
}

#[test]
fn mesh_of_a_chunk_far_from_the_origin() {
    let mut chunk = empty_chunk(ChunkIndex { x: i32::MAX, y: i32::MIN, z: 0 });
    chunk.voxels[15][0][0] = 1;
    let mesh = greedy_meshing(&chunk);
    assert_eq!(quads(&mesh), 6);
    let x = i32::MAX as i64 * 16 + 15;
    let y = i32::MIN as i64 * 16;
    assert_eq!(mesh.positions[0], v(x + 1, y + 1, 0));
    assert_eq!(mesh.positions[4], v(x, y, 0));
}
