use mcrs::chunk::ChunkData;
use mcrs::coords::ChunkIndex;
use mcrs::mesh::{add_face, can_combine, combine_meshes, FaceDirection, MeshData, Vec2i, Vec3i};
use mcrs::surface::greedy_meshing;
use mcrs::weld::merge_vertex;

fn v(x: i64, y: i64, z: i64) -> Vec3i {
    Vec3i { x, y, z }
}

fn one_voxel(x: usize, y: usize, z: usize) -> MeshData {
    let mut chunk =
        ChunkData { level: 0, index: ChunkIndex { x: 0, y: 0, z: 0 }, voxels: [[[0u8; 16]; 16]; 16] };
    chunk.voxels[x][y][z] = 1;
    greedy_meshing(&chunk)
}

#[test]
fn new_mesh_is_empty() {
    let mesh = MeshData::new();
    assert!(mesh.positions.is_empty());
    assert!(mesh.indices.is_empty());
    assert!(mesh.normals.is_empty());
    assert!(mesh.uvs.is_empty());
    assert_eq!(mesh.vertex_count(), 0);
    assert_eq!(mesh.triangle_count(), 0);
}

#[test]
fn add_face_adds_four_vertices_and_two_triangles() {
    let mut mesh = MeshData::new();
    add_face(&mut mesh, FaceDirection::Right, v(10, 20, 30), v(1, 2, 3));
    assert_eq!(mesh.positions, vec![v(11, 22, 30), v(11, 22, 33), v(11, 20, 33), v(11, 20, 30)]);
    assert_eq!(mesh.normals, vec![v(1, 0, 0); 4]);
    assert_eq!(
        mesh.uvs,
        vec![Vec2i { x: 1, y: 0 }, Vec2i { x: 0, y: 0 }, Vec2i { x: 0, y: 1 }, Vec2i { x: 1, y: 1 }]
    );
    assert_eq!(mesh.indices, vec![0, 1, 2, 2, 3, 0]);
    add_face(&mut mesh, FaceDirection::Back, v(-5, -5, -5), v(2, 2, 2));
    assert_eq!(&mesh.positions[4..], &[v(-5, -3, -5), v(-3, -3, -5), v(-3, -5, -5), v(-5, -5, -5)]);
    assert_eq!(&mesh.normals[4..], &[v(0, 0, -1); 4]);
    assert_eq!(&mesh.indices[6..], &[4, 5, 6, 6, 7, 4]);
}

#[test]
fn normals_and_corners_of_the_faces() {
    assert_eq!(FaceDirection::Right.normal(), v(1, 0, 0));
    assert_eq!(FaceDirection::Top.normal(), v(0, 1, 0));
    assert_eq!(FaceDirection::Front.normal(), v(0, 0, 1));
    assert_eq!(FaceDirection::Left.normal(), v(-1, 0, 0));
    assert_eq!(FaceDirection::Bottom.normal(), v(0, -1, 0));
    assert_eq!(FaceDirection::Back.normal(), v(0, 0, -1));
    assert_eq!(FaceDirection::Front.corner_indices(), [0, 1, 2, 3]);
    assert_eq!(FaceDirection::Back.corner_indices(), [4, 5, 6, 7]);
    assert_eq!(FaceDirection::Left.corner_indices(), [1, 4, 7, 2]);
    assert_eq!(FaceDirection::Right.corner_indices(), [5, 0, 3, 6]);
    assert_eq!(FaceDirection::Top.corner_indices(), [5, 4, 1, 0]);
    assert_eq!(FaceDirection::Bottom.corner_indices(), [7, 6, 3, 2]);
}

#[test]
fn combining_no_meshes_gives_an_empty_mesh() {
    let mesh = combine_meshes(&[]);
    assert_eq!(mesh.vertex_count(), 0);
    assert!(mesh.indices.is_empty());
}

#[test]
fn combining_moves_the_indices_of_later_meshes() {
    let mut a = MeshData::new();
    add_face(&mut a, FaceDirection::Top, v(0, 0, 0), v(1, 1, 1));
    let mut b = MeshData::new();
    add_face(&mut b, FaceDirection::Left, v(0, 16, 0), v(1, 1, 1));
    add_face(&mut b, FaceDirection::Front, v(0, 16, 0), v(1, 1, 1));
    let mut c = MeshData::new();
    add_face(&mut c, FaceDirection::Bottom, v(0, 32, 0), v(1, 1, 1));
    let parts = [a, b, c];
    let all = combine_meshes(&parts);
    assert_eq!(all.indices[0..6], [0, 1, 2, 2, 3, 0]);
    assert_eq!(all.indices[6..12], [4, 5, 6, 6, 7, 4]);
    assert_eq!(all.indices[12..18], [8, 9, 10, 10, 11, 8]);
    assert_eq!(all.indices[18..24], [12, 13, 14, 14, 15, 12]);
    assert_eq!(&all.positions[0..4], &parts[0].positions[..]);
    assert_eq!(&all.positions[4..12], &parts[1].positions[..]);
    assert_eq!(&all.positions[12..16], &parts[2].positions[..]);
    assert_eq!(&all.normals[4..12], &parts[1].normals[..]);
    assert_eq!(&all.uvs[12..16], &parts[2].uvs[..]);
}

#[test]
fn combining_keeps_the_vertex_count_and_the_indices_in_bounds() {
    let parts = [one_voxel(1, 2, 3), MeshData::new(), one_voxel(0, 0, 0), one_voxel(15, 15, 15)];
    let all = combine_meshes(&parts);
    let vertices: usize = parts.iter().map(|m| m.positions.len()).sum();
    let indices: usize = parts.iter().map(|m| m.indices.len()).sum();
    assert_eq!(all.positions.len(), vertices);
    assert_eq!(all.normals.len(), vertices);
    assert_eq!(all.uvs.len(), vertices);
    assert_eq!(all.indices.len(), indices);
    assert_eq!(all.vertex_count(), 72);
    assert_eq!(all.triangle_count(), 36);
    for &i in &all.indices {
        assert!((i as usize) < all.positions.len());
    }
    // every triangle keeps its vertices
    let mut offset = 0;
    let mut at = 0;
    for part in &parts {
        for &i in &part.indices {
            assert_eq!(all.positions[all.indices[at] as usize], part.positions[i as usize]);
            assert_eq!(all.indices[at] as usize, i as usize + offset);
            at += 1;
        }
        offset += part.positions.len();
    }
}

#[test]
fn welding_a_cube_leaves_its_eight_corners() {
    let cube = one_voxel(3, 4, 5);
    let welded = merge_vertex(&cube, 1);
    assert_eq!(welded.positions.len(), 8);
    assert_eq!(welded.normals.len(), 8);
    assert_eq!(welded.uvs.len(), 8);
    assert!(welded.is_well_formed());
    assert_eq!(welded.indices.len(), cube.indices.len());
    for k in 0..cube.indices.len() {
        assert_eq!(
            welded.positions[welded.indices[k] as usize],
            cube.positions[cube.indices[k] as usize]
        );
    }
    // the kept vertices are the first of their place, in their order
    assert_eq!(&welded.positions[0..4], &cube.positions[0..4]);
    assert_eq!(&welded.normals[0..4], &cube.normals[0..4]);
    assert_eq!(&welded.uvs[0..4], &cube.uvs[0..4]);
    assert_eq!(&welded.indices[0..6], &[0, 1, 2, 2, 3, 0]);
}

#[test]
fn welding_with_threshold_zero_keeps_every_vertex() {
    let cube = one_voxel(0, 0, 0);
    let welded = merge_vertex(&cube, 0);
    assert_eq!(welded.positions, cube.positions);
    assert_eq!(welded.normals, cube.normals);
    assert_eq!(welded.uvs, cube.uvs);
    assert_eq!(welded.indices, cube.indices);
}

#[test]
fn welding_a_mesh_with_nothing_to_weld_changes_nothing() {
    let mut mesh = MeshData::new();
    add_face(&mut mesh, FaceDirection::Top, v(0, 0, 0), v(3, 1, 3));
    add_face(&mut mesh, FaceDirection::Top, v(10, 0, 0), v(3, 1, 3));
    // the nearest vertices are three apart
    for threshold in [1, 2, 3] {
        let welded = merge_vertex(&mesh, threshold);
        assert_eq!(welded.positions, mesh.positions);
        assert_eq!(welded.normals, mesh.normals);
        assert_eq!(welded.uvs, mesh.uvs);
        assert_eq!(welded.indices, mesh.indices);
    }
    assert_eq!(merge_vertex(&mesh, 4).positions.len(), 4);
    assert_eq!(merge_vertex(&mesh, 5).positions.len(), 2);
    let empty = merge_vertex(&MeshData::new(), 5);
    assert!(empty.positions.is_empty() && empty.indices.is_empty() && empty.uvs.is_empty());
}

#[test]
fn welding_joins_vertices_that_are_closer_than_the_threshold() {
    let mut mesh = MeshData::new();
    mesh.positions = vec![v(0, 0, 0), v(1, 0, 0), v(0, 2, 0), v(3, 0, 0), v(1, 1, 1)];
    mesh.normals = vec![v(0, 1, 0), v(1, 0, 0), v(0, 0, 1), v(-1, 0, 0), v(0, -1, 0)];
    mesh.uvs = vec![
        Vec2i { x: 0, y: 0 },
        Vec2i { x: 1, y: 0 },
        Vec2i { x: 0, y: 1 },
        Vec2i { x: 1, y: 1 },
        Vec2i { x: 0, y: 0 },
    ];
    mesh.indices = vec![0, 1, 2, 2, 3, 4];
    // distances from the first vertex: 1, 2, 3 and the root of 3
    let welded = merge_vertex(&mesh, 2);
    assert_eq!(welded.positions, vec![v(0, 0, 0), v(0, 2, 0), v(3, 0, 0)]);
    assert_eq!(welded.normals, vec![v(0, 1, 0), v(0, 0, 1), v(-1, 0, 0)]);
    assert_eq!(
        welded.uvs,
        vec![Vec2i { x: 0, y: 0 }, Vec2i { x: 0, y: 1 }, Vec2i { x: 1, y: 1 }]
    );
    assert_eq!(welded.indices, vec![0, 0, 1, 1, 2, 0]);
    let welded = merge_vertex(&mesh, 3);
    assert_eq!(welded.positions, vec![v(0, 0, 0), v(3, 0, 0)]);
    assert_eq!(welded.uvs, vec![Vec2i { x: 0, y: 0 }, Vec2i { x: 1, y: 1 }]);
    assert_eq!(welded.indices, vec![0, 0, 0, 0, 1, 0]);
    let welded = merge_vertex(&mesh, 4);
    assert_eq!(welded.positions, vec![v(0, 0, 0)]);
    assert_eq!(welded.indices, vec![0; 6]);
}

#[test]
fn welding_points_far_apart() {
    let mut mesh = MeshData::new();
    mesh.positions = vec![v(i64::MIN, 0, 0), v(i64::MAX, 0, 0), v(i64::MIN, 0, 1)];
    mesh.normals = vec![v(0, 1, 0); 3];
    mesh.uvs = vec![Vec2i { x: 0, y: 0 }; 3];
    mesh.indices = vec![0, 1, 2];
    let welded = merge_vertex(&mesh, u64::MAX);
    assert_eq!(welded.positions, vec![v(i64::MIN, 0, 0), v(i64::MAX, 0, 0)]);
    assert_eq!(welded.indices, vec![0, 1, 0]);
    let welded = merge_vertex(&mesh, 1);
    assert_eq!(welded.positions, mesh.positions);
}

#[test]
fn meshes_of_chunks_are_well_formed() {
    assert!(MeshData::new().is_well_formed());
    assert!(one_voxel(1, 1, 1).is_well_formed());
    let parts = [one_voxel(1, 2, 3), one_voxel(4, 5, 6)];
    assert!(combine_meshes(&parts).is_well_formed());
}

#[test]
fn mesh_with_buffers_that_disagree_is_not_well_formed() {
    let mut index_out_of_bounds = one_voxel(0, 0, 0);
    index_out_of_bounds.indices[35] = 24;
    assert!(!index_out_of_bounds.is_well_formed());
    let mut half_a_triangle = one_voxel(0, 0, 0);
    half_a_triangle.indices.pop();
    assert!(!half_a_triangle.is_well_formed());
    let mut normal_missing = one_voxel(0, 0, 0);
    normal_missing.normals.pop();
    assert!(!normal_missing.is_well_formed());
    let mut corner_missing = one_voxel(0, 0, 0);
    corner_missing.uvs.clear();
    assert!(!corner_missing.is_well_formed());
}

#[test]
fn meshes_can_be_combined_while_their_indices_fit() {
    assert!(can_combine(&[]));
    assert!(can_combine(&[one_voxel(0, 0, 0), one_voxel(1, 1, 1)]));
    let mut wide = MeshData::new();
    wide.indices = vec![u32::MAX, 0, 1];
    assert!(can_combine(&[wide.clone()]));
    assert!(can_combine(&[wide.clone(), one_voxel(0, 0, 0)]));
    assert!(!can_combine(&[one_voxel(0, 0, 0), wide.clone()]));
    let mut edge = MeshData::new();
    edge.indices = vec![u32::MAX - 24];
    assert!(can_combine(&[one_voxel(0, 0, 0), edge.clone()]));
    assert!(!can_combine(&[one_voxel(0, 0, 0), MeshData::new(), one_voxel(0, 0, 0), edge]));
    let joined = combine_meshes(&[wide, one_voxel(0, 0, 0)]);
    assert_eq!(joined.indices[0], u32::MAX);
    assert_eq!(&joined.indices[3..9], &[0, 1, 2, 2, 3, 0]);
}
