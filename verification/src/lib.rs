//! Engine of a voxel world: terrain chunks, their surface meshes, streaming
//! around an observer, queued edits and voxel ray traversal.

pub mod boxes;
pub mod chunk;
pub mod coords;
pub mod edit;
pub mod merge;
pub mod mesh;
pub mod queues;
pub mod ray_laws;
pub mod raycast;
pub mod remesh;
pub mod sequences;
pub mod streaming;
pub mod surface;
pub mod surface_laws;
pub mod weld;
pub mod world;

pub use chunk::ChunkData;
pub use coords::{
    get_chunk_index, pos_to_voxel, ChunkColumn, ChunkIndex, VoxelLocalIndex, VoxelPos,
    CHUNK_LIMIT_Y, CHUNK_SIZE, HEIGHT_LIMIT, INIT_WORLD_SIZE, WORLD_SIZE,
};
pub use edit::{handle_voxel_modify_queue, hit_voxel, VoxelAction};
pub use mesh::{add_face, can_combine, combine_meshes, FaceDirection, MeshData, Vec2i, Vec3i};
pub use queues::{ChunkMeshesUpdateQueue, VoxelModifyQueue};
pub use raycast::{get_intersected_voxels, traverse, RayPoint};
pub use remesh::{
    build_column_mesh, handle_chunk_meshes_update_queue, update_column_meshes, ColumnMesh,
    VoxelMeshes,
};
pub use streaming::{gen_chunks_data, initial_chunks, load_chunks_around, remove_chunk};
pub use surface::{default_mesh, greedy_meshing};
pub use weld::merge_vertex;
pub use world::VoxelData;
