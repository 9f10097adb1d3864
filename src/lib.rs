//! A voxel world of cubic chunks: terrain filling, face-culled meshes with
//! per-corner ambient occlusion, and picking and editing of single voxels.
pub mod grid;
pub mod chunk;
pub mod world;
pub mod mesh;
pub mod picker;
pub mod voxel_handler;
pub mod session;
