//! Voxel chunk rendering core: greedy meshing of voxel grids into packed
//! quads, bump allocation of GPU buffer slots, indirect draw-command
//! encoding, and integer-model frustum culling with per-face batching.

pub mod allocator;
pub mod camera;
pub mod chunk;
pub mod direction;
pub mod frustum;
pub mod mesh;
pub mod world;
pub mod renderer;
