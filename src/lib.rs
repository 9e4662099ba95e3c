//! Voxel terrain core: chunked block storage, column-based terrain fill,
//! face-culling mesh construction and observer-driven chunk streaming.

pub mod coord;
pub mod block;
pub mod chunk;
pub mod world;
pub mod mesh;
