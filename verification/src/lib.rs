//! Chunk streaming and meshing core of a sparse voxel world.
//!
//! The world is an unbounded grid of fixed-size cubic chunks of typed
//! blocks. This crate owns the coordinate algebra between chunk ids,
//! chunk-local block offsets and global block positions, the per-chunk
//! block storage with its build-status machine, the bounded load area
//! around a moving observer, the visible-face mesh extraction, and the
//! manager that schedules generation and meshing work per tick.

pub mod area;
pub mod block;
pub mod chunk;
pub mod chunk_map;
pub mod coord;
pub mod direction;
pub mod manager;
pub mod mesh;

pub use area::LoadArea;
pub use block::Block;
pub use chunk::{LogicChunk, TerrainStatus};
pub use chunk_map::ChunkMap;
pub use coord::{BlockCoord, ChunkCoord, ChunkId, GlobalCoord};
pub use direction::Direction;
pub use manager::{ChunkManager, MaintainActions, MeshJob, TerrainChunk};
pub use mesh::{TerrainMesh, Vertex, VertexPos};
