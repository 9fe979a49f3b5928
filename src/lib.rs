//! Core of a voxel world: chunked block storage, terrain filling from a
//! heightfield, a chunk registry, and grid traversal of rays.

pub mod chunk;
pub mod terrain;
pub mod traverse;
pub mod world;

pub use chunk::{Chunk, CHUNK_SIZE, CHUNK_VOLUME};
pub use terrain::{fill_terrain, COLUMN_COUNT};
pub use traverse::{AxisStep, GridHit, GridRay, Normal, Voxel, MAX_GRID_T};
pub use world::{ChunkPos, World};
