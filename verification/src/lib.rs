//! Core of a voxel world engine: a sparse, chunked 3-D block grid with
//! reference-counted loading, a greedy mesher that turns block data into
//! minimal textured quads, and the bookkeeping that reconciles background
//! generation and meshing jobs back into the shared world state.
//!
//! - [`coords`] — conversions between block, chunk and chunk-local
//!   coordinates, with floor division for negative coordinates.
//! - [`block`] — the closed set of block variants, the six cube faces and
//!   per-face occlusion corners.
//! - [`mesh`] — the integer quad geometry the mesher emits; the render sink
//!   turns it into float vertex buffers.
//! - [`chunk`] — dense per-chunk block storage, the per-slice scratch map,
//!   and the three-pass greedy mesher with its spec-level model.
//! - [`world`] — the chunk index with load counts, block access across
//!   chunks, plane construction for the mesher, and task bookkeeping.
//! - [`raycast`] — exact integer DDA voxel traversal.
//! - [`scheduler`] — task and job records, box enumeration, and the
//!   reconciliation rule for completed background work.
//! - [`player`] — player identity, position and render distance.
//! - [`worldgen`] — deterministic terrain classification from sampled
//!   per-column noise values.

pub mod block;
pub mod chunk;
pub mod coords;
pub mod mesh;
pub mod player;
pub mod raycast;
pub mod scheduler;
pub mod world;
pub mod worldgen;

pub use coords::{BlockPos, ChunkPos, CHUNK_SIZE};
