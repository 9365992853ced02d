//! A 2D rigid-body simulation over axis-aligned boxes, coupled to a sparse,
//! chunked tile world whose cells own static collision geometry.
//!
//! All geometry is fixed point: one world unit is `SCALE` ticks, times are in
//! milliseconds.
pub mod fixed;
pub mod body;
pub mod sim;
pub mod world;
pub mod utils;
pub mod packets;

pub use fixed::{Vec2, SCALE, COORD_LIMIT};
pub use body::{RigidBody, Axis, Rect, MAX_WEIGHT, GRAVITY, DECAY_DIVISOR};
pub use sim::{BodyHandle, BodyArena, CollisionDebugDraw, shared, step_rb_sim};
pub use world::{CellType, Cell, Chunk, ChunkView, Tilemap, to_chunk_coords, mesh_indices, CHUNK_SIZE, CELLS_PER_CHUNK, TILE_INSET, TILE_SIZE, CELL_LIMIT};
pub use utils::mostly_eq;
pub use packets::{PacketType, HeaderError, PacketHeader, decode_header};
