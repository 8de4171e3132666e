//! Core rules of a voxel building game: block kinds and textures, chunk storage and
//! coordinates, the world save, block edits, chunk streaming, the network
//! protocol's framing and the login challenge.
use vstd::prelude::*;

pub mod auth;
pub mod blocks;
pub mod pos;
pub mod posmap;
pub mod chunk;
pub mod client;
pub mod hotbar;
pub mod codec;
pub mod components;
pub mod save;
pub mod server;
pub mod block_update;
pub mod request;
pub mod protocol;

verus! {

/// Edge length of a chunk, in blocks.
pub const CHUNK_DIM: u32 = 16;

/// Horizontal distance, in chunks, that a client keeps around the player.
pub const RENDER_DISTANCE: i16 = 1;

/// Vertical distance, in chunks, that a client keeps around the player.
pub const VERTICAL_RENDER_DISTANCE: i16 = 1;

/// Largest number of chunks that one chunk request asks for.
pub const REQUEST_LIMIT: usize = 64;

/// Milliseconds that a freshly loaded chunk takes to rise into place.
pub const CHUNK_ANIMATION_DURATION: u64 = 350;

} // verus!
