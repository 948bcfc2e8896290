use vstd::prelude::*;

verus! {

/// The width and height of a chunk, in tiles.
pub const CHUNK_SIZE: i32 = 32;

/// The width and height of a tile, in pixels.
pub const TILE_SIZE: u32 = 32;

} // verus!
