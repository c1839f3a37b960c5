use vstd::prelude::*;

verus! {

/// Pixel size of one square tile of the map grid.
pub const TILE_SIZE: i32 = 16;

/// Number of pixels a single `walk` step advances a player.
pub const PLAYER_MOVE: i32 = 8;

/// Player-footprint distance: the number of tiles a player occupies,
/// used as the step for edge and neighbor checks.
pub const TILE_PER_PLAYER: i32 = 2;

/// Upper bound on map width and height in tiles, so that the pixel
/// extent of a map always fits comfortably in `i32` arithmetic.
pub const MAX_DIM: usize = 0x0100_0000;

} // verus!
