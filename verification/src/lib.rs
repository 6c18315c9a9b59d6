//! Core simulation of a falling-block puzzle game: a 10 x 20 grid of cells,
//! one active falling piece, gravity, player movement, hard drops, piece
//! locking, line clearing and game-over detection.

use vstd::prelude::*;

pub mod block;
pub mod board;
pub mod engine;

verus! {

/// Number of columns of the board.
pub const WIDTH: i32 = 10;

/// Number of rows of the board.
pub const HEIGHT: i32 = 20;

/// Row whose occupation after a lock ends the game.
pub const CUTOFF: i32 = 1;

/// Column of the spawn origin of a fresh piece.
pub const SPAWN_X: i32 = 4;

/// Row of the spawn origin of a fresh piece.
pub const SPAWN_Y: i32 = 0;

} // verus!
