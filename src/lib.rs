//! A match-three puzzle engine: board, matching, gravity, refill, the player's
//! swap protocol, game-over detection and the code-entry / playing session.

use vstd::prelude::*;

pub mod board;
pub mod code;
pub mod cursor;
pub mod game;
pub mod manager;
pub mod random;
pub mod session;

verus! {

/// Number of columns on the board.
pub const BOARD_WIDTH: usize = 8;

/// Number of rows on the board.
pub const BOARD_HEIGHT: usize = 8;

/// Number of distinct gem kinds; a cell holds `0` (empty) or `1..=GEM_COUNT`.
pub const GEM_COUNT: usize = 7;

} // verus!
