//! An engine for the disk-flipping game played on an 8x8 board: a bitboard
//! position with move generation, static evaluators, a transposition table,
//! and game-tree searches for the middle game and the endgame.

pub mod bits;
pub mod board;
pub mod ml;
pub mod search;
