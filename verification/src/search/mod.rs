//! Searching the game tree.

use vstd::prelude::*;

pub mod clock;
pub mod eval;
pub mod tree;
pub mod hashtable;
pub mod iterative;
pub mod last_square;
pub mod negamax;
pub mod bns;
pub mod endgame;
pub mod nm_new;

verus! {

/// What a search reports of itself: the nodes it visited, the milliseconds
/// it took, and the depth it reached.
#[derive(Clone, Copy, Debug)]
pub struct SearchData {
    pub nodes: u64,
    pub time: u32,
    pub depth: u8,
}

} // verus!
