//! What self-play needs of the board: positions as plain data, and moves
//! chosen at random.

use vstd::prelude::*;
use rand::Rng;
use crate::board::{Board, Move};
use crate::board::rules::lemma_legal_moves_members;

verus! {

/// A position as plain data, as it is written to a file.
pub struct BoardState {
    pub black_disks: u64,
    pub white_disks: u64,
    pub black_move: bool,
}

impl BoardState {
    /// Copies the disks and the side to move of a board.
    pub fn from(b: &Board) -> (r: BoardState)
        ensures
            r.black_disks == b.black_disks,
            r.white_disks == b.white_disks,
            r.black_move == b.black_move,
    {
        BoardState {
            black_disks: b.black_disks,
            white_disks: b.white_disks,
            black_move: b.black_move,
        }
    }

    /// Makes a board of the disks and the side to move.
    pub fn to_board(&self) -> (r: Board)
        ensures
            r.black_disks == self.black_disks,
            r.white_disks == self.white_disks,
            r.black_move == self.black_move,
    {
        Board::from_pos(self.black_disks, self.white_disks, self.black_move)
    }
}

/// `rand::rngs::ThreadRng`, the random number generator of a thread. Nothing
/// is known of a value of it.
#[verifier::external_type_specification]
#[verifier::external_body]
pub struct ExThreadRng(rand::rngs::ThreadRng);

/// `rand::thread_rng` gives the random number generator of the thread.
/// Nothing is claimed of it.
#[verifier::external_body]
fn thread_generator() -> (r: rand::rngs::ThreadRng) {
    rand::thread_rng()
}

/// `Rng::gen` draws a random number of the machine's word size from the
/// generator. Nothing is claimed of the number.
#[verifier::external_body]
fn random_number(generator: &mut rand::rngs::ThreadRng) -> (r: usize) {
    generator.gen::<usize>()
}

/// Picks the move that the number `roll` selects: the move at the place
/// that is left when `roll` is divided by the number of moves.
pub fn pick_move(moves: &Vec<Move>, roll: usize) -> (r: Move)
    requires
        moves.len() > 0,
    ensures
        r == moves@[roll as int % moves.len() as int],
{
    moves[roll % moves.len()]
}

/// Chooses one of the moves of the side to move at random.
pub fn random_move(board: &Board) -> (r: Move)
    ensures
        board.is_legal(r),
{
    let moves: Vec<Move> = board.get_moves();
    proof {
        lemma_legal_moves_members(*board, Move::Pass);
    }
    let mut generator = thread_generator();
    let m: Move = pick_move(&moves, random_number(&mut generator));
    proof {
        assert(moves@.contains(m));
        lemma_legal_moves_members(*board, m);
    }
    m
}

} // verus!
