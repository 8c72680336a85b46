//! The board: squares, moves, positions.

use vstd::prelude::*;
use vstd::string::*;
use vstd::std_specs::bits::{u64_leading_zeros, axiom_u64_leading_zeros};
use crate::bits::{popcount, lemma_popcount_le_64, lemma_mask_basics};
use crate::board::bitboard::{
    FIRST_SQUARE, square_mask, all_moves_spec, flip_spec, all_moves, get_flip,
};

pub mod bitboard;
pub mod lines;
pub mod movelist;
pub mod order;
pub mod perft;
pub mod rules;
pub mod text;

verus! {

/// The index of the file that the letter `c` names.
pub open spec fn file_index(c: char) -> Option<u8> {
    if c == 'a' || c == 'A' {
        Some(0u8)
    } else if c == 'b' || c == 'B' {
        Some(1u8)
    } else if c == 'c' || c == 'C' {
        Some(2u8)
    } else if c == 'd' || c == 'D' {
        Some(3u8)
    } else if c == 'e' || c == 'E' {
        Some(4u8)
    } else if c == 'f' || c == 'F' {
        Some(5u8)
    } else if c == 'g' || c == 'G' {
        Some(6u8)
    } else if c == 'h' || c == 'H' {
        Some(7u8)
    } else {
        None
    }
}

/// The index of the rank that the digit `c` names.
pub open spec fn rank_index(c: char) -> Option<u8> {
    if c == '1' {
        Some(0u8)
    } else if c == '2' {
        Some(1u8)
    } else if c == '3' {
        Some(2u8)
    } else if c == '4' {
        Some(3u8)
    } else if c == '5' {
        Some(4u8)
    } else if c == '6' {
        Some(5u8)
    } else if c == '7' {
        Some(6u8)
    } else if c == '8' {
        Some(7u8)
    } else {
        None
    }
}

/// The square that a coordinate names: a file letter, then a rank digit.
/// What follows the first two characters is not read.
pub open spec fn parse_coord(coord: Seq<char>) -> Option<u8> {
    if coord.len() < 2 {
        None
    } else {
        match (file_index(coord[0]), rank_index(coord[1])) {
            (Some(file), Some(rank)) => Some((file + 8 * rank) as u8),
            _ => None,
        }
    }
}

/// The letter of the file with index `file`.
pub open spec fn file_char(file: u8) -> char {
    if file == 0 {
        'a'
    } else if file == 1 {
        'b'
    } else if file == 2 {
        'c'
    } else if file == 3 {
        'd'
    } else if file == 4 {
        'e'
    } else if file == 5 {
        'f'
    } else if file == 6 {
        'g'
    } else {
        'h'
    }
}

/// The digit of the rank with index `rank`.
pub open spec fn rank_char(rank: u8) -> char {
    if rank == 0 {
        '1'
    } else if rank == 1 {
        '2'
    } else if rank == 2 {
        '3'
    } else if rank == 3 {
        '4'
    } else if rank == 4 {
        '5'
    } else if rank == 5 {
        '6'
    } else if rank == 6 {
        '7'
    } else {
        '8'
    }
}

/// Reads the letter of a file.
fn parse_file(c: char) -> (r: Option<u8>)
    ensures
        r == file_index(c),
{
    if c == 'a' || c == 'A' {
        Some(0)
    } else if c == 'b' || c == 'B' {
        Some(1)
    } else if c == 'c' || c == 'C' {
        Some(2)
    } else if c == 'd' || c == 'D' {
        Some(3)
    } else if c == 'e' || c == 'E' {
        Some(4)
    } else if c == 'f' || c == 'F' {
        Some(5)
    } else if c == 'g' || c == 'G' {
        Some(6)
    } else if c == 'h' || c == 'H' {
        Some(7)
    } else {
        None
    }
}

/// Reads the digit of a rank.
fn parse_rank(c: char) -> (r: Option<u8>)
    ensures
        r == rank_index(c),
{
    if c == '1' {
        Some(0)
    } else if c == '2' {
        Some(1)
    } else if c == '3' {
        Some(2)
    } else if c == '4' {
        Some(3)
    } else if c == '5' {
        Some(4)
    } else if c == '6' {
        Some(5)
    } else if c == '7' {
        Some(6)
    } else if c == '8' {
        Some(7)
    } else {
        None
    }
}

/// Reads the square that a coordinate names.
fn parse_square(coord: &str) -> (r: Option<u8>)
    ensures
        r == parse_coord(coord@),
        r matches Some(square) ==> square < 64,
{
    if coord.unicode_len() < 2 {
        return None;
    }
    match (parse_file(coord.get_char(0)), parse_rank(coord.get_char(1))) {
        (Some(file), Some(rank)) => Some(file + 8 * rank),
        _ => None,
    }
}

/// Generates the mask of the square that the coordinate names, or `None` if
/// it names no square.
pub fn coord_to_bitmask(coord: String) -> (r: Option<u64>)
    ensures
        r == match parse_coord(coord@) {
            Some(square) => Some(square_mask(square as u64)),
            None => None,
        },
{
    match parse_square(coord.as_str()) {
        Some(square) => Some(FIRST_SQUARE >> square),
        None => None,
    }
}

/// A move: a disk placed on a square, or a pass.
#[derive(Clone, Copy, PartialEq, Eq, Debug, Hash, Structural)]
pub enum Move {
    Play(u8),
    Pass,
}

impl Move {
    /// A play names one of the 64 squares.
    pub open spec fn wf(self) -> bool {
        match self {
            Move::Play(square) => square < 64,
            Move::Pass => true,
        }
    }

    /// The move as text: the file letter and the rank digit of a play,
    /// `PASS` for a pass.
    pub open spec fn coord_spec(self) -> Seq<char> {
        match self {
            Move::Play(square) => seq![file_char(square % 8), rank_char(square / 8)],
            Move::Pass => seq!['P', 'A', 'S', 'S'],
        }
    }

    /// The move that a coordinate names: a play if it names a square, a pass
    /// otherwise.
    pub open spec fn from_coord_spec(coord: Seq<char>) -> Move {
        match parse_coord(coord) {
            Some(square) => Move::Play(square),
            None => Move::Pass,
        }
    }

    /// Reads a move from a coordinate such as `d3`. A coordinate that names
    /// no square gives a pass.
    pub fn from_coord(coord: String) -> (r: Move)
        ensures
            r == Move::from_coord_spec(coord@),
            r.wf(),
    {
        match parse_square(coord.as_str()) {
            Some(square) => Move::Play(square),
            None => Move::Pass,
        }
    }

    /// Writes the move as text: the lower-case file letter and the rank
    /// digit of a play, `PASS` for a pass.
    pub fn to_string(&self) -> (r: String)
        requires
            self.wf(),
        ensures
            r@ == self.coord_spec(),
    {
        match *self {
            Move::Play(square) => {
                let file: u8 = square % 8;
                let rank: u8 = square / 8;
                let mut text = String::new();
                text.append(file_text(file));
                text.append(rank_text(rank));
                text
            },
            Move::Pass => {
                proof {
                    reveal_strlit("PASS");
                }
                assert("PASS"@ =~= seq!['P', 'A', 'S', 'S']);
                String::from_str("PASS")
            },
        }
    }
}

/// The letter of a file as text.
fn file_text(file: u8) -> (r: &'static str)
    requires
        file < 8,
    ensures
        r@ == seq![file_char(file)],
{
    proof {
        reveal_strlit("a");
        reveal_strlit("b");
        reveal_strlit("c");
        reveal_strlit("d");
        reveal_strlit("e");
        reveal_strlit("f");
        reveal_strlit("g");
        reveal_strlit("h");
    }
    let text = if file == 0 {
        "a"
    } else if file == 1 {
        "b"
    } else if file == 2 {
        "c"
    } else if file == 3 {
        "d"
    } else if file == 4 {
        "e"
    } else if file == 5 {
        "f"
    } else if file == 6 {
        "g"
    } else {
        "h"
    };
    assert(text@ =~= seq![file_char(file)]);
    text
}

/// The digit of a rank as text.
fn rank_text(rank: u8) -> (r: &'static str)
    requires
        rank < 8,
    ensures
        r@ == seq![rank_char(rank)],
{
    proof {
        reveal_strlit("1");
        reveal_strlit("2");
        reveal_strlit("3");
        reveal_strlit("4");
        reveal_strlit("5");
        reveal_strlit("6");
        reveal_strlit("7");
        reveal_strlit("8");
    }
    let text = if rank == 0 {
        "1"
    } else if rank == 1 {
        "2"
    } else if rank == 2 {
        "3"
    } else if rank == 3 {
        "4"
    } else if rank == 4 {
        "5"
    } else if rank == 5 {
        "6"
    } else if rank == 6 {
        "7"
    } else {
        "8"
    };
    assert(text@ =~= seq![rank_char(rank)]);
    text
}

/// Reading back the text of a play gives the play.
pub proof fn lemma_coord_round_trip(square: u8)
    requires
        square < 64,
    ensures
        Move::from_coord_spec(Move::Play(square).coord_spec()) == Move::Play(square),
{
    let text = Move::Play(square).coord_spec();
    assert(text.len() == 2);
    assert(text[0] == file_char(square % 8));
    assert(text[1] == rank_char(square / 8));
    assert(file_index(file_char(square % 8)) == Some((square % 8) as u8));
    assert(rank_index(rank_char(square / 8)) == Some((square / 8) as u8));
}

/// Whether `mask` holds the square `square`.
pub open spec fn mask_has(mask: u64, square: int) -> bool {
    0 <= square < 64 && mask & square_mask(square as u64) != 0
}

/// The plays on the squares of `mask` below `n`, in the order of the squares.
pub open spec fn plays_upto(mask: u64, n: int) -> Seq<Move>
    decreases n,
{
    if n <= 0 {
        Seq::empty()
    } else if mask_has(mask, n - 1) {
        plays_upto(mask, n - 1).push(Move::Play((n - 1) as u8))
    } else {
        plays_upto(mask, n - 1)
    }
}

/// The moves that a mask of squares stands for: the plays on its squares in
/// the order of the squares, or a single pass if it is empty.
pub open spec fn moves_of_mask(mask: u64) -> Seq<Move> {
    if mask == 0 {
        seq![Move::Pass]
    } else {
        plays_upto(mask, 64)
    }
}

/// Lists the moves that a mask of squares stands for: the plays on its
/// squares in the order of the squares, or a single pass if it is empty.
pub fn list_moves(all_moves: u64) -> (r: Vec<Move>)
    ensures
        r@ == moves_of_mask(all_moves),
{
    let mut moves: Vec<Move> = Vec::with_capacity(all_moves.count_ones() as usize);

    if all_moves == 0 {
        moves.push(Move::Pass);
        assert(moves@ =~= seq![Move::Pass]);
    } else {
        let mut rest: u64 = all_moves;
        let ghost mut done: int = 0;
        while rest != 0
            invariant
                0 <= done <= 64,
                moves@ == plays_upto(all_moves, done),
                forall|s: int|
                    0 <= s < 64 ==> (#[trigger] mask_has(rest, s) <==> s >= done && mask_has(
                        all_moves,
                        s,
                    )),
            decreases 64 - done,
        {
            let index: u64 = rest.leading_zeros() as u64;
            let next: u64 = rest ^ (FIRST_SQUARE >> index);
            proof {
                lemma_first_square(rest);
                assert forall|s: int| done <= s < index implies !mask_has(all_moves, s) by {
                    assert(!mask_has(rest, s));
                }
                lemma_plays_skip(all_moves, done, index as int);
                assert forall|s: int| 0 <= s < 64 implies (#[trigger] mask_has(next, s) <==> s
                    >= index + 1 && mask_has(all_moves, s)) by {
                    lemma_clear_square(rest, index, s as u64);
                    if s < index {
                        assert(!mask_has(rest, s));
                    }
                }
                done = index + 1;
            }
            moves.push(Move::Play(index as u8));
            rest = next;
        }
        proof {
            assert forall|s: int| done <= s < 64 implies !mask_has(all_moves, s) by {
                lemma_mask_basics(square_mask(s as u64), 0);
                assert(!mask_has(rest, s));
            }
            lemma_plays_skip(all_moves, done, 64);
        }
    }

    moves
}

/// A position: the disks of both sides and the side to move.
#[derive(Clone, Copy, PartialEq, Eq, Debug, Structural)]
pub struct Board {
    pub white_disks: u64,
    pub black_disks: u64,
    pub black_move: bool,
}

impl Board {
    /// No square holds a disk of both sides.
    pub open spec fn valid(self) -> bool {
        self.black_disks & self.white_disks == 0
    }

    /// The disks of the side to move.
    pub open spec fn player_disks(self) -> u64 {
        if self.black_move {
            self.black_disks
        } else {
            self.white_disks
        }
    }

    /// The disks of the side that is not to move.
    pub open spec fn opponent_disks(self) -> u64 {
        if self.black_move {
            self.white_disks
        } else {
            self.black_disks
        }
    }

    /// The squares on which black may place a disk.
    pub open spec fn black_moves(self) -> u64 {
        all_moves_spec(self.black_disks, self.white_disks)
    }

    /// The squares on which white may place a disk.
    pub open spec fn white_moves(self) -> u64 {
        all_moves_spec(self.white_disks, self.black_disks)
    }

    /// The squares on which the side to move may place a disk.
    pub open spec fn moves_mask(self) -> u64 {
        if self.black_move {
            self.black_moves()
        } else {
            self.white_moves()
        }
    }

    /// Whether `m` is a move of the side to move: a play on one of its
    /// squares, or a pass when it has none.
    pub open spec fn is_legal(self, m: Move) -> bool {
        match m {
            Move::Play(square) => mask_has(self.moves_mask(), square as int),
            Move::Pass => self.moves_mask() == 0,
        }
    }

    /// The moves of the side to move: its plays in the order of the squares,
    /// or a single pass if it has none.
    pub open spec fn legal_moves(self) -> Seq<Move> {
        moves_of_mask(self.moves_mask())
    }

    /// What `make_move` returns for `m`: the disks that the move turns over
    /// together with the disk it places, nothing for a pass.
    pub open spec fn undo_token(self, m: Move) -> u64 {
        match m {
            Move::Play(square) => flip_spec(square, self.player_disks(), self.opponent_disks())
                ^ square_mask(square as u64),
            Move::Pass => 0,
        }
    }

    /// The position after the side to move has made the move `m`.
    pub open spec fn apply(self, m: Move) -> Board {
        match m {
            Move::Play(square) => {
                let flood = flip_spec(square, self.player_disks(), self.opponent_disks());
                let disk = square_mask(square as u64);
                if self.black_move {
                    Board {
                        white_disks: self.white_disks ^ flood,
                        black_disks: self.black_disks ^ flood ^ disk,
                        black_move: false,
                    }
                } else {
                    Board {
                        white_disks: self.white_disks ^ flood ^ disk,
                        black_disks: self.black_disks ^ flood,
                        black_move: true,
                    }
                }
            },
            Move::Pass => Board {
                white_disks: self.white_disks,
                black_disks: self.black_disks,
                black_move: !self.black_move,
            },
        }
    }

    /// The position before the move `m`, from the position after it and
    /// what `make_move` returned.
    pub open spec fn revert(self, undo: u64, m: Move) -> Board {
        match m {
            Move::Play(square) => {
                let disk = square_mask(square as u64);
                if self.black_move {
                    Board {
                        white_disks: self.white_disks ^ undo,
                        black_disks: (self.black_disks ^ undo) & !disk,
                        black_move: false,
                    }
                } else {
                    Board {
                        white_disks: (self.white_disks ^ undo) & !disk,
                        black_disks: self.black_disks ^ undo,
                        black_move: true,
                    }
                }
            },
            Move::Pass => Board {
                white_disks: self.white_disks,
                black_disks: self.black_disks,
                black_move: !self.black_move,
            },
        }
    }

    /// Neither side can move, or one side has no disk.
    pub open spec fn game_over(self) -> bool {
        self.black_disks == 0 || self.white_disks == 0 || (self.white_moves() | self.black_moves())
            == 0
    }

    /// The number of squares without a disk.
    pub open spec fn empties(self) -> int {
        64 - popcount(self.white_disks | self.black_disks)
    }

    /// The number of black disks minus the number of white disks.
    pub open spec fn disk_difference(self) -> int {
        popcount(self.black_disks) - popcount(self.white_disks)
    }

    /// Creates a board in the starting position, with white disks on d4 and
    /// e5, black disks on e4 and d5, and black to move.
    pub fn new() -> (r: Board)
        ensures
            r.black_disks == 0x00_00_00_08_10_00_00_00,
            r.white_disks == 0x00_00_00_10_08_00_00_00,
            r.black_move,
            r.valid(),
    {
        assert(0x00_00_00_08_10_00_00_00u64 & 0x00_00_00_10_08_00_00_00u64 == 0) by (bit_vector);
        Board {
            white_disks: 0x00_00_00_10_08_00_00_00,
            black_disks: 0x00_00_00_08_10_00_00_00,
            black_move: true,
        }
    }

    /// Creates a board from the disks of both sides and the side to move.
    pub fn from_pos(black_disks: u64, white_disks: u64, black_move: bool) -> (r: Board)
        ensures
            r == (Board { white_disks, black_disks, black_move }),
    {
        Board { white_disks, black_disks, black_move }
    }

    /// Generates the moves that black can make in the current position, as
    /// a mask of squares.
    pub fn get_black_moves(&self) -> (r: u64)
        ensures
            r == self.black_moves(),
    {
        all_moves(self.black_disks, self.white_disks)
    }

    /// Generates the moves that white can make in the current position, as
    /// a mask of squares.
    pub fn get_white_moves(&self) -> (r: u64)
        ensures
            r == self.white_moves(),
    {
        all_moves(self.white_disks, self.black_disks)
    }

    /// Generates the moves that the side to move can make, as a mask of
    /// squares.
    fn mover_moves(&self) -> (r: u64)
        ensures
            r == self.moves_mask(),
    {
        if self.black_move {
            self.get_black_moves()
        } else {
            self.get_white_moves()
        }
    }

    /// Generates the moves that the side to move can make: its plays in the
    /// order of the squares, or a single pass if it has none.
    pub fn get_moves(&self) -> (r: Vec<Move>)
        ensures
            r@ == self.legal_moves(),
            r.len() >= 1,
            forall|m: Move| r@.contains(m) <==> self.is_legal(m),
            self.moves_mask() != 0 ==> !r@.contains(Move::Pass),
    {
        proof {
            assert forall|m: Move| self.legal_moves().contains(m) <==> self.is_legal(m) by {
                crate::board::rules::lemma_legal_moves_members(*self, m);
            }
            crate::board::rules::lemma_legal_moves_members(*self, Move::Pass);
        }
        list_moves(self.mover_moves())
    }

    /// Counts the moves that the side to move can make.
    pub fn move_count(&self) -> (r: u32)
        ensures
            r == popcount(self.moves_mask()),
    {
        self.mover_moves().count_ones()
    }

    /// Counts the moves that the other side can make once the side to move
    /// has made the move `move_option`. The board is left as it is.
    pub fn move_count_after(&self, move_option: Move) -> (r: u32)
        requires
            move_option.wf(),
        ensures
            r == popcount(self.apply(move_option).moves_mask()),
    {
        let mut next: Board = *self;
        let _ = next.make_move(move_option);
        next.move_count()
    }

    /// Determines whether either side can make a move.
    pub fn moves_exist(&self) -> (r: bool)
        ensures
            r == ((self.white_moves() | self.black_moves()) != 0),
    {
        (self.get_white_moves() | self.get_black_moves()) != 0
    }

    /// Makes a move for the side to move, and returns what `undo_move` needs
    /// to take it back. Does not check that the move is one of `get_moves`.
    pub fn make_move(&mut self, move_option: Move) -> (r: u64)
        requires
            move_option.wf(),
        ensures
            *final(self) == old(self).apply(move_option),
            r == old(self).undo_token(move_option),
            old(self).is_legal(move_option) ==> final(self).revert(r, move_option) == *old(self),
            old(self).valid() && old(self).is_legal(move_option) ==> final(self).valid(),
    {
        proof {
            if self.is_legal(move_option) {
                crate::board::rules::lemma_apply_revert(*self, move_option);
                if self.valid() {
                    crate::board::rules::lemma_apply_valid(*self, move_option);
                }
            }
        }
        match move_option {
            Move::Play(m) => {
                let disk: u64 = FIRST_SQUARE >> m;

                let flood: u64 = if self.black_move {
                    get_flip(m, self.black_disks, self.white_disks)
                } else {
                    get_flip(m, self.white_disks, self.black_disks)
                };

                self.white_disks ^= flood;
                self.black_disks ^= flood;
                if self.black_move {
                    self.black_disks ^= disk;
                } else {
                    self.white_disks ^= disk;
                }

                self.black_move = !self.black_move;

                flood ^ disk
            },
            Move::Pass => {
                self.black_move = !self.black_move;
                0
            },
        }
    }

    /// Takes back the move `move_option`, given what `make_move` returned
    /// for it.
    pub fn undo_move(&mut self, undo: u64, move_option: Move)
        requires
            move_option.wf(),
        ensures
            *final(self) == old(self).revert(undo, move_option),
    {
        match move_option {
            Move::Play(m) => {
                self.white_disks ^= undo;
                self.black_disks ^= undo;
                self.black_move = !self.black_move;

                let disk: u64 = FIRST_SQUARE >> m;
                if self.black_move {
                    self.white_disks &= !disk;
                } else {
                    self.black_disks &= !disk;
                }
            },
            Move::Pass => {
                self.black_move = !self.black_move;
            },
        }
    }

    /// Returns a mask of all the disks on the board.
    pub fn all_disks(&self) -> (r: u64)
        ensures
            r == self.white_disks | self.black_disks,
    {
        self.white_disks | self.black_disks
    }

    /// Checks whether the game is over: neither side can move, or one side
    /// has no disk.
    pub fn is_game_over(&self) -> (r: bool)
        ensures
            r == self.game_over(),
    {
        self.black_disks == 0 || self.white_disks == 0 || !self.moves_exist()
    }

    /// Returns the number of black disks minus the number of white disks.
    pub fn get_score(&self) -> (r: i32)
        ensures
            r == self.disk_difference(),
            -64 <= r <= 64,
    {
        proof {
            lemma_popcount_le_64(self.black_disks);
            lemma_popcount_le_64(self.white_disks);
        }
        self.black_disks.count_ones() as i32 - self.white_disks.count_ones() as i32
    }
}

/// A mask holds a square where the bit of the square is set.
proof fn lemma_square_bits(x: u64, s: u64)
    by (bit_vector)
    requires
        s < 64,
    ensures
        (x & (0x8000_0000_0000_0000u64 >> s) != 0) <==> ((x >> ((63 - s) as u64)) & 1 != 0),
{
}

/// Clearing a set bit of a mask leaves the other bits as they were.
proof fn lemma_clear_bit(x: u64, i: u64, s: u64)
    by (bit_vector)
    requires
        i < 64,
        s < 64,
        x & (0x8000_0000_0000_0000u64 >> i) != 0,
    ensures
        ((x ^ (0x8000_0000_0000_0000u64 >> i)) & (0x8000_0000_0000_0000u64 >> s) != 0) <==> (x & (
            0x8000_0000_0000_0000u64 >> s) != 0 && s != i),
{
}

/// The first square of a mask that is not empty: its index is the number
/// of leading zeros.
proof fn lemma_first_square(x: u64)
    requires
        x != 0,
    ensures
        0 <= u64_leading_zeros(x) < 64,
        mask_has(x, u64_leading_zeros(x)),
        forall|s: int| 0 <= s < u64_leading_zeros(x) ==> !mask_has(x, s),
{
    axiom_u64_leading_zeros(x);
    let index = u64_leading_zeros(x);
    lemma_square_bits(x, index as u64);
    assert forall|s: int| 0 <= s < index implies !mask_has(x, s) by {
        lemma_square_bits(x, s as u64);
        let j = (63 - s) as u64;
        assert((x >> j) & 1u64 == 0u64);
    }
}

/// Taking a square out of a mask leaves the other squares as they were.
proof fn lemma_clear_square(x: u64, i: u64, s: u64)
    requires
        i < 64,
        s < 64,
        mask_has(x, i as int),
    ensures
        mask_has(x ^ (FIRST_SQUARE >> i), s as int) <==> mask_has(x, s as int) && s != i,
{
    lemma_clear_bit(x, i, s);
}

/// Squares that a mask does not hold add no plays.
proof fn lemma_plays_skip(mask: u64, from: int, to: int)
    requires
        0 <= from <= to <= 64,
        forall|s: int| from <= s < to ==> !mask_has(mask, s),
    ensures
        plays_upto(mask, to) == plays_upto(mask, from),
    decreases to - from,
{
    if from < to {
        lemma_plays_skip(mask, from, to - 1);
    }
}

} // verus!
