//! The board as text.

use vstd::prelude::*;
use vstd::string::*;
use crate::board::bitboard::FIRST_SQUARE;
use crate::board::{Board, mask_has, rank_char, rank_text};

verus! {

/// How a square is drawn on the board: a black disk, a white disk, or
/// nothing.
pub open spec fn disk_text(b: Board, square: int) -> Seq<char> {
    if mask_has(b.black_disks, square) {
        "●"@
    } else if mask_has(b.white_disks, square) {
        "○"@
    } else {
        " "@
    }
}

/// The first `files` squares of a rank of the board, each behind the bar
/// that opens it.
pub open spec fn rank_cells(b: Board, rank: int, files: int) -> Seq<char>
    decreases files,
{
    if files <= 0 {
        Seq::empty()
    } else {
        rank_cells(b, rank, files - 1) + (if files == 1 {
            " ║ "@
        } else {
            " │ "@
        }) + disk_text(b, rank * 8 + files - 1)
    }
}

/// A rank of the board with its number at both ends, and the line under it.
pub open spec fn rank_line(b: Board, rank: int) -> Seq<char> {
    seq![rank_char(rank as u8)] + rank_cells(b, rank, 8) + " ║ "@ + seq![rank_char(rank as u8)] + (
    if rank == 7 {
        "\n  ╚═══╧═══╧═══╧═══╧═══╧═══╧═══╧═══╝\n"@
    } else {
        "\n  ╟───┼───┼───┼───┼───┼───┼───┼───╢\n"@
    })
}

/// The first `ranks` ranks of the board.
pub open spec fn ranks_text(b: Board, ranks: int) -> Seq<char>
    decreases ranks,
{
    if ranks <= 0 {
        Seq::empty()
    } else {
        ranks_text(b, ranks - 1) + rank_line(b, ranks - 1)
    }
}

/// The board as a framed grid, rank 1 at the top, with `●` for a black disk
/// and `○` for a white one.
pub open spec fn display_text(b: Board) -> Seq<char> {
    "    A   B   C   D   E   F   G   H  \n"@ + "  ╔═══╤═══╤═══╤═══╤═══╤═══╤═══╤═══╗\n"@
        + ranks_text(b, 8) + "    A   B   C   D   E   F   G   H  "@
}

/// How a square is drawn in the grid of one colour: `#` for a disk of that
/// colour, `-` otherwise.
pub open spec fn mark_text(disks: u64, square: int) -> Seq<char> {
    if mask_has(disks, square) {
        " #"@
    } else {
        " -"@
    }
}

/// The first `files` squares of a rank in the grid of one colour.
pub open spec fn mark_cells(disks: u64, rank: int, files: int) -> Seq<char>
    decreases files,
{
    if files <= 0 {
        Seq::empty()
    } else {
        mark_cells(disks, rank, files - 1) + mark_text(disks, rank * 8 + files - 1)
    }
}

/// A rank of both grids, side by side.
pub open spec fn debug_rank(b: Board, rank: int) -> Seq<char> {
    seq![rank_char(rank as u8)] + mark_cells(b.black_disks, rank, 8) + "\t"@ + seq![
        rank_char(rank as u8),
    ] + mark_cells(b.white_disks, rank, 8) + "\n"@
}

/// The first `ranks` ranks of both grids.
pub open spec fn debug_ranks(b: Board, ranks: int) -> Seq<char>
    decreases ranks,
{
    if ranks <= 0 {
        Seq::empty()
    } else {
        debug_ranks(b, ranks - 1) + debug_rank(b, ranks - 1)
    }
}

/// The board as two grids side by side, the black disks on the left and
/// the white disks on the right.
pub open spec fn debug_text(b: Board) -> Seq<char> {
    "  A B C D E F G H \t  A B C D E F G H \n"@ + debug_ranks(b, 8)
        + "       BLACK      \t       WHITE      "@
}

/// Tells whether a mask holds a square.
fn holds(disks: u64, square: u8) -> (r: bool)
    requires
        square < 64,
    ensures
        r == mask_has(disks, square as int),
{
    disks & (FIRST_SQUARE >> square) != 0
}

impl Board {
    /// Draws the board as a framed grid, rank 1 at the top, with `●` for a
    /// black disk and `○` for a white one.
    pub fn to_string(&self) -> (r: String)
        ensures
            r@ == display_text(*self),
    {
        let mut text = String::from_str("    A   B   C   D   E   F   G   H  \n");
        text.append("  ╔═══╤═══╤═══╤═══╤═══╤═══╤═══╤═══╗\n");
        let ghost head = text@;

        let mut rank: u8 = 0;
        while rank < 8
            invariant
                rank <= 8,
                text@ == head + ranks_text(*self, rank as int),
            decreases 8 - rank,
        {
            let ghost before = text@;
            text.append(rank_text(rank));
            let ghost opened = text@;
            let mut file: u8 = 0;
            while file < 8
                invariant
                    file <= 8,
                    rank < 8,
                    text@ == opened + rank_cells(*self, rank as int, file as int),
                decreases 8 - file,
            {
                let ghost cells = text@;
                if file == 0 {
                    text.append(" ║ ");
                } else {
                    text.append(" │ ");
                }
                let square: u8 = rank * 8 + file;
                if holds(self.black_disks, square) {
                    text.append("●");
                } else if holds(self.white_disks, square) {
                    text.append("○");
                } else {
                    text.append(" ");
                }
                file += 1;
                assert(text@ =~= opened + rank_cells(*self, rank as int, file as int));
            }
            text.append(" ║ ");
            text.append(rank_text(rank));
            if rank == 7 {
                text.append("\n  ╚═══╧═══╧═══╧═══╧═══╧═══╧═══╧═══╝\n");
            } else {
                text.append("\n  ╟───┼───┼───┼───┼───┼───┼───┼───╢\n");
            }
            assert(text@ =~= before + rank_line(*self, rank as int));
            rank += 1;
            assert(text@ =~= head + ranks_text(*self, rank as int));
        }
        text.append("    A   B   C   D   E   F   G   H  ");
        assert(text@ =~= display_text(*self));
        text
    }

    /// Draws the board as two grids side by side, the black disks on the
    /// left and the white disks on the right, with `#` for a disk.
    pub fn to_debug_string(&self) -> (r: String)
        ensures
            r@ == debug_text(*self),
    {
        let mut text = String::from_str("  A B C D E F G H \t  A B C D E F G H \n");
        let ghost head = text@;

        let mut rank: u8 = 0;
        while rank < 8
            invariant
                rank <= 8,
                text@ == head + debug_ranks(*self, rank as int),
            decreases 8 - rank,
        {
            let ghost before = text@;
            text.append(rank_text(rank));
            self.append_marks(&mut text, self.black_disks, rank);
            text.append("\t");
            text.append(rank_text(rank));
            self.append_marks(&mut text, self.white_disks, rank);
            text.append("\n");
            assert(text@ =~= before + debug_rank(*self, rank as int));
            rank += 1;
            assert(text@ =~= head + debug_ranks(*self, rank as int));
        }
        text.append("       BLACK      \t       WHITE      ");
        assert(text@ =~= debug_text(*self));
        text
    }

    /// Appends a rank of the grid of one colour.
    fn append_marks(&self, text: &mut String, disks: u64, rank: u8)
        requires
            rank < 8,
        ensures
            final(text)@ == old(text)@ + mark_cells(disks, rank as int, 8),
    {
        let ghost opened = text@;
        let mut file: u8 = 0;
        assert(text@ =~= opened + mark_cells(disks, rank as int, 0));
        while file < 8
            invariant
                file <= 8,
                rank < 8,
                text@ == opened + mark_cells(disks, rank as int, file as int),
            decreases 8 - file,
        {
            let square: u8 = rank * 8 + file;
            if holds(disks, square) {
                text.append(" #");
            } else {
                text.append(" -");
            }
            file += 1;
            assert(text@ =~= opened + mark_cells(disks, rank as int, file as int));
        }
    }
}

} // verus!
