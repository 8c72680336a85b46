use ruthless::board::perft::perft;
use ruthless::board::{Board, Move};

#[test]
fn test_perft_from_start() {
    let mut board = Board::new();
    assert_eq!(perft(&mut board, 0), 1);
    assert_eq!(perft(&mut board, 1), 4);
    assert_eq!(perft(&mut board, 2), 12);
    assert_eq!(perft(&mut board, 3), 56);
    assert_eq!(perft(&mut board, 4), 244);
    assert_eq!(perft(&mut board, 5), 1396);
    assert_eq!(board, Board::new());
}

#[test]
fn test_perft_with_colours_exchanged() {
    let start = Board::new();
    let mut swapped = Board::from_pos(start.white_disks, start.black_disks, false);
    assert_eq!(perft(&mut swapped, 4), 244);
}

#[test]
fn test_perft_counts_a_pass() {
    // Neither side can move: the only line of play is pass after pass.
    let mut board = Board::from_pos(0x00_20_20_3E_38_38_00_00, 0, false);
    assert_eq!(board.get_moves(), vec![Move::Pass]);
    assert_eq!(perft(&mut board, 3), 1);
}
