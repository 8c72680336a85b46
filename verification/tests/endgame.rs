use ruthless::board::{Board, Move};
use ruthless::search::endgame::{endgame_negamax, endgame_solve, EndgameSearcher};
use ruthless::search::eval::PieceSquareEvaluator;
use ruthless::search::last_square::last_square;

fn move_in_list(moves: Vec<u8>, m: Move) -> bool {
    moves.iter().any(|&x| Move::Play(x) == m)
}

#[test]
fn ffo_simplified_40() {
    let mut board = Board::from_pos(0x0101312303010100, 0x9E7ECEDCFC1E0800, true);

    board.make_move(Move::Play(8));
    board.make_move(Move::Play(1));

    assert_eq!(endgame_solve(&mut board, true).0, 1);

    let (score, m, _) = endgame_solve(&mut board, false);
    assert_eq!(score, 38);
    assert_eq!(m, Move::Play(2));
}

#[test]
fn ffo_pos_40_wld() {
    let mut board = Board::from_pos(0x0101312303010100, 0x9E7ECEDCFC1E0800, true);

    assert_eq!(endgame_solve(&mut board, true).0, 1);
}

#[test]
fn ffo_pos_40_exact() {
    let mut board = Board::from_pos(0x0101312303010100, 0x9E7ECEDCFC1E0800, true);

    let (score, m, _) = endgame_solve(&mut board, false);
    assert_eq!(score, 38);
    assert!(move_in_list(vec![8], m));
}


#[test]
fn ffo_pos_42_wld() {
    let mut board = Board::from_pos(0x000C040486040200, 0x3801FB7B391B1D3C, true);

    assert_eq!(endgame_solve(&mut board, true).0, 1);
}

#[test]
fn test_guided_solver_finds_the_same_values() {
    let solver = EndgameSearcher::new(PieceSquareEvaluator::new(), false);
    assert!(!solver.print());

    // No more empty squares than the evaluator guides: the same move, too.
    let mut board = Board::from_pos(0x0101312303010100, 0x9E7ECEDCFC1E0800, true);
    board.make_move(Move::Play(8));
    board.make_move(Move::Play(1));
    while board.all_disks().count_zeros() > 12 {
        let m = endgame_solve(&mut board, false).1;
        board.make_move(m);
    }
    let before = board;
    for wld in [true, false] {
        let (score, m, data) = solver.endgame_solve(&mut board, wld);
        let (expected, expected_move, _) = endgame_solve(&mut board, wld);
        assert_eq!(score, expected);
        assert_eq!(m, expected_move);
        assert_eq!(data.depth as u32, board.all_disks().count_zeros());
        assert_eq!(board, before);
    }

    // More empty squares: the evaluator orders the moves, the value stays.
    let mut board = Board::from_pos(0x0000_0000_003C_7E7E, 0xFFFF_FF7E_3C00_0000, true);
    assert!(board.all_disks().count_zeros() > 12);
    let (score, m, _) = solver.endgame_solve(&mut board, true);
    let (expected, _, _) = endgame_solve(&mut board, true);
    assert_eq!(score, expected);
    assert!(board.get_moves().contains(&m));
    // The move is worth the value: the game after it is worth as much to
    // the other side.
    board.make_move(m);
    assert_eq!(endgame_solve(&mut board, true).0, -score);
}

#[test]
fn test_solver_on_finished_game() {
    // Black has all the disks: white, to move, has lost by thirteen.
    let mut board = Board::from_pos(0x00_20_20_3E_38_38_00_00, 0, false);
    let (score, m, _) = endgame_solve(&mut board, false);
    assert_eq!(score, -13);
    assert_eq!(m, Move::Pass);
    assert_eq!(endgame_solve(&mut board, true).0, -1);
    let mut board = Board::from_pos(0x00_20_20_3E_38_38_00_00, 0, true);
    assert_eq!(endgame_solve(&mut board, false).0, 13);
}

#[test]
fn test_wld_is_the_sign_of_the_exact_value() {
    let mut board = Board::from_pos(0x0101312303010100, 0x9E7ECEDCFC1E0800, true);
    board.make_move(Move::Play(8));
    board.make_move(Move::Play(1));
    for _ in 0..8 {
        let exact = endgame_solve(&mut board, false).0;
        let wld = endgame_solve(&mut board, true).0;
        assert_eq!(wld, exact.signum());
        let m = board.get_moves()[0];
        board.make_move(m);
    }
}

#[test]
fn test_endgame_negamax_window() {
    let mut board = Board::from_pos(0x0101312303010100, 0x9E7ECEDCFC1E0800, true);
    board.make_move(Move::Play(8));
    board.make_move(Move::Play(1));
    let before = board;
    // The value of this position for black is 38.
    assert_eq!(endgame_negamax(&mut board, -64, 64, false).0, 38);
    assert_eq!(endgame_negamax(&mut board, 37, 39, false).0, 38);
    assert_eq!(endgame_negamax(&mut board, 40, 64, false).0, 40);
    assert!(endgame_negamax(&mut board, -64, 10, false).0 >= 10);
    assert_eq!(board, before);
}

#[test]
fn test_last_square() {
    // Every square but a1 holds a disk, all black but the white disk on b1.
    let black: u64 = 0x3FFF_FFFF_FFFF_FFFF;
    let white: u64 = 0x4000_0000_0000_0000;

    // Black plays a1 and turns over b1.
    let board = Board::from_pos(black, white, true);
    assert_eq!(last_square(&board, false), (64, false));
    assert_eq!(last_square(&board, true), (1, false));

    // White has no move: it passes, and black plays a1.
    let board = Board::from_pos(black, white, false);
    assert_eq!(last_square(&board, false), (-64, false));
    assert_eq!(last_square(&board, true), (-1, false));

    // No white disk: neither side can move.
    let board = Board::from_pos(0x7FFF_FFFF_FFFF_FFFF, 0, true);
    assert_eq!(last_square(&board, false), (63, true));
    let board = Board::from_pos(0x7FFF_FFFF_FFFF_FFFF, 0, false);
    assert_eq!(last_square(&board, false), (-63, true));

    // As many disks for both sides once the last move is made.
    let black: u64 = 0x3FFF_FFFF_0000_0000;
    let white: u64 = 0x4000_0000_FFFF_FFFF;
    let board = Board::from_pos(black, white, true);
    assert_eq!(last_square(&board, false), (0, false));
    assert_eq!(last_square(&board, true), (0, false));
}

#[test]
fn test_solver_agrees_with_last_square() {
    let black: u64 = 0x3FFF_FFFF_FFFF_FFFF;
    let white: u64 = 0x4000_0000_0000_0000;
    for black_move in [true, false] {
        let mut board = Board::from_pos(black, white, black_move);
        let (value, _) = last_square(&board, false);
        assert_eq!(endgame_negamax(&mut board, -64, 64, false).0, value);
        let (solved, m, _) = endgame_solve(&mut board, false);
        assert_eq!(solved, value);
        assert!(board.get_moves().contains(&m));
    }
}
