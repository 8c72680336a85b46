use ruthless::board::{Board, Move};
use ruthless::ml::{pick_move, random_move, BoardState};
use ruthless::search::clock::saturate_millis;
use ruthless::search::eval::{Evaluator, PieceSquareEvaluator};
use ruthless::search::iterative::{bns_iter_deep, nm_iter_deep, within_budget};
use ruthless::search::negamax;
use ruthless::search::nm_new::{NegamaxSearcher, Terminal};

#[test]
fn test_pvs_root_one_move_advantage() {
    let mut board = Board::from_pos(0x000040BC00000000, 0x0000004000000000, false);
    let eval = PieceSquareEvaluator::from([1; 10]);
    let mut searcher = NegamaxSearcher::with_table_size(eval, 1009);

    let (_score, m, data) = searcher.search_to_depth(&mut board, 2);

    assert_eq!(m, Move::Play(9));
    assert_eq!(data.depth, 2);
}

#[test]
fn test_pvs_agrees_with_negamax_at_low_depth() {
    for depth in 1..5u8 {
        let mut board = Board::new();
        board.make_move(Move::Play(19));
        let mut searcher = NegamaxSearcher::with_table_size(PieceSquareEvaluator::new(), 1009);
        let (score, m, _) = searcher.search_to_depth(&mut board, depth);
        let (expected, expected_move, _) =
            negamax::negamax(&mut board, depth, &PieceSquareEvaluator::new());
        assert_eq!(score, expected);
        assert_eq!(m, expected_move);
    }
}

#[test]
fn test_pvs_impl_leaf_and_wipeout() {
    let mut searcher = NegamaxSearcher::with_table_size(PieceSquareEvaluator::from([1; 10]), 17);
    let mut board = Board::new();
    assert_eq!(searcher.pvs_impl(&mut board, -100, 100, 0), (0, 1));
    // The side to move has no disk left: the least score.
    let mut board = Board::from_pos(0x00_20_20_3E_38_38_00_00, 0, false);
    assert_eq!(searcher.pvs_impl(&mut board, -100, 100, 3), (-i32::MAX, 1));
    let mut board = Board::from_pos(0x00_20_20_3E_38_38_00_00, 0, true);
    assert_eq!(searcher.pvs_impl(&mut board, -100, 100, 3), (13, 1));
}

#[test]
fn test_terminal_evaluator() {
    let eval = Terminal { inner: PieceSquareEvaluator::from([1; 10]) };
    let board = Board::from_pos(0, 0xFF, true);
    assert_eq!(eval.get_score(&board), -i32::MAX);
    let board = Board::from_pos(0, 0xFF, false);
    assert_eq!(eval.get_score(&board), 8);
}

#[test]
fn test_pvs_deeper_search_returns_legal_move() {
    let mut board = Board::new();
    let before = board;
    let mut searcher = NegamaxSearcher::with_table_size(PieceSquareEvaluator::new(), 100003);
    let (_, m, data) = searcher.search_to_depth(&mut board, 6);
    assert!(board.get_moves().contains(&m));
    assert_eq!(board, before);
    assert_eq!(data.depth, 6);
    assert!(data.nodes >= 4);
}

#[test]
fn test_search_runs_first_iteration_without_time() {
    let mut board = Board::new();
    let before = board;
    let mut searcher = NegamaxSearcher::with_table_size(PieceSquareEvaluator::new(), 100003);
    searcher.set_min_depth(3);
    searcher.set_verbose(0);
    assert_eq!(searcher.verbose(), 0);
    let (score, m, data) = searcher.search(&mut board, 0, |_, _, _| 1);
    assert_eq!(data.depth, 3);
    assert_eq!(board, before);
    let (expected, expected_move, _) =
        negamax::negamax(&mut board, 3, &PieceSquareEvaluator::new());
    assert_eq!(score, expected);
    assert_eq!(m, expected_move);
}

#[test]
fn test_search_deepens_two_plies_at_a_time() {
    let mut board = Board::new();
    let mut searcher = NegamaxSearcher::with_table_size(PieceSquareEvaluator::new(), 100003);
    searcher.set_min_depth(1);
    // The next search is expected to fit until the depth is 5.
    let (_, m, data) = searcher.search(&mut board, 1_000_000, |_, _, depth| {
        if depth < 5 {
            0
        } else {
            2_000_000
        }
    });
    assert_eq!(data.depth, 5);
    assert!(board.get_moves().contains(&m));
}

#[test]
fn test_within_budget() {
    assert!(within_budget(3, 4, 7));
    assert!(!within_budget(4, 4, 7));
    assert!(!within_budget(u32::MAX, u32::MAX, u32::MAX));
    assert!(within_budget(0, 0, 0));
}

#[test]
fn test_iterative_deepening_first_search() {
    let eval = PieceSquareEvaluator::new();
    let mut board = Board::from_pos(0x0101312303010100, 0x9E7ECEDCFC1E0800, true);
    let before = board;
    let (score, m, data) = nm_iter_deep(&mut board, 0, &eval, |_, _, _| u32::MAX);
    assert_eq!(data.depth, 8);
    assert_eq!(board, before);
    let (expected, expected_move, _) = negamax::negamax(&mut board, 8, &eval);
    assert_eq!(score, expected);
    assert_eq!(m, expected_move);

    let (_, m, data) = bns_iter_deep(&mut board, 0, &eval, |_, _, _| u32::MAX);
    assert_eq!(data.depth, 8);
    assert!(board.get_moves().contains(&m));
    assert_eq!(board, before);
}

#[test]
fn test_pick_move() {
    let moves = vec![Move::Play(1), Move::Play(2), Move::Play(3)];
    assert_eq!(pick_move(&moves, 0), Move::Play(1));
    assert_eq!(pick_move(&moves, 4), Move::Play(2));
    assert_eq!(pick_move(&moves, usize::MAX), pick_move(&moves, usize::MAX % 3));
}

#[test]
fn test_random_move_is_legal() {
    let mut board = Board::new();
    for _ in 0..40 {
        let m = random_move(&board);
        assert!(board.get_moves().contains(&m));
        board.make_move(m);
        assert_eq!(board.black_disks & board.white_disks, 0);
    }
}

#[test]
fn test_random_moves_differ() {
    // Among the four first moves, 64 choices do not all fall on one.
    let board = Board::new();
    let first = random_move(&board);
    let mut other = false;
    for _ in 0..64 {
        if random_move(&board) != first {
            other = true;
        }
    }
    assert!(other);
}

#[test]
fn test_board_state() {
    let board = Board::from_pos(5, 10, false);
    let state = BoardState::from(&board);
    assert_eq!(state.black_disks, 5);
    assert_eq!(state.white_disks, 10);
    assert!(!state.black_move);
    assert_eq!(state.to_board(), board);
}

#[test]
fn test_negamax_id_first_search() {
    let eval = PieceSquareEvaluator::new();
    let mut board = Board::from_pos(0x0101312303010100, 0x9E7ECEDCFC1E0800, true);
    let before = board;
    let (score, m, data) = negamax::negamax_id(&mut board, 0, &eval, |_, _, _| u32::MAX);
    assert_eq!(data.depth, 8);
    assert_eq!(board, before);
    let (expected, _, _) = negamax::negamax(&mut board, 8, &eval);
    assert_eq!(score, expected);
    // The move is worth the score.
    let undo = board.make_move(m);
    let (reply, _) = negamax::negamax_impl(&mut board, -i32::MAX, i32::MAX, 7, &eval);
    board.undo_move(undo, m);
    assert_eq!(-reply, score);
}

#[test]
fn test_saturate_millis() {
    assert_eq!(saturate_millis(0), 0);
    assert_eq!(saturate_millis(1234), 1234);
    assert_eq!(saturate_millis(u32::MAX as u128), u32::MAX);
    assert_eq!(saturate_millis(u32::MAX as u128 + 1), u32::MAX);
    assert_eq!(saturate_millis(u128::MAX), u32::MAX);
}

#[test]
fn test_pvs_impl_returns_best_score_below_window() {
    // Black has two moves, a2 and c2; each leaves white five disks behind.
    let mut searcher = NegamaxSearcher::with_table_size(PieceSquareEvaluator::from([1; 10]), 17);
    let mut board = Board::from_pos(0x000000BC00000000, 0x0040404000000000, true);
    let before = board;
    assert_eq!(searcher.pvs_impl(&mut board, 6, 20, 1).0, 5);
    assert_eq!(searcher.pvs_impl(&mut board, -100, 100, 1).0, 5);
    assert!(searcher.pvs_impl(&mut board, -100, 3, 1).0 >= 3);
    assert_eq!(board, before);
}

#[test]
fn test_pvs_impl_answers_from_the_table() {
    let mut searcher = NegamaxSearcher::with_table_size(PieceSquareEvaluator::new(), 1009);
    let mut board = Board::new();
    // The first search tells the table its result; the second is answered
    // from the table, as one node.
    let (first, nodes) = searcher.pvs_impl(&mut board, -1000, 1000, 4);
    assert!(nodes > 1);
    let (again, nodes) = searcher.pvs_impl(&mut board, -1000, 1000, 4);
    assert_eq!(again, first);
    assert_eq!(nodes, 1);
    // A deeper search is not answered by the shallower entry.
    let (_, nodes) = searcher.pvs_impl(&mut board, -1000, 1000, 5);
    assert!(nodes > 1);
}

#[test]
fn test_pvs_reports_count_nodes() {
    let mut searcher = NegamaxSearcher::with_table_size(PieceSquareEvaluator::new(), 1009);
    let mut board = Board::new();
    assert!(searcher.search_to_depth(&mut board, 1).2.nodes >= 1);
    assert!(searcher.search_to_depth(&mut board, 5).2.nodes >= 1);
    searcher.set_min_depth(2);
    let (_, _, data) = searcher.search(&mut board, 0, |_, _, _| u32::MAX);
    assert!(data.nodes >= 1);
    assert_eq!(data.depth, 2);
}
