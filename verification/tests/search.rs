use ruthless::board::{Board, Move};
use ruthless::search::eval::{Evaluator, PieceSquareEvaluator};
use ruthless::search::negamax;

#[test]
fn test_piece_square_evaluator() {
    let eval_1 = PieceSquareEvaluator::new();
    let eval_2 = PieceSquareEvaluator::from([1; 10]);

    let board = Board::from_pos(0xFF_FF_FF_FF_00_00_00_00, 0x00_00_00_00_FF_FF_FF_FF, true);
    assert_eq!(eval_1.get_score(&board), 0);
    assert_eq!(eval_2.get_score(&board), 0);
}

#[test]
fn test_negamax() {
    let mut board = Board::from_pos(0x000040BC00000000, 0x0000004000000000, false);
    let eval = PieceSquareEvaluator::from([1; 10]);

    let (_score, m, _) = negamax::negamax(&mut board, 2, &eval);

    assert_eq!(m, Move::Play(9));
}

#[test]
fn test_best_node_search() {
    let mut board = Board::from_pos(0x000040BC00000000, 0x0000004000000000, false);
    let eval = PieceSquareEvaluator::from([1; 10]);

    let (_score, m, _) = ruthless::search::bns::best_node_search(&mut board, 2, &eval);

    assert_eq!(m, Move::Play(9));
}

#[test]
fn test_negamax_score_and_restores_board() {
    let mut board = Board::from_pos(0x000040BC00000000, 0x0000004000000000, false);
    let before = board;
    let eval = PieceSquareEvaluator::from([1; 10]);

    let (score, m, data) = negamax::negamax(&mut board, 2, &eval);
    assert_eq!(m, Move::Play(9));
    assert_eq!(data.depth, 2);
    assert_eq!(board, before);

    // The score is the value of the position after the move, two plies deep.
    let undo = board.make_move(m);
    let (reply, _) = negamax::negamax_impl(&mut board, -i32::MAX, i32::MAX, 1, &eval);
    board.undo_move(undo, m);
    assert_eq!(score, -reply);
    // No other move is worth more.
    for other in board.get_moves() {
        let undo = board.make_move(other);
        let (reply, _) = negamax::negamax_impl(&mut board, -i32::MAX, i32::MAX, 1, &eval);
        board.undo_move(undo, other);
        assert!(-reply <= score);
    }
}

#[test]
fn test_negamax_impl_leaf() {
    let mut board = Board::new();
    let eval = PieceSquareEvaluator::from([1; 10]);
    assert_eq!(negamax::negamax_impl(&mut board, -100, 100, 0, &eval), (0, 1));
    // A finished game is scored at once, however deep the search.
    let mut board = Board::from_pos(0x00_20_20_3E_38_38_00_00, 0, true);
    assert_eq!(negamax::negamax_impl(&mut board, -100, 100, 5, &eval), (13, 1));
}

#[test]
fn test_negamax_impl_value_inside_window() {
    let mut board = Board::new();
    let eval = PieceSquareEvaluator::from([1; 10]);
    // After any first move black has four disks and white one.
    let (score, _) = negamax::negamax_impl(&mut board, -100, 100, 1, &eval);
    assert_eq!(score, 3);
    // With the window below the value the search fails high.
    let (score, _) = negamax::negamax_impl(&mut board, -100, 2, 1, &eval);
    assert!(score >= 2);
    // With the window above the value the search fails low, and returns
    // the best score that it found: one ply deep, the value.
    let (score, _) = negamax::negamax_impl(&mut board, 5, 100, 1, &eval);
    assert_eq!(score, 3);
    assert_eq!(board, Board::new());
}

#[test]
fn test_negamax_agrees_with_deeper_window_search() {
    let eval = PieceSquareEvaluator::new();
    for depth in 1..5u8 {
        let mut board = Board::new();
        let (root, _, _) = negamax::negamax(&mut board, depth, &eval);
        let (full, _) = negamax::negamax_impl(&mut board, -i32::MAX, i32::MAX, depth, &eval);
        assert_eq!(root, full);
    }
}

#[test]
fn test_bns_bound_holds_for_chosen_move() {
    let eval = PieceSquareEvaluator::new();
    let mut board = Board::new();
    board.make_move(Move::Play(19));
    board.make_move(Move::Play(18));
    let before = board;
    let (bound, m, data) = ruthless::search::bns::best_node_search(&mut board, 3, &eval);
    assert_eq!(board, before);
    assert_eq!(data.depth, 3);
    assert!(board.get_moves().contains(&m));
    // The value of the chosen move under a full search.
    let undo = board.make_move(m);
    let (reply, _) = negamax::negamax_impl(&mut board, -i32::MAX, i32::MAX, 2, &eval);
    board.undo_move(undo, m);
    let (seed, _) = negamax::negamax_impl(&mut board, -i32::MAX, i32::MAX, 1, &eval);
    if bound != seed - 20 {
        assert!(-reply >= bound);
    } else {
        assert_eq!(m, board.get_moves()[0]);
    }
}

#[test]
fn test_negamax_impl_returns_best_score_below_window() {
    // Black has two moves, a2 and c2; each leaves white five disks behind.
    let mut board = Board::from_pos(0x000000BC00000000, 0x0040404000000000, true);
    let eval = PieceSquareEvaluator::from([1; 10]);
    let (score, nodes) = negamax::negamax_impl(&mut board, 6, 20, 1, &eval);
    assert_eq!(score, 5);
    assert_eq!(nodes, 3);
    // Two plies deep the score below the window is a bound on the value.
    let (value, _) = negamax::negamax_impl(&mut board, -i32::MAX, i32::MAX, 2, &eval);
    let (bound, _) = negamax::negamax_impl(&mut board, value + 1, value + 10, 2, &eval);
    assert!(value <= bound && bound <= value + 1);
    // From the upper end of the window on, the score is a bound that the
    // value reaches.
    let (bound, _) = negamax::negamax_impl(&mut board, value - 10, value - 1, 2, &eval);
    assert!(value - 1 <= bound && bound <= value);
}

#[test]
fn test_search_reports_count_nodes() {
    let eval = PieceSquareEvaluator::new();
    let mut board = Board::new();
    assert!(negamax::negamax(&mut board, 1, &eval).2.nodes >= 1);
    assert!(ruthless::search::bns::best_node_search(&mut board, 1, &eval).2.nodes >= 1);
    // A single move: the first search is all there is to count.
    let mut board = Board::from_pos(0x000040BC00000000, 0x0000004000000000, false);
    board.make_move(Move::Play(9));
    let moves = board.get_moves().len();
    let data = ruthless::search::bns::best_node_search(&mut board, 2, &eval).2;
    assert!(data.nodes >= 1, "{} moves", moves);
}
