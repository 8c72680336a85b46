use ruthless::board::Board;
use std::collections::HashMap;
use ruthless::search::eval::pattern_util::{
    fits_pattern, flip_diag, flip_vertical, odd_empties, pattern_index, pdep64,
    pext64, rotate, rotation_indices, table_size,
};
use ruthless::search::eval::pattern::{PatternEvaluator, WEIGHT_UNIT};
use ruthless::search::eval::{Evaluator, PieceSquareEvaluator, StagedEvaluator};
use ruthless::search::endgame::{
    get_endgame_score, get_endgame_score_full, get_material, FinalScore,
};

#[test]
fn test_unit_weights_count_disks() {
    let eval = PieceSquareEvaluator::from([1; 10]);

    let board = Board::from_pos(0xFF_FF_00_00_00_00_00_00, 0x00_00_00_00_00_00_00_07, true);
    assert_eq!(eval.get_score(&board), 13);
    let board = Board::from_pos(0xFF_FF_00_00_00_00_00_00, 0x00_00_00_00_00_00_00_07, false);
    assert_eq!(eval.get_score(&board), -13);
}

#[test]
fn test_piece_square_weights() {
    let eval = PieceSquareEvaluator::new();
    // Black has the corner a1, white the square b2 beside it.
    let board = Board::from_pos(0x80_00_00_00_00_00_00_00, 0x00_40_00_00_00_00_00_00, true);
    assert_eq!(eval.get_score(&board), 64 + 40);
    let board = Board::from_pos(0x80_00_00_00_00_00_00_00, 0x00_40_00_00_00_00_00_00, false);
    assert_eq!(eval.get_score(&board), -104);
}

#[test]
fn test_piece_square_score_is_cut_off() {
    let eval = PieceSquareEvaluator::from([i32::MAX; 10]);
    let board = Board::from_pos(0xFF_FF_00_00_00_00_00_00, 0, true);
    assert_eq!(eval.get_score(&board), i32::MAX);
    let board = Board::from_pos(0xFF_FF_00_00_00_00_00_00, 0, false);
    assert_eq!(eval.get_score(&board), -i32::MAX);
}

#[test]
fn test_move_order_score_restores_board() {
    let eval = PieceSquareEvaluator::from([1; 10]);
    let mut board = Board::new();
    let before = board;
    // After d3 black has four disks and white has one; white is to move.
    let score = eval.move_order_score(&mut board, ruthless::board::Move::Play(19));
    assert_eq!(score, 3);
    assert_eq!(board, before);
}

#[test]
fn test_material() {
    let board = Board::from_pos(0xFF_00_00_00_00_00_00_00, 0x00_00_00_00_00_00_00_07, true);
    assert_eq!(get_material(&board), 5);
    assert_eq!(get_endgame_score(&board), 1);
    assert_eq!(get_endgame_score_full(&board), 5);
    let board = Board::from_pos(0xFF_00_00_00_00_00_00_00, 0x00_00_00_00_00_00_00_07, false);
    assert_eq!(get_material(&board), -5);
    assert_eq!(get_endgame_score(&board), -1);
    let board = Board::from_pos(0x0F, 0xF0, false);
    assert_eq!(get_endgame_score(&board), 0);
    assert_eq!(FinalScore { wld: true }.get_score(&board), 0);
    let board = Board::from_pos(0x1F, 0xE0, true);
    assert_eq!(FinalScore { wld: false }.get_score(&board), 2);
    assert_eq!(FinalScore { wld: true }.get_score(&board), 1);
}

#[test]
fn test_pext_and_pdep() {
    assert_eq!(pext64(0b1011_0110, 0b0110_1100), 0b0101);
    assert_eq!(pext64(u64::MAX, 0xFF00), 0xFF);
    assert_eq!(pext64(0x1234, 0), 0);
    assert_eq!(pdep64(0b0101, 0b0110_1100), 0b0010_0100);
    assert_eq!(pdep64(0xFF, 0xFF00), 0xFF00);
    assert_eq!(pdep64(u64::MAX, 0x8000_0000_0000_0001), 0x8000_0000_0000_0001);
    for value in 0..16u64 {
        assert_eq!(pext64(pdep64(value, 0x0000_1001_0010_0100), 0x0000_1001_0010_0100), value);
    }
}

#[test]
fn test_flips_and_rotation() {
    let a1: u64 = 0x80_00_00_00_00_00_00_00;
    let h1: u64 = 0x01_00_00_00_00_00_00_00;
    let a8: u64 = 0x00_00_00_00_00_00_00_80;
    let h8: u64 = 0x00_00_00_00_00_00_00_01;
    let b1: u64 = 0x40_00_00_00_00_00_00_00;
    let a2: u64 = 0x00_80_00_00_00_00_00_00;

    assert_eq!(flip_vertical(a1), a8);
    assert_eq!(flip_vertical(h1), h8);
    assert_eq!(flip_diag(a1), a1);
    assert_eq!(flip_diag(b1), a2);
    assert_eq!(flip_diag(h1), a8);

    assert_eq!(rotate(a1), a8);
    assert_eq!(rotate(a8), h8);
    assert_eq!(rotate(h8), h1);
    assert_eq!(rotate(h1), a1);

    let x: u64 = 0x0123_4567_89AB_CDEF;
    assert_eq!(rotate(rotate(rotate(rotate(x)))), x);
    assert_eq!(rotate(x).count_ones(), x.count_ones());
}

#[test]
fn test_pattern_index() {
    // The pattern of the squares g8 and h8: h8 is the lowest digit.
    let mask: u64 = 0b11;
    assert_eq!(table_size(mask), 9);
    assert_eq!(pattern_index(0, 0, mask), 0);
    assert_eq!(pattern_index(0, 0b01, mask), 1);
    assert_eq!(pattern_index(0b01, 0, mask), 2);
    assert_eq!(pattern_index(0, 0b10, mask), 3);
    assert_eq!(pattern_index(0b10, 0b01, mask), 7);
    assert_eq!(pattern_index(0b11, 0, mask), 8);
    // Disks outside the pattern do not count.
    assert_eq!(pattern_index(0xFF00, 0xFF_0000, mask), 0);
}

#[test]
fn test_table_size_and_limit() {
    assert_eq!(table_size(0), 1);
    assert_eq!(table_size(0xFF), 6561);
    assert_eq!(table_size(0xF_FFFF), 3486784401);
    assert!(fits_pattern(0xF_FFFF));
    assert!(!fits_pattern(0x1F_FFFF));
}

#[test]
fn test_rotation_shifts_indices() {
    let board = Board::from_pos(0x0000_0008_1000_8001, 0x0100_0010_0800_0000, true);
    let mask: u64 = 0xC3_81_00_00_00_00_81_C3;
    let here = rotation_indices(board.black_disks, board.white_disks, mask);
    let turned = rotation_indices(rotate(board.black_disks), rotate(board.white_disks), mask);
    for k in 0..4 {
        assert_eq!(turned[k], here[(k + 1) % 4]);
    }
    let mut sorted_here = here.to_vec();
    let mut sorted_turned = turned.to_vec();
    sorted_here.sort();
    sorted_turned.sort();
    assert_eq!(sorted_here, sorted_turned);
}

#[test]
fn test_staged_evaluator() {
    let staged = StagedEvaluator::from(
        vec![10, 60],
        vec![
            PieceSquareEvaluator::from([1; 10]),
            PieceSquareEvaluator::from([2; 10]),
            PieceSquareEvaluator::from([3; 10]),
        ],
    );
    // 60 empty squares: the last stage.
    let board = Board::new();
    assert_eq!(staged.stage(&board), Some(2));
    let board = Board::from_pos(0x07, 0x08, true);
    assert_eq!(staged.get_score(&board), 6);
    // 59 empty squares: the middle stage.
    let board = Board::from_pos(0x17, 0x08, true);
    assert_eq!(staged.stage(&board), Some(1));
    assert_eq!(staged.get_score(&board), 6);
    // 9 empty squares: the first stage.
    let board = Board::from_pos(0xFFFF_FFFF_FFFF_FE00, 0, true);
    assert_eq!(staged.stage(&board), Some(0));
    assert_eq!(staged.get_score(&board), 55);
    // 10 empty squares: the middle stage begins.
    let board = Board::from_pos(0xFFFF_FFFF_FFFF_FC00, 0, true);
    assert_eq!(staged.stage(&board), Some(1));
}

#[test]
fn test_staged_from_map() {
    let whole: HashMap<u32, usize> = (0..65).map(|empties| (empties, 0)).collect();
    let evaluators = vec![PieceSquareEvaluator::from([1; 10])];
    let staged = StagedEvaluator::from_map(whole.clone(), evaluators).unwrap();
    assert_eq!(staged.stage_map(), &whole);
    assert_eq!(staged.stage(&Board::new()), Some(0));

    // A number of empty squares without a stage.
    let mut short = whole.clone();
    short.remove(&64);
    let evaluators = vec![PieceSquareEvaluator::from([1; 10])];
    assert!(StagedEvaluator::from_map(short, evaluators).is_none());

    // A stage without an evaluator.
    let mut wrong = whole.clone();
    wrong.insert(64, 1);
    let evaluators = vec![PieceSquareEvaluator::from([1; 10])];
    assert!(StagedEvaluator::from_map(wrong, evaluators).is_none());
}

#[test]
fn test_staged_from_names_every_stage() {
    let staged = StagedEvaluator::from(
        vec![10, 60],
        vec![
            PieceSquareEvaluator::from([1; 10]),
            PieceSquareEvaluator::from([2; 10]),
            PieceSquareEvaluator::from([3; 10]),
        ],
    );
    let map = staged.stage_map();
    assert_eq!(map.len(), 65);
    for empties in 0..65u32 {
        let expected = if empties < 10 {
            0
        } else if empties < 60 {
            1
        } else {
            2
        };
        assert_eq!(map.get(&empties), Some(&expected));
    }
}

/// A table for the pattern of the two squares g8 and h8 in which the weight
/// at index `i` is `i + 1` whole units.
fn corner_pair() -> PatternEvaluator {
    let unit = WEIGHT_UNIT as i32;
    let table: Vec<i32> = (1..10).map(|i| i * unit).collect();
    PatternEvaluator::from(vec![0b11], vec![table], 0, unit / 2).unwrap()
}

#[test]
fn test_pattern_evaluator_empty() {
    let eval = PatternEvaluator::new();
    assert_eq!(eval.pattern_count(), 0);
    assert_eq!(eval.parities(), (0, 0));
    assert_eq!(eval.get_score(&Board::new()), 0);
}

#[test]
fn test_pattern_evaluator_score() {
    let eval = corner_pair();
    assert_eq!(eval.pattern_count(), 1);
    assert_eq!(eval.pattern(0), 0b11);
    // The start position shows no disk in any corner: four times the
    // weight at index 0, which is one unit, and the bias for an even number
    // of empty squares, which is zero.
    let board = Board::new();
    assert_eq!(eval.get_black_sum(&board), 4 * WEIGHT_UNIT);
    assert_eq!(eval.get_score(&board), 400);
    let board = Board::from_pos(board.black_disks, board.white_disks, false);
    assert_eq!(eval.get_score(&board), -400);

    // A black disk on h8: index 2 for the position as it is, index 0 or 6
    // for its rotations, and an odd number of empty squares.
    let board = Board::from_pos(0x01, 0, true);
    let indices = rotation_indices(0x01, 0, 0b11);
    let expected: i64 = indices.iter().map(|&i| (i as i64 + 1) * WEIGHT_UNIT).sum::<i64>()
        + WEIGHT_UNIT / 2;
    assert_eq!(indices[0], 2);
    assert_eq!(eval.get_black_sum(&board), expected);
    assert_eq!(eval.get_score(&board), (expected * 100 / WEIGHT_UNIT) as i32);
}

#[test]
fn test_pattern_evaluator_rejects_two_disks_on_a_square() {
    let eval = corner_pair();
    let board = Board::from_pos(0x01, 0x01, true);
    assert_eq!(eval.get_score(&board), 0);
}

#[test]
fn test_pattern_evaluator_score_is_the_same_after_a_turn() {
    let eval = PatternEvaluator::from(
        vec![0b11, 0x8040_2010_0804_0201],
        vec![(0..9).map(|i| i * 1000 - 300).collect(), (0..6561).map(|i| 7 * i - 20000).collect()],
        1234,
        -4321,
    )
    .unwrap();
    let mut board = Board::new();
    for m in [19u8, 18, 17, 9, 1, 0] {
        board.make_move(ruthless::board::Move::Play(m));
        let turned = Board::from_pos(
            rotate(board.black_disks),
            rotate(board.white_disks),
            board.black_move,
        );
        assert_eq!(eval.get_score(&turned), eval.get_score(&board));
        assert_eq!(eval.get_black_sum(&turned), eval.get_black_sum(&board));
    }
}

#[test]
fn test_pattern_evaluator_from_checks_tables() {
    assert!(PatternEvaluator::from(vec![0b11], vec![vec![0; 9]], 0, 0).is_some());
    // A table of the wrong length.
    assert!(PatternEvaluator::from(vec![0b11], vec![vec![0; 8]], 0, 0).is_none());
    // A table too few.
    assert!(PatternEvaluator::from(vec![0b11, 0b1], vec![vec![0; 9]], 0, 0).is_none());
    // A pattern of too many squares.
    assert!(PatternEvaluator::from(vec![0x1F_FFFF], vec![vec![0; 9]], 0, 0).is_none());
}

#[test]
fn test_pattern_evaluator_tables_round_trip() {
    let first: Vec<i32> = (0..9).collect();
    let second: Vec<i32> = (10..13).collect();
    let eval =
        PatternEvaluator::from(vec![0b11, 0b100], vec![first.clone(), second.clone()], 5, 6)
            .unwrap();
    assert_eq!(eval.weights_of(0), first);
    assert_eq!(eval.weights_of(1), second);
    assert_eq!(eval.parities(), (5, 6));
    let copy = eval.clone();
    assert_eq!(copy.weights_of(1), second);
    assert_eq!(copy.pattern(1), 0b100);
}

#[test]
fn test_pattern_evaluator_adjust() {
    let mut eval = PatternEvaluator::from(vec![0b11], vec![vec![0; 9]], 0, 0).unwrap();
    // A black disk on h8 and 63 empty squares.
    let board = Board::from_pos(0x01, 0, true);
    let indices = rotation_indices(0x01, 0, 0b11);
    eval.adjust(&board, 3);
    let mut expected = vec![0; 9];
    for index in indices {
        expected[index] -= 3;
    }
    assert_eq!(eval.weights_of(0), expected);
    assert_eq!(eval.parities(), (0, -3));
    // The disk shows under the pattern in one rotation only: the weight at
    // index 2 is stepped once, the weight at index 0 three times.
    assert_eq!(expected[2], -3);
    assert_eq!(expected[0], -9);
    assert_eq!(eval.get_black_sum(&board), -3 - 3 - 3 * 9);

    // No weight leaves its range.
    eval.adjust(&board, i32::MAX);
    eval.adjust(&board, i32::MAX);
    assert_eq!(eval.parities(), (0, i32::MIN));

    // A position with two disks on a square changes nothing.
    let before = eval.weights_of(0);
    eval.adjust(&Board::from_pos(1, 1, true), 3);
    assert_eq!(eval.weights_of(0), before);
}

#[test]
fn test_staged_pattern_evaluator_adjust() {
    let mut staged = StagedEvaluator::from(
        vec![63],
        vec![
            PatternEvaluator::from(vec![0b11], vec![vec![0; 9]], 0, 0).unwrap(),
            PatternEvaluator::from(vec![0b11], vec![vec![0; 9]], 0, 0).unwrap(),
        ],
    );
    assert_eq!(staged.part_count(), 2);
    // 63 empty squares: the second stage.
    let board = Board::from_pos(0x01, 0, true);
    staged.adjust(&board, 2);
    assert_eq!(staged.part(0).parities(), (0, 0));
    assert_eq!(staged.part(1).parities(), (0, -2));
    assert_eq!(staged.part(0).weights_of(0), vec![0; 9]);
    assert_eq!(staged.get_score(&board), staged.part(1).get_score(&board));
}

#[test]
fn test_odd_empties() {
    assert!(!odd_empties(&Board::new()));
    assert!(odd_empties(&Board::from_pos(1, 0, true)));
}
