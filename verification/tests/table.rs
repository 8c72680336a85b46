use ruthless::board::Board;
use ruthless::search::hashtable::{HashTable, Score};

#[test]
fn test_table_probe_empty() {
    let table = HashTable::empty(101);
    assert_eq!(table.size(), 101);
    assert_eq!(table.probe(&Board::new(), 0, -10, 10), None);
}

#[test]
fn test_table_exact_score_is_found_at_lower_depth() {
    let mut table = HashTable::empty(101);
    let board = Board::new();
    table.save(&board, Score::Exact(12), 6);

    assert_eq!(table.probe(&board, 6, -100, 100), Some(Score::Exact(12)));
    assert_eq!(table.probe(&board, 4, -100, 100), Some(Score::Exact(12)));
    assert_eq!(table.probe(&board, 7, -100, 100), None);
}

#[test]
fn test_table_bounds_need_to_cut() {
    let mut table = HashTable::empty(101);
    let board = Board::new();

    table.save(&board, Score::Lower(5), 4);
    assert_eq!(table.probe(&board, 4, 0, 5), Some(Score::Lower(5)));
    assert_eq!(table.probe(&board, 4, 0, 6), None);

    table.save(&board, Score::Upper(5), 4);
    assert_eq!(table.probe(&board, 4, 5, 9), Some(Score::Upper(5)));
    assert_eq!(table.probe(&board, 4, 4, 9), None);
}

#[test]
fn test_table_other_position_in_same_slot() {
    // With one slot every position shares it.
    let mut table = HashTable::empty(1);
    let board = Board::new();
    let mut other = Board::new();
    other.make_move(ruthless::board::Move::Play(19));

    table.save(&board, Score::Exact(3), 5);
    assert_eq!(table.probe(&other, 1, -100, 100), None);
    assert_eq!(table.probe(&board, 1, -100, 100), Some(Score::Exact(3)));
}

#[test]
fn test_table_deeper_entry_stays_until_aged() {
    let mut table = HashTable::empty(1);
    let board = Board::new();

    table.save(&board, Score::Exact(3), 5);
    // A shallower result does not overwrite the deeper one.
    table.save(&board, Score::Exact(9), 4);
    assert_eq!(table.probe(&board, 4, -100, 100), Some(Score::Exact(3)));
    // A result of the same depth does.
    table.save(&board, Score::Exact(7), 5);
    assert_eq!(table.probe(&board, 4, -100, 100), Some(Score::Exact(7)));

    // Once marked for replacement, the deeper entry gives way.
    table.set_replace();
    assert_eq!(table.probe(&board, 4, -100, 100), Some(Score::Exact(7)));
    table.save(&board, Score::Exact(9), 4);
    assert_eq!(table.probe(&board, 4, -100, 100), Some(Score::Exact(9)));
    assert_eq!(table.probe(&board, 5, -100, 100), None);
}

#[test]
fn test_table_clear() {
    let mut table = HashTable::empty(7);
    let board = Board::new();
    table.save(&board, Score::Exact(3), 5);
    table.clear();
    assert_eq!(table.probe(&board, 0, -100, 100), None);
    assert_eq!(table.size(), 7);
}
