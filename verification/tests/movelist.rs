use ruthless::board::movelist::MoveList;
use ruthless::board::order::sort_moves;
use ruthless::board::{Board, Move};

#[test]
fn test_movelist_push_and_read() {
    let mut list = MoveList::new();
    assert!(list.is_empty());
    assert_eq!(list.len(), 0);

    list.push(Move::Play(19));
    list.push(Move::Pass);
    list.push(Move::Play(3));

    assert!(!list.is_empty());
    assert_eq!(list.len(), 3);
    assert_eq!(list.get(0), Move::Play(19));
    assert_eq!(list.get(1), Move::Pass);
    assert_eq!(list.get(2), Move::Play(3));
    assert!(list.contains(Move::Pass));
    assert!(list.contains(Move::Play(3)));
    assert!(!list.contains(Move::Play(4)));
    assert_eq!(list.to_vec(), vec![Move::Play(19), Move::Pass, Move::Play(3)]);
}

#[test]
fn test_movelist_holds_32_moves() {
    let mut list = MoveList::new();
    for square in 0..32u8 {
        list.push(Move::Play(square));
    }
    assert_eq!(list.len(), 32);
    assert_eq!(list.get(31), Move::Play(31));
}

#[test]
fn test_movelist_from_and_set() {
    let mut list = MoveList::from(vec![Move::Play(1), Move::Play(2)]);
    list.set(0, Move::Play(7));
    assert_eq!(list.to_vec(), vec![Move::Play(7), Move::Play(2)]);
}

#[test]
fn test_movelist_sort_by_is_stable() {
    let mut list = MoveList::from(vec![
        Move::Play(30),
        Move::Play(11),
        Move::Play(20),
        Move::Play(10),
        Move::Play(21),
    ]);
    // The key is the rank of the square: 3, 1, 2, 1, 2.
    list.sort_by(|m| match m {
        Move::Play(square) => (*square / 10) as i32,
        Move::Pass => 100,
    });
    assert_eq!(
        list.to_vec(),
        vec![Move::Play(11), Move::Play(10), Move::Play(20), Move::Play(21), Move::Play(30)]
    );
}

#[test]
fn test_movelist_sort_keeps_first_element() {
    let mut list = MoveList::from(vec![Move::Play(1), Move::Play(2)]);
    list.sort_by(|_| 0);
    assert_eq!(list.to_vec(), vec![Move::Play(1), Move::Play(2)]);
}

#[test]
fn test_movelist_filtered() {
    let list = MoveList::from(vec![Move::Play(1), Move::Pass, Move::Play(4), Move::Play(6)]);
    let even = list.filtered(|m| match m {
        Move::Play(square) => *square % 2 == 0,
        Move::Pass => false,
    });
    assert_eq!(even.to_vec(), vec![Move::Play(4), Move::Play(6)]);
    assert_eq!(list.len(), 4);
}

#[test]
fn test_movelist_iterator() {
    let list = MoveList::from(vec![Move::Play(5), Move::Pass]);
    let mut walk = list.iter();
    assert_eq!(walk.next(), Some(Move::Play(5)));
    assert_eq!(walk.next(), Some(Move::Pass));
    assert_eq!(walk.next(), None);
    assert_eq!(walk.next(), None);
}

#[test]
fn test_sort_moves_by_keys() {
    let moves = vec![Move::Play(0), Move::Play(1), Move::Play(2), Move::Play(3)];
    let keys = vec![5, -1, 5, -7];
    assert_eq!(
        sort_moves(&moves, &keys),
        vec![Move::Play(3), Move::Play(1), Move::Play(0), Move::Play(2)]
    );
}

#[test]
fn test_get_move_list() {
    let board = Board::new();
    let list = board.get_move_list().unwrap();
    assert_eq!(list.to_vec(), board.get_moves());
    assert_eq!(list.len(), 4);
    assert!(list.contains(Move::Play(19)));
    assert!(!list.contains(Move::Pass));

    // A position in which black has 34 moves: more than the list holds.
    let board = Board::from_pos(0x5020_2901_0A38_2445, 0x0053_4202_1042_5200, true);
    assert_eq!(board.get_moves().len(), 34);
    assert_eq!(board.move_count(), 34);
    assert!(board.get_move_list().is_none());
}
