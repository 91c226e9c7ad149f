use square_game::board::{Board, Meal, Player};

#[test]
fn new_board_keeps_lengths_and_turn() {
    let board = Board::new(vec![3, 0, 7], Player::BLUE);
    assert_eq!(board.rows.len(), 3);
    assert_eq!(board.rows[0].orig_length, 3);
    assert_eq!(board.rows[1].orig_length, 0);
    assert_eq!(board.rows[2].orig_length, 7);
    assert_eq!(board.rows[0].get_remaining(), 3);
    assert!(board.rows.iter().all(|r| r.eaten_squares.is_empty()));
    assert_eq!(board.current_turn, Player::BLUE);
}

#[test]
fn eat_records_the_eater_and_keeps_the_turn() {
    let mut board = Board::new(vec![2, 1], Player::RED);
    board.eat(Meal { row_y: 0, amount: 1 });
    board.next_turn();
    assert_eq!(board.rows[0].get_remaining(), 1);
    assert_eq!(board.rows[0].eaten_squares, vec![Player::RED]);
    assert_eq!(board.rows[1].get_remaining(), 1);
    assert!(board.rows[1].eaten_squares.is_empty());
    assert_eq!(board.current_turn, Player::BLUE);
}

#[test]
fn eat_appends_one_entry_per_square() {
    let mut board = Board::new(vec![5], Player::BLUE);
    board.eat(Meal { row_y: 0, amount: 3 });
    assert_eq!(board.rows[0].get_remaining(), 2);
    assert_eq!(board.rows[0].eaten_squares, vec![Player::BLUE; 3]);
}

#[test]
fn next_turn_toggles_both_ways() {
    let mut board = Board::new(vec![1], Player::RED);
    board.next_turn();
    assert_eq!(board.current_turn, Player::BLUE);
    board.next_turn();
    assert_eq!(board.current_turn, Player::RED);
}

#[test]
fn is_empty_on_all_zero_board() {
    let board = Board::new(vec![0, 0, 0, 0, 0], Player::RED);
    assert!(board.is_empty());
    assert_eq!(board.find_optimal_move(), None);
}

#[test]
fn is_empty_on_board_with_no_rows() {
    let board = Board::new(vec![], Player::RED);
    assert!(board.is_empty());
}

#[test]
fn is_empty_is_false_while_a_square_is_left() {
    let mut board = Board::new(vec![0, 1], Player::RED);
    assert!(!board.is_empty());
    board.eat(Meal { row_y: 1, amount: 1 });
    assert!(board.is_empty());
}

#[test]
fn random_board_respects_bounds_and_turn() {
    let board = Board::new(vec![], Player::RED);
    assert!(board.is_empty());
    for _ in 0..20 {
        let board = Board::random(6, 10, Player::BLUE);
        assert_eq!(board.rows.len(), 6);
        assert_eq!(board.current_turn, Player::BLUE);
        for row in &board.rows {
            assert!((1..=10).contains(&row.orig_length));
            assert!(row.eaten_squares.is_empty());
        }
    }
}

#[test]
fn random_board_with_unit_maximum_is_all_ones() {
    let board = Board::random(8, 1, Player::RED);
    assert_eq!(board.rows.len(), 8);
    for row in &board.rows {
        assert_eq!(row.orig_length, 1);
    }
}
