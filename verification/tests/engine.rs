use connect_n::game::{Game, PlacementError};

fn default_game() -> Game {
    Game::new(vec!['X', 'O'], 7, 6, 4)
}

#[test]
fn fresh_board_is_empty() {
    let game = default_game();
    assert_eq!(game.rows(), 6);
    assert_eq!(game.cols(), 7);
    assert_eq!(game.connect_length(), 4);
    assert_eq!(game.remaining_cells(), 42);
    assert_eq!(*game.players(), vec!['X', 'O']);
    assert!(game.winning_places().is_empty());
    assert!(!game.is_tie());
    for row in 0..6 {
        for col in 0..7 {
            assert_eq!(game.cell(row, col), ' ');
        }
    }
}

#[test]
fn no_win_on_fresh_board() {
    let mut game = default_game();
    assert!(!game.calculate_match('X'));
    assert!(!game.calculate_match('O'));
    assert!(game.winning_places().is_empty());
}

#[test]
fn gravity_fills_lowest_row_first() {
    let mut game = default_game();
    assert_eq!(game.place(3, 'X'), Ok(()));
    assert_eq!(game.cell(5, 2), 'X');
    assert_eq!(game.place(3, 'O'), Ok(()));
    assert_eq!(game.cell(4, 2), 'O');
    assert_eq!(game.place(3, 'X'), Ok(()));
    assert_eq!(game.cell(3, 2), 'X');
    assert_eq!(game.remaining_cells(), 39);
    assert_eq!(game.cell(5, 3), ' ');
}

#[test]
fn full_column_rejected_without_mutation() {
    let mut game = Game::new(vec!['X', 'O'], 3, 3, 3);
    assert_eq!(game.place(1, 'X'), Ok(()));
    assert_eq!(game.place(1, 'O'), Ok(()));
    assert_eq!(game.place(1, 'X'), Ok(()));
    assert_eq!(game.remaining_cells(), 6);
    assert_eq!(game.place(1, 'O'), Err(PlacementError::ColumnFull));
    assert_eq!(game.remaining_cells(), 6);
    assert_eq!(game.cell(2, 0), 'X');
    assert_eq!(game.cell(1, 0), 'O');
    assert_eq!(game.cell(0, 0), 'X');
}

#[test]
fn out_of_range_column_rejected() {
    let mut game = default_game();
    assert_eq!(game.place(0, 'X'), Err(PlacementError::ColumnOutOfRange));
    assert_eq!(game.place(8, 'X'), Err(PlacementError::ColumnOutOfRange));
    assert_eq!(game.remaining_cells(), 42);
    for row in 0..6 {
        for col in 0..7 {
            assert_eq!(game.cell(row, col), ' ');
        }
    }
}

#[test]
fn vertical_win_in_first_column() {
    let mut game = default_game();
    for turn in 0..4 {
        assert_eq!(game.place(1, 'X'), Ok(()));
        if turn < 3 {
            assert!(!game.calculate_match('X'));
        }
    }
    assert!(game.calculate_match('X'));
    assert_eq!(game.winning_places(), vec![(2, 0), (3, 0), (4, 0), (5, 0)]);
    for (row, col) in game.winning_places() {
        assert_eq!(game.cell(row, col), 'X');
    }
}

#[test]
fn horizontal_win_on_bottom_row() {
    let mut game = Game::new(vec!['X', 'O'], 3, 3, 3);
    assert_eq!(game.place(1, 'X'), Ok(()));
    assert_eq!(game.place(2, 'X'), Ok(()));
    assert_eq!(game.place(3, 'X'), Ok(()));
    assert!(game.calculate_match('X'));
    assert_eq!(game.winning_places(), vec![(2, 0), (2, 1), (2, 2)]);
}

#[test]
fn horizontal_found_before_vertical() {
    let mut game = Game::new(vec!['X', 'O'], 4, 4, 3);
    assert_eq!(game.place(1, 'X'), Ok(()));
    assert_eq!(game.place(2, 'X'), Ok(()));
    assert_eq!(game.place(3, 'X'), Ok(()));
    assert_eq!(game.place(4, 'X'), Ok(()));
    assert_eq!(game.place(4, 'X'), Ok(()));
    assert_eq!(game.place(4, 'X'), Ok(()));
    assert!(game.calculate_match('X'));
    assert_eq!(game.winning_places(), vec![(3, 0), (3, 1), (3, 2)]);
}

#[test]
fn down_right_diagonal_win() {
    let mut game = default_game();
    assert_eq!(game.place(1, 'O'), Ok(()));
    assert_eq!(game.place(1, 'O'), Ok(()));
    assert_eq!(game.place(1, 'O'), Ok(()));
    assert_eq!(game.place(1, 'X'), Ok(()));
    assert_eq!(game.place(2, 'O'), Ok(()));
    assert_eq!(game.place(2, 'O'), Ok(()));
    assert_eq!(game.place(2, 'X'), Ok(()));
    assert_eq!(game.place(3, 'O'), Ok(()));
    assert_eq!(game.place(3, 'X'), Ok(()));
    assert_eq!(game.place(4, 'X'), Ok(()));
    assert!(game.calculate_match('X'));
    assert_eq!(game.winning_places(), vec![(2, 0), (3, 1), (4, 2), (5, 3)]);
}

#[test]
fn down_left_diagonal_win() {
    let mut game = default_game();
    assert_eq!(game.place(1, 'X'), Ok(()));
    assert_eq!(game.place(2, 'O'), Ok(()));
    assert_eq!(game.place(2, 'X'), Ok(()));
    assert_eq!(game.place(3, 'O'), Ok(()));
    assert_eq!(game.place(3, 'O'), Ok(()));
    assert_eq!(game.place(3, 'X'), Ok(()));
    assert_eq!(game.place(4, 'O'), Ok(()));
    assert_eq!(game.place(4, 'O'), Ok(()));
    assert_eq!(game.place(4, 'O'), Ok(()));
    assert_eq!(game.place(4, 'X'), Ok(()));
    assert!(game.calculate_match('X'));
    assert_eq!(game.winning_places(), vec![(2, 3), (3, 2), (4, 1), (5, 0)]);
}

#[test]
fn full_board_without_line_is_tie() {
    let mut game = default_game();
    for row in (0..6).rev() {
        for col in 0..7 {
            let symbol = if (2 * row + col) % 4 < 2 { 'X' } else { 'O' };
            assert_eq!(game.place(col + 1, symbol), Ok(()));
        }
    }
    assert_eq!(game.remaining_cells(), 0);
    assert!(!game.calculate_match('X'));
    assert!(!game.calculate_match('O'));
    assert!(game.is_tie());
}

#[test]
fn tie_needs_empty_winning_line_and_full_board() {
    let mut game = Game::new(vec!['X', 'O'], 3, 3, 3);
    assert!(!game.is_tie());
    for col in [1, 2] {
        assert_eq!(game.place(col, 'X'), Ok(()));
        assert_eq!(game.place(col, 'O'), Ok(()));
        assert_eq!(game.place(col, 'X'), Ok(()));
    }
    assert_eq!(game.place(3, 'O'), Ok(()));
    assert_eq!(game.place(3, 'X'), Ok(()));
    assert!(!game.is_tie());
    assert_eq!(game.place(3, 'O'), Ok(()));
    assert_eq!(game.remaining_cells(), 0);
    assert!(!game.calculate_match('X'));
    assert!(!game.calculate_match('O'));
    assert!(game.is_tie());
}

#[test]
fn custom_board_dimensions() {
    let mut game = Game::new(vec!['A', 'B', 'C'], 10, 8, 5);
    assert_eq!(game.rows(), 8);
    assert_eq!(game.cols(), 10);
    assert_eq!(game.remaining_cells(), 80);
    for _ in 0..5 {
        assert_eq!(game.place(10, 'C'), Ok(()));
    }
    assert!(game.calculate_match('C'));
    assert_eq!(
        game.winning_places(),
        vec![(3, 9), (4, 9), (5, 9), (6, 9), (7, 9)]
    );
}
