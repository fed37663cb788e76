use tic_tac_toe::{Cell, Game, Winner};

fn place(game: &mut Game, idx: u8, player: Cell) {
    assert!(game.mark_player(idx / 3, idx % 3, player));
}

fn other(player: Cell) -> Cell {
    match player {
        Cell::X => Cell::O,
        Cell::O => Cell::X,
        Cell::Empty => Cell::Empty,
    }
}

#[test]
fn winner_new_carries_its_fields() {
    let w = Winner::new(true, vec![0, 1, 2], Cell::X);
    assert!(w.won);
    assert_eq!(w.line, vec![0, 1, 2]);
    assert_eq!(w.player, Cell::X);
}

#[test]
fn no_conclusion_before_five_moves() {
    let mut game = Game::new();
    place(&mut game, 0, Cell::X);
    place(&mut game, 1, Cell::X);
    place(&mut game, 2, Cell::X);
    place(&mut game, 3, Cell::O);
    let w = game.find_winner(Cell::X);
    assert!(!w.won);
    assert_eq!(w.line.len(), 0);
    assert_eq!(w.player, Cell::X);
}

#[test]
fn first_row_win_reports_its_indices() {
    let mut game = Game::new();
    place(&mut game, 0, Cell::X);
    place(&mut game, 1, Cell::X);
    place(&mut game, 2, Cell::X);
    place(&mut game, 3, Cell::O);
    place(&mut game, 4, Cell::O);
    let w = game.find_winner(Cell::X);
    assert!(w.won);
    assert_eq!(w.player, Cell::X);
    assert_eq!(w.line, vec![0, 1, 2]);
}

#[test]
fn column_win_reports_its_indices() {
    let mut game = Game::new();
    place(&mut game, 1, Cell::X);
    place(&mut game, 4, Cell::X);
    place(&mut game, 7, Cell::X);
    place(&mut game, 0, Cell::O);
    place(&mut game, 2, Cell::O);
    let w = game.find_winner(Cell::X);
    assert!(w.won);
    assert_eq!(w.player, Cell::X);
    assert_eq!(w.line, vec![1, 4, 7]);
}

#[test]
fn anti_diagonal_win_reports_its_indices() {
    let mut game = Game::new();
    place(&mut game, 2, Cell::O);
    place(&mut game, 4, Cell::O);
    place(&mut game, 6, Cell::O);
    place(&mut game, 0, Cell::X);
    place(&mut game, 1, Cell::X);
    let w = game.find_winner(Cell::O);
    assert!(w.won);
    assert_eq!(w.player, Cell::O);
    assert_eq!(w.line, vec![2, 4, 6]);
}

#[test]
fn main_diagonal_win_reports_its_indices() {
    let mut game = Game::new();
    place(&mut game, 0, Cell::O);
    place(&mut game, 4, Cell::O);
    place(&mut game, 8, Cell::O);
    place(&mut game, 1, Cell::X);
    place(&mut game, 2, Cell::X);
    let w = game.find_winner(Cell::O);
    assert!(w.won);
    assert_eq!(w.player, Cell::O);
    assert_eq!(w.line, vec![0, 4, 8]);
}

#[test]
fn rows_are_scanned_before_columns() {
    let mut game = Game::new();
    place(&mut game, 0, Cell::X);
    place(&mut game, 1, Cell::X);
    place(&mut game, 2, Cell::X);
    place(&mut game, 3, Cell::X);
    place(&mut game, 6, Cell::X);
    let w = game.find_winner(Cell::X);
    assert!(w.won);
    assert_eq!(w.line, vec![0, 1, 2]);
}

#[test]
fn full_board_without_a_line_is_a_draw_for_both() {
    let mut game = Game::new();
    let marks = [
        Cell::X,
        Cell::O,
        Cell::X,
        Cell::X,
        Cell::O,
        Cell::O,
        Cell::O,
        Cell::X,
        Cell::X,
    ];
    for (i, p) in marks.iter().enumerate() {
        place(&mut game, i as u8, *p);
    }
    for player in [Cell::X, Cell::O] {
        let w = game.find_winner(player);
        assert!(w.won);
        assert_eq!(w.player, Cell::Empty);
        assert_eq!(w.line.len(), 0);
    }
}

#[test]
fn ongoing_game_with_five_marks_is_not_concluded() {
    let mut game = Game::new();
    place(&mut game, 0, Cell::X);
    place(&mut game, 1, Cell::O);
    place(&mut game, 4, Cell::X);
    place(&mut game, 2, Cell::O);
    place(&mut game, 6, Cell::X);
    let w = game.find_winner(Cell::O);
    assert!(!w.won);
    assert_eq!(w.player, Cell::O);
    assert_eq!(w.line.len(), 0);
}

#[test]
fn best_move_is_never_an_occupied_cell() {
    let mut game = Game::new();
    place(&mut game, 4, Cell::X);
    place(&mut game, 0, Cell::O);
    place(&mut game, 8, Cell::X);
    let idx = game.find_best_move(Cell::O);
    assert!(idx < 9);
    assert_eq!(game.cells()[idx as usize], Cell::Empty);
}

#[test]
fn blocking_move_is_forced() {
    let mut game = Game::new();
    place(&mut game, 0, Cell::X);
    place(&mut game, 1, Cell::X);
    place(&mut game, 4, Cell::O);
    assert_eq!(game.find_best_move(Cell::O), 2);
}

#[test]
fn first_of_several_winning_cells_is_picked() {
    let mut game = Game::new();
    place(&mut game, 0, Cell::X);
    place(&mut game, 1, Cell::X);
    place(&mut game, 3, Cell::O);
    place(&mut game, 4, Cell::O);
    assert_eq!(game.find_best_move(Cell::O), 2);
}

#[test]
fn optimal_play_from_blank_board_ends_in_a_draw() {
    let mut game = Game::new();
    let mut current = Cell::X;
    for _ in 0..9 {
        let idx = game.find_best_move(current);
        place(&mut game, idx, current);
        let w = game.find_winner(current);
        if w.won {
            assert_eq!(w.player, Cell::Empty);
        }
        current = other(current);
    }
    for player in [Cell::X, Cell::O] {
        let w = game.find_winner(player);
        assert!(w.won);
        assert_eq!(w.player, Cell::Empty);
        assert_eq!(w.line.len(), 0);
    }
}

#[test]
fn evaluate_agrees_with_find_winner_on_full_boards() {
    let game = Game::new();
    let x_won = vec![
        Cell::X,
        Cell::X,
        Cell::X,
        Cell::O,
        Cell::O,
        Cell::X,
        Cell::O,
        Cell::X,
        Cell::O,
    ];
    assert_eq!(game.evaluate(&x_won, Cell::X), 1);
    assert_eq!(game.evaluate(&x_won, Cell::O), -1);
    let drawn = vec![
        Cell::X,
        Cell::O,
        Cell::X,
        Cell::X,
        Cell::O,
        Cell::O,
        Cell::O,
        Cell::X,
        Cell::X,
    ];
    assert_eq!(game.evaluate(&drawn, Cell::X), 0);
    assert_eq!(game.evaluate(&drawn, Cell::O), 0);

    let mut won_game = Game::new();
    for (i, p) in x_won.iter().enumerate() {
        place(&mut won_game, i as u8, *p);
    }
    let w = won_game.find_winner(Cell::X);
    assert!(w.won);
    assert_eq!(w.player, Cell::X);

    let mut drawn_game = Game::new();
    for (i, p) in drawn.iter().enumerate() {
        place(&mut drawn_game, i as u8, *p);
    }
    for player in [Cell::X, Cell::O] {
        let w = drawn_game.find_winner(player);
        assert!(w.won);
        assert_eq!(w.player, Cell::Empty);
    }
}

#[test]
fn immediate_win_is_taken() {
    let mut game = Game::new();
    place(&mut game, 0, Cell::X);
    place(&mut game, 1, Cell::X);
    place(&mut game, 3, Cell::O);
    place(&mut game, 4, Cell::O);
    assert_eq!(game.find_best_move(Cell::X), 2);
}
