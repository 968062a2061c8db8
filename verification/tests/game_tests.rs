use minesweeper::{
    flood_fill, try_generate, Cell, ConfigurationError, Direction, Game, GameStatus,
};

/// A 3x3 layout with one corner mine whose non-zero values wall the corner
/// off: the connected zero region seen from (2,2) is the right column and the
/// bottom row, five cells.  Its centre value ignores the orthogonal adjacency
/// rule, so only the flood fill itself, which reads values but never checks
/// them, is exercised with it.
fn bordered_field() -> Vec<Vec<i8>> {
    vec![vec![-1, 1, 0], vec![1, 1, 0], vec![0, 0, 0]]
}

/// A lawful 3x3 field with one corner mine: every non-mine value is the exact
/// orthogonal adjacency count, and the zero region seen from (2,2) has six
/// cells.
fn example_field() -> Vec<Vec<i8>> {
    vec![vec![-1, 1, 0], vec![1, 0, 0], vec![0, 0, 0]]
}

fn hidden_board(n: usize) -> Vec<Vec<Cell>> {
    vec![vec![Cell::Hidden; n]; n]
}

/// Recompute the orthogonal adjacency count of a layout in plain code.
fn adj(mines: &[Vec<i8>], r: usize, c: usize) -> i8 {
    let n = mines.len();
    let mut cnt = 0;
    if r > 0 && mines[r - 1][c] == -1 {
        cnt += 1;
    }
    if r + 1 < n && mines[r + 1][c] == -1 {
        cnt += 1;
    }
    if c > 0 && mines[r][c - 1] == -1 {
        cnt += 1;
    }
    if c + 1 < n && mines[r][c + 1] == -1 {
        cnt += 1;
    }
    cnt
}

#[test]
fn generated_field_has_exact_mines_and_counts() {
    for (size, mines_wanted) in [(1usize, 1usize), (4, 4), (5, 2), (3, 9)] {
        let field = try_generate(size, mines_wanted).unwrap();
        assert_eq!(field.len(), size);
        let mut mine_cells = 0;
        for r in 0..size {
            assert_eq!(field[r].len(), size);
            for c in 0..size {
                if field[r][c] == -1 {
                    mine_cells += 1;
                } else {
                    assert_eq!(field[r][c], adj(&field, r, c), "cell ({r},{c})");
                }
            }
        }
        assert_eq!(mine_cells, mines_wanted);
    }
}

#[test]
fn generator_rejects_bad_configurations() {
    assert_eq!(try_generate(0, 1), Err(ConfigurationError::InvalidSize));
    assert_eq!(try_generate(2, 5), Err(ConfigurationError::InvalidMineCount));
    assert_eq!(try_generate(3, 0), Err(ConfigurationError::InvalidMineCount));
}

#[test]
fn from_field_rejects_malformed_layouts() {
    assert!(matches!(
        Game::from_field(vec![]),
        Err(ConfigurationError::InvalidField)
    ));
    assert!(matches!(
        Game::from_field(vec![vec![0, 0], vec![0]]),
        Err(ConfigurationError::InvalidField)
    ));
    assert!(matches!(
        Game::from_field(vec![vec![5]]),
        Err(ConfigurationError::InvalidField)
    ));
    // a value off by one from the true adjacency count is refused too
    assert!(matches!(
        Game::from_field(bordered_field()),
        Err(ConfigurationError::InvalidField)
    ));
    assert!(Game::from_field(vec![vec![-1]]).is_ok());
    assert!(Game::from_field(example_field()).is_ok());
}

#[test]
fn flood_fill_reveals_exact_zero_region() {
    let mines = bordered_field();
    let mut board = hidden_board(3);
    let count = flood_fill(&mines, &mut board, 2, 2);
    assert_eq!(count, 5);
    let region = [(2, 2), (2, 1), (2, 0), (1, 2), (0, 2)];
    for r in 0..3 {
        for c in 0..3 {
            if region.contains(&(r, c)) {
                assert_eq!(board[r][c], Cell::Num(0), "cell ({r},{c})");
            } else {
                assert_eq!(board[r][c], Cell::Hidden, "cell ({r},{c})");
            }
        }
    }
}

#[test]
fn flood_fill_on_mine_changes_nothing() {
    let mines = bordered_field();
    let mut board = hidden_board(3);
    let count = flood_fill(&mines, &mut board, 0, 0);
    assert_eq!(count, 0);
    for r in 0..3 {
        for c in 0..3 {
            assert_eq!(board[r][c], Cell::Hidden);
        }
    }
}

#[test]
fn reveal_of_zero_cell_cascades_and_stops_at_border() {
    let mut game = Game::from_field(example_field()).unwrap();
    assert_eq!(game.get_hidden_count(), 9);
    game.reveal_cell(2, 2);
    assert_eq!(game.get_hidden_count(), 3);
    assert_eq!(game.get_status(), GameStatus::Progress);
    assert_eq!(game.cell_at(2, 0), Cell::Num(0));
    assert_eq!(game.cell_at(1, 2), Cell::Num(0));
    assert_eq!(game.cell_at(1, 1), Cell::Num(0));
    assert_eq!(game.cell_at(0, 1), Cell::Hidden);
    assert_eq!(game.cell_at(1, 0), Cell::Hidden);
    assert_eq!(game.cell_at(0, 0), Cell::Hidden);
}

#[test]
fn reveal_is_idempotent_on_revealed_cells() {
    let mut game = Game::from_field(example_field()).unwrap();
    game.reveal_cell(2, 2);
    let hidden = game.get_hidden_count();
    game.reveal_cell(2, 2);
    assert_eq!(game.get_hidden_count(), hidden);
    assert_eq!(game.cell_at(2, 2), Cell::Num(0));
    assert_eq!(game.get_status(), GameStatus::Progress);
}

#[test]
fn revealing_a_mine_loses_and_exposes_all_mines() {
    let mut game = Game::from_field(example_field()).unwrap();
    game.reveal_cell(0, 1);
    assert_eq!(game.cell_at(0, 1), Cell::Num(1));
    let hidden = game.get_hidden_count();
    assert_eq!(hidden, 8);
    game.reveal_cell(0, 0);
    assert_eq!(game.get_status(), GameStatus::Lost);
    assert_eq!(game.cell_at(0, 0), Cell::Mine);
    assert_eq!(game.get_hidden_count(), hidden);
    // the only mine is exposed; hidden non-mine cells stay hidden
    assert_eq!(game.cell_at(1, 0), Cell::Hidden);
    assert_eq!(game.cell_at(2, 2), Cell::Hidden);
    assert_eq!(game.cell_at(0, 1), Cell::Num(1));
}

#[test]
fn lost_game_ignores_further_commands() {
    let mut game = Game::from_field(example_field()).unwrap();
    game.reveal_cell(0, 0);
    assert_eq!(game.get_status(), GameStatus::Lost);
    let hidden = game.get_hidden_count();
    game.reveal_cell(2, 2);
    game.mark_flag(1, 1);
    assert_eq!(game.get_status(), GameStatus::Lost);
    assert_eq!(game.get_hidden_count(), hidden);
    assert_eq!(game.get_flag_count(), 0);
    assert_eq!(game.cell_at(2, 2), Cell::Hidden);
}

#[test]
fn hidden_count_falls_monotonically_and_zero_wins() {
    // a field without mines: every reveal floods the whole board
    let mut game = Game::from_field(vec![vec![0, 0], vec![0, 0]]).unwrap();
    assert_eq!(game.get_mine_count(), 0);
    let mut last = game.get_hidden_count();
    assert_eq!(last, 4);
    game.reveal_cell(0, 0);
    assert!(game.get_hidden_count() <= last);
    last = game.get_hidden_count();
    assert_eq!(last, 0);
    assert_eq!(game.get_status(), GameStatus::Won);
}

#[test]
fn flagging_within_budget_and_the_cap_noop() {
    // one mine, so the flag budget is one
    let field = vec![vec![-1, 1], vec![1, 0]];
    let mut game = Game::from_field(field).unwrap();
    assert_eq!(game.get_mine_count(), 1);
    assert!(game.can_flag());
    game.mark_flag(1, 1);
    assert_eq!(game.get_flag_count(), 1);
    assert!(!game.can_flag());
    assert_eq!(game.cell_at(1, 1), Cell::Marked);
    assert_eq!(game.get_hidden_count(), 4);
    // the budget is spent: flagging another hidden cell changes nothing
    game.mark_flag(1, 0);
    assert_eq!(game.get_flag_count(), 1);
    assert_eq!(game.cell_at(1, 0), Cell::Hidden);
    assert_eq!(game.get_hidden_count(), 4);
    assert_eq!(game.get_status(), GameStatus::Progress);
    // unflagging still works at the cap
    game.mark_flag(1, 1);
    assert_eq!(game.get_flag_count(), 0);
    assert_eq!(game.cell_at(1, 1), Cell::Hidden);
    assert_eq!(game.get_hidden_count(), 4);
}

#[test]
fn flag_count_never_exceeds_mine_count() {
    let mut game = Game::new(2);
    for r in 0..2 {
        for c in 0..2 {
            game.mark_flag(r, c);
            assert!(game.get_flag_count() <= game.get_mine_count());
        }
    }
}

#[test]
fn revealing_a_flagged_cell_unflags_first() {
    let mut game = Game::from_field(example_field()).unwrap();
    game.mark_flag(2, 2);
    assert_eq!(game.get_flag_count(), 1);
    game.reveal_cell(2, 2);
    assert_eq!(game.get_flag_count(), 0);
    assert_eq!(game.cell_at(2, 2), Cell::Num(0));
    assert_eq!(game.get_hidden_count(), 3);
}

#[test]
fn flags_block_the_cascade() {
    let mut game = Game::from_field(example_field()).unwrap();
    game.mark_flag(1, 1);
    game.reveal_cell(2, 2);
    // the flagged zero cell is not revealed, so five cells open, not six
    assert_eq!(game.get_hidden_count(), 4);
    assert_eq!(game.cell_at(1, 1), Cell::Marked);
    assert_eq!(game.get_flag_count(), 1);
}

#[test]
fn flag_does_not_change_hidden_count() {
    let mut game = Game::from_field(example_field()).unwrap();
    let hidden = game.get_hidden_count();
    game.mark_flag(1, 1);
    assert_eq!(game.get_hidden_count(), hidden);
    game.mark_flag(1, 1);
    assert_eq!(game.get_hidden_count(), hidden);
}

#[test]
fn reset_restores_a_fresh_shape() {
    let mut game = Game::new(4);
    game.process_char('\n');
    game.process_char('f');
    game.reset_game();
    assert_eq!(game.get_size(), 4);
    assert_eq!(game.get_mine_count(), 4);
    assert_eq!(game.get_flag_count(), 0);
    assert_eq!(game.get_hidden_count(), 16);
    assert_eq!(game.get_status(), GameStatus::Progress);
    assert_eq!(game.get_curr_cell_pos().row, 0);
    assert_eq!(game.get_curr_cell_pos().col, 0);
    for r in 0..4 {
        for c in 0..4 {
            assert_eq!(game.cell_at(r, c), Cell::Hidden);
        }
    }
}

#[test]
fn cursor_moves_clamp_at_the_edges() {
    let mut game = Game::new(2);
    assert_eq!(game.get_curr_cell_pos().row, 0);
    game.move_cursor(Direction::Up);
    assert_eq!(game.get_curr_cell_pos().row, 0);
    game.move_cursor(Direction::Left);
    assert_eq!(game.get_curr_cell_pos().col, 0);
    game.move_cursor(Direction::Right);
    assert_eq!(game.get_curr_cell_pos().col, 1);
    game.move_cursor(Direction::Right);
    assert_eq!(game.get_curr_cell_pos().col, 1);
    game.move_cursor(Direction::Down);
    game.move_cursor(Direction::Down);
    assert_eq!(game.get_curr_cell_pos().row, 1);
}

#[test]
fn process_char_drives_reveal_and_flag_at_the_cursor() {
    let mut game = Game::from_field(example_field()).unwrap();
    game.process_char('f');
    assert_eq!(game.cell_at(0, 0), Cell::Marked);
    game.process_char('f');
    assert_eq!(game.cell_at(0, 0), Cell::Hidden);
    game.move_cursor(Direction::Right);
    game.process_char('\n');
    assert_eq!(game.cell_at(0, 1), Cell::Num(1));
    game.process_char('x');
    assert_eq!(game.get_hidden_count(), 8);
}

#[test]
fn icons_name_the_five_counts() {
    assert_eq!(Cell::get_icon(0), "0");
    assert_eq!(Cell::get_icon(1), "1");
    assert_eq!(Cell::get_icon(2), "2");
    assert_eq!(Cell::get_icon(3), "3");
    assert_eq!(Cell::get_icon(4), "4");
}

#[test]
fn all_mines_field_loses_on_any_reveal() {
    let field = try_generate(2, 4).unwrap();
    for row in &field {
        for &v in row {
            assert_eq!(v, -1);
        }
    }
    let mut game = Game::from_field(field).unwrap();
    game.reveal_cell(1, 0);
    assert_eq!(game.get_status(), GameStatus::Lost);
    for r in 0..2 {
        for c in 0..2 {
            assert_eq!(game.cell_at(r, c), Cell::Mine);
        }
    }
}
