use match3::board::Board;
use match3::cursor::{Direction, InputAction, KeyInput};
use match3::game::Game;
use match3::random::Random;
use match3::{BOARD_HEIGHT, BOARD_WIDTH, GEM_COUNT};

/// A board with no run and no adjacent equal cells: kinds 3 and 4 alternate.
fn checker() -> Board {
    let mut b = [[0u8; BOARD_HEIGHT]; BOARD_WIDTH];
    for c in 0..BOARD_WIDTH {
        for r in 0..BOARD_HEIGHT {
            b[c][r] = 3 + ((c + r) % 2) as u8;
        }
    }
    b
}

/// A full board on which no exchange of adjacent cells makes a match.
fn stuck() -> Board {
    let mut b = [[0u8; BOARD_HEIGHT]; BOARD_WIDTH];
    for c in 0..BOARD_WIDTH {
        for r in 0..BOARD_HEIGHT {
            b[c][r] = ((c + r) % 7 + 1) as u8;
        }
    }
    b
}

fn has_run(b: &Board) -> bool {
    for c in 0..BOARD_WIDTH {
        for r in 0..BOARD_HEIGHT {
            let v = b[c][r];
            if v == 0 {
                continue;
            }
            if r + 2 < BOARD_HEIGHT && b[c][r + 1] == v && b[c][r + 2] == v {
                return true;
            }
            if c + 2 < BOARD_WIDTH && b[c + 1][r] == v && b[c + 2][r] == v {
                return true;
            }
        }
    }
    false
}

#[test]
fn score_of_run_lengths() {
    let expected = [(3, 3), (4, 7), (5, 12), (6, 18), (7, 25), (8, 33)];
    for (n, s) in expected {
        assert_eq!(Game::calculate_score(n), s);
    }
    assert_eq!(Game::calculate_score(0), 0);
    assert_eq!(Game::calculate_score(2), 0);
}

#[test]
fn score_matches_clears_runs_and_is_idempotent() {
    let mut b = checker();
    for r in 0..3 {
        b[0][r] = 1;
    }
    for c in 2..6 {
        b[c][7] = 2;
    }
    let mut g = Game::from_board(1, b);
    g.score_matches();
    let after = g.get_board();
    assert_eq!(g.get_score(), 3 + 7);
    for r in 0..3 {
        assert_eq!(after[0][r], 0);
    }
    for c in 2..6 {
        assert_eq!(after[c][7], 0);
    }
    assert_eq!(after[0][3], b[0][3]);
    assert_eq!(after[1][7], b[1][7]);
    assert!(!has_run(&after));
    g.score_matches();
    assert_eq!(g.get_board(), after);
    assert_eq!(g.get_score(), 10);
}

#[test]
fn crossing_runs_score_both_and_clear_shared_cell_once() {
    let mut b = checker();
    for r in 2..5 {
        b[3][r] = 5;
    }
    for c in 3..6 {
        b[c][4] = 5;
    }
    let mut g = Game::from_board(1, b);
    let marks = g.calculate_marks();
    assert!(marks.vertical[3][4] && marks.horizontal[3][4]);
    assert!(marks.vertical[3][2] && !marks.horizontal[3][2]);
    assert!(!marks.vertical[5][4] && marks.horizontal[5][4]);
    assert!(!marks.vertical[0][0] && !marks.horizontal[0][0]);
    assert_eq!(g.get_score(), 6);
    g.remove_marked(marks);
    let after = g.get_board();
    for r in 2..5 {
        assert_eq!(after[3][r], 0);
    }
    for c in 3..6 {
        assert_eq!(after[c][4], 0);
    }
    assert_eq!(after[2][4], b[2][4]);
}

#[test]
fn full_column_run_scores_eight() {
    let mut b = checker();
    for r in 0..BOARD_HEIGHT {
        b[6][r] = 7;
    }
    let mut g = Game::from_board(1, b);
    g.score_matches();
    assert_eq!(g.get_score(), 33);
    assert!(g.get_board()[6].iter().all(|&v| v == 0));
}

#[test]
fn empty_cells_never_match() {
    let g = Game::from_board(1, [[0u8; BOARD_HEIGHT]; BOARD_WIDTH]);
    assert!(!g.check_for_match(0, 0));
    assert!(!g.check_for_match(4, 4));
}

#[test]
fn check_for_match_windows_and_bounds() {
    let mut b = checker();
    b[2][3] = 6;
    b[3][3] = 6;
    b[4][3] = 6;
    let g = Game::from_board(1, b);
    assert!(g.check_for_match(2, 3));
    assert!(g.check_for_match(3, 3));
    assert!(g.check_for_match(4, 3));
    assert!(!g.check_for_match(5, 3));
    assert!(!g.check_for_match(3, 4));
    assert!(!g.check_for_match(BOARD_WIDTH, 0));
    assert!(!g.check_for_match(0, BOARD_HEIGHT));
}

#[test]
fn drop_step_moves_everything_above_lowest_gap() {
    let mut b = checker();
    b[0] = [1, 2, 0, 0, 3, 4, 5, 6];
    b[1] = [1, 2, 0, 3, 0, 4, 5, 6];
    let mut g = Game::from_board(1, b);
    assert!(g.drop_step());
    let after = g.get_board();
    assert_eq!(after[0], [0, 1, 2, 0, 3, 4, 5, 6]);
    assert_eq!(after[1], [0, 1, 2, 0, 3, 4, 5, 6]);
    assert_eq!(after[2], b[2]);
}

#[test]
fn drop_step_on_gap_free_board_reports_nothing() {
    let mut b = checker();
    b[0] = [0, 0, 0, 1, 2, 1, 2, 1];
    let mut g = Game::from_board(1, b);
    assert!(!g.drop_step());
    assert_eq!(g.get_board(), b);
}

#[test]
fn repeated_drop_steps_settle_every_column() {
    let mut b = [[0u8; BOARD_HEIGHT]; BOARD_WIDTH];
    b[0] = [1, 0, 2, 0, 3, 0, 4, 0];
    b[3] = [5, 6, 7, 0, 0, 0, 0, 0];
    b[7] = [1, 0, 0, 0, 0, 0, 0, 2];
    let mut g = Game::from_board(1, b);
    let mut steps = 0;
    while g.drop_step() {
        steps += 1;
        assert!(steps < 100);
    }
    let after = g.get_board();
    for c in 0..BOARD_WIDTH {
        for r in 0..BOARD_HEIGHT - 1 {
            assert!(!(after[c][r] != 0 && after[c][r + 1] == 0));
        }
    }
    assert_eq!(after[0], [0, 0, 0, 0, 1, 2, 3, 4]);
    assert_eq!(after[3], [0, 0, 0, 0, 0, 5, 6, 7]);
    assert_eq!(after[7], [0, 0, 0, 0, 0, 0, 1, 2]);
}

#[test]
fn fill_step_writes_only_empty_top_cells() {
    let mut g = Game::new(1234);
    assert!(g.fill_step());
    let after = g.get_board();
    let mut rng = Random::new(1234);
    for c in 0..BOARD_WIDTH {
        let v = after[c][0];
        assert!(v >= 1 && v as usize <= GEM_COUNT);
        assert_eq!(v as u64, rng.range(0, GEM_COUNT as u64) + 1);
        for r in 1..BOARD_HEIGHT {
            assert_eq!(after[c][r], 0);
        }
    }
    assert_eq!(after.map(|col| col[0]), [1, 4, 6, 6, 3, 6, 6, 5]);
}

#[test]
fn fill_step_skips_occupied_tops() {
    let mut b = checker();
    b[2][0] = 0;
    b[5][0] = 0;
    let mut g = Game::from_board(1234, b);
    assert!(g.fill_step());
    let after = g.get_board();
    assert_eq!(after[2][0], 1);
    assert_eq!(after[5][0], 4);
    for c in 0..BOARD_WIDTH {
        if c != 2 && c != 5 {
            assert_eq!(after[c], b[c]);
        }
    }
    let mut full = Game::from_board(1234, checker());
    assert!(!full.fill_step());
    assert_eq!(full.get_board(), checker());
}

#[test]
fn game_over_on_stuck_board() {
    let mut g = Game::from_board(1, stuck());
    g.do_action(InputAction::Move(Direction::Right));
    g.do_action(InputAction::Move(Direction::Down));
    let before = g.get_cursor().location();
    g.check_for_game_over();
    assert!(!g.is_alive());
    assert_eq!(g.get_cursor().location(), before);
    assert_eq!(g.get_board(), stuck());
}

#[test]
fn game_goes_on_when_a_move_exists() {
    let mut b = stuck();
    // (0,0) holds 1; put 1s at (1,1) and (2,0): moving (1,1) up makes a row of three.
    b[1][1] = 1;
    b[2][0] = 1;
    b[1][0] = 6;
    let mut g = Game::from_board(1, b);
    g.do_action(InputAction::Move(Direction::Down));
    g.check_for_game_over();
    assert!(g.is_alive());
    assert_eq!(g.get_cursor().location(), (0, 1));
    assert_eq!(g.get_board(), b);
}

#[test]
fn cursor_moves_and_clamps() {
    let mut g = Game::from_board(1, checker());
    g.do_action(InputAction::Move(Direction::Up));
    g.do_action(InputAction::Move(Direction::Left));
    assert_eq!(g.get_cursor().location(), (0, 0));
    for _ in 0..20 {
        g.do_action(InputAction::Move(Direction::Right));
        g.do_action(InputAction::Move(Direction::Down));
    }
    assert_eq!(g.get_cursor().location(), (BOARD_WIDTH - 1, BOARD_HEIGHT - 1));
    assert_eq!(g.get_board(), checker());
}

#[test]
fn select_toggles() {
    let mut g = Game::from_board(1, checker());
    assert!(!g.is_selected());
    g.do_action(InputAction::Select);
    assert!(g.is_selected());
    g.do_action(InputAction::Select);
    assert!(!g.is_selected());
    assert_eq!(g.get_cursor().location(), (0, 0));
}

#[test]
fn swap_without_match_is_undone() {
    let mut g = Game::from_board(1, stuck());
    g.do_action(InputAction::Move(Direction::Right));
    g.do_action(InputAction::Select);
    g.do_action(InputAction::Move(Direction::Down));
    assert_eq!(g.get_board(), stuck());
    assert!(g.is_selected());
    assert_eq!(g.get_cursor().location(), (1, 0));
}

#[test]
fn swap_off_the_board_is_ignored() {
    let mut b = checker();
    b[0][1] = 2;
    b[0][2] = 2;
    b[0][0] = 2;
    let mut g = Game::from_board(1, b);
    g.do_action(InputAction::Select);
    g.do_action(InputAction::Move(Direction::Up));
    assert!(g.is_selected());
    assert_eq!(g.get_board(), b);
    assert_eq!(g.get_cursor().location(), (0, 0));
}

#[test]
fn swap_with_match_follows_the_gem() {
    let mut b = checker();
    // Column 0 rows 1..3 hold 1, 1 at rows 1 and 2; row 3 gets a 1 from (1,3).
    b[0][1] = 1;
    b[0][2] = 1;
    b[1][3] = 1;
    let mut g = Game::from_board(1, b);
    g.do_action(InputAction::Move(Direction::Down));
    g.do_action(InputAction::Move(Direction::Down));
    g.do_action(InputAction::Move(Direction::Down));
    g.do_action(InputAction::Move(Direction::Right));
    assert_eq!(g.get_cursor().location(), (1, 3));
    g.do_action(InputAction::Select);
    g.do_action(InputAction::Move(Direction::Left));
    let after = g.get_board();
    assert_eq!(after[0][3], 1);
    assert_eq!(after[1][3], b[0][3]);
    assert!(!g.is_selected());
    assert_eq!(g.get_cursor().location(), (0, 3));
    assert!(g.check_for_match(0, 3));
}

#[test]
fn keys_map_to_actions() {
    let mut g = Game::from_board(1, checker());
    g.handle_input(KeyInput::Char('d'));
    g.handle_input(KeyInput::Char('s'));
    assert_eq!(g.get_cursor().location(), (1, 1));
    g.handle_input(KeyInput::Arrow(Direction::Left));
    g.handle_input(KeyInput::Char('w'));
    assert_eq!(g.get_cursor().location(), (0, 0));
    g.handle_input(KeyInput::Char(' '));
    assert!(g.is_selected());
    g.handle_input(KeyInput::Char('\n'));
    assert!(!g.is_selected());
    g.handle_input(KeyInput::Char('x'));
    g.handle_input(KeyInput::Other);
    assert_eq!(g.get_cursor().location(), (0, 0));
    assert!(!g.is_selected());
}

#[test]
fn new_game_is_empty_and_alive() {
    let g = Game::new(42);
    assert_eq!(g.get_board(), [[0u8; BOARD_HEIGHT]; BOARD_WIDTH]);
    assert_eq!(g.get_score(), 0);
    assert!(g.is_alive());
    assert!(!g.is_selected());
    assert_eq!(g.get_cursor().location(), (0, 0));
}
