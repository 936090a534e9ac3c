use match3::code::{GameCode, CODE_CAPACITY};
use match3::cursor::{Direction, KeyInput};
use match3::manager::{GameState, GameStateManager, KEY_BACKSPACE, KEY_ENTER, KEY_ESCAPE};
use match3::session::Session;

fn type_str(m: &mut GameStateManager, s: &str) {
    for c in s.chars() {
        m.input_manager(KeyInput::Char(c));
    }
}

/// Plays `n` simulation steps (one every fourth tick).
fn run_steps(m: &mut GameStateManager, n: u64) {
    for t in 1..=(4 * n) {
        m.tick(t);
    }
}

#[test]
fn empty_code_hashes_to_5040() {
    assert_eq!(GameCode::new().hash(), 5040);
}

#[test]
fn code_hash_exact_values() {
    let mut c = GameCode::new();
    c.type_char('A');
    assert_eq!(c.hash(), 5385844752342);
    c.type_char('C');
    assert_eq!(c.hash(), 354798100464890858);
}

#[test]
fn deleted_characters_do_not_contribute() {
    let mut a = GameCode::new();
    a.type_char('A');
    a.type_char('B');
    a.backspace();
    a.type_char('C');
    let mut b = GameCode::new();
    b.type_char('A');
    b.type_char('C');
    assert_eq!(a.hash(), b.hash());
    assert_eq!(a.chars(), b.chars());
    assert_eq!(a.len(), 2);
}

#[test]
fn backspace_on_empty_code_is_harmless() {
    let mut c = GameCode::new();
    c.backspace();
    assert_eq!(c.len(), 0);
    assert_eq!(c.hash(), 5040);
}

#[test]
fn code_buffer_holds_at_most_its_capacity() {
    let mut c = GameCode::new();
    for _ in 0..CODE_CAPACITY + 5 {
        c.type_char('z');
    }
    assert_eq!(c.len(), CODE_CAPACITY);
    assert!(c.chars().iter().all(|&ch| ch == 'z'));
}

#[test]
fn typed_backspaced_code_seeds_like_direct_code() {
    let mut a = GameStateManager::new();
    type_str(&mut a, "AB");
    a.input_manager(KeyInput::Char(KEY_BACKSPACE));
    type_str(&mut a, "C");
    assert_eq!(a.get_code_len(), 2);
    assert_eq!(&a.get_code()[..3], &['A', 'C', '\0']);
    a.input_manager(KeyInput::Char(KEY_ENTER));
    let mut b = GameStateManager::new();
    type_str(&mut b, "AC");
    b.input_manager(KeyInput::Char(KEY_ENTER));
    assert_eq!(a.get_state(), GameState::Playing);
    assert_eq!(b.get_state(), GameState::Playing);
    run_steps(&mut a, 30);
    run_steps(&mut b, 30);
    assert_eq!(a.get_game().get_board(), b.get_game().get_board());
    assert_eq!(a.get_game().get_score(), b.get_game().get_score());
}

#[test]
fn new_manager_starts_on_code_screen() {
    let m = GameStateManager::new();
    assert_eq!(m.get_state(), GameState::EnteringCode);
    assert_eq!(m.get_code_len(), 0);
    assert!(m.get_code().iter().all(|&c| c == '\0'));
}

#[test]
fn code_screen_ignores_other_keys_and_ticks() {
    let mut m = GameStateManager::new();
    m.input_manager(KeyInput::Char('\t'));
    m.input_manager(KeyInput::Arrow(Direction::Up));
    m.input_manager(KeyInput::Other);
    m.input_manager(KeyInput::Char('\u{7f}'));
    assert_eq!(m.get_code_len(), 0);
    m.tick(4);
    assert_eq!(m.get_state(), GameState::EnteringCode);
    assert_eq!(m.get_game().get_board(), [[0u8; 8]; 8]);
}

#[test]
fn ticks_step_only_on_refresh_period() {
    let mut m = GameStateManager::new();
    m.input_manager(KeyInput::Char(KEY_ENTER));
    m.tick(1);
    m.tick(2);
    m.tick(3);
    assert_eq!(m.get_game().get_board(), [[0u8; 8]; 8]);
    m.tick(4);
    let b = m.get_game().get_board();
    assert!((0..8).all(|c| b[c][0] != 0));
    assert!((0..8).all(|c| (1..8).all(|r| b[c][r] == 0)));
}

#[test]
fn play_settles_without_runs() {
    let mut m = GameStateManager::new();
    type_str(&mut m, "seed");
    m.input_manager(KeyInput::Char(KEY_ENTER));
    run_steps(&mut m, 200);
    let b = m.get_game().get_board();
    for c in 0..8 {
        for r in 0..8 {
            assert!(b[c][r] >= 1 && b[c][r] <= 7);
            if r + 2 < 8 {
                assert!(!(b[c][r] == b[c][r + 1] && b[c][r] == b[c][r + 2]));
            }
            if c + 2 < 8 {
                assert!(!(b[c][r] == b[c + 1][r] && b[c][r] == b[c + 2][r]));
            }
        }
    }
}

#[test]
fn escape_in_live_game_needs_two_presses() {
    let mut m = GameStateManager::new();
    m.input_manager(KeyInput::Char(KEY_ENTER));
    assert!(m.get_game().is_alive());
    m.input_manager(KeyInput::Char(KEY_ESCAPE));
    assert_eq!(m.get_state(), GameState::Playing);
    m.input_manager(KeyInput::Char(KEY_ESCAPE));
    assert_eq!(m.get_state(), GameState::EnteringCode);
}

#[test]
fn other_key_disarms_escape() {
    let mut m = GameStateManager::new();
    m.input_manager(KeyInput::Char(KEY_ENTER));
    m.input_manager(KeyInput::Char(KEY_ESCAPE));
    m.input_manager(KeyInput::Char('d'));
    assert_eq!(m.get_game().get_cursor().location(), (1, 0));
    m.input_manager(KeyInput::Char(KEY_ESCAPE));
    assert_eq!(m.get_state(), GameState::Playing);
    m.input_manager(KeyInput::Char(KEY_ESCAPE));
    assert_eq!(m.get_state(), GameState::EnteringCode);
}

#[test]
fn code_is_kept_when_returning_and_new_game_replaces_old() {
    let mut m = GameStateManager::new();
    type_str(&mut m, "xy");
    m.input_manager(KeyInput::Char(KEY_ENTER));
    m.input_manager(KeyInput::Char('s'));
    run_steps(&mut m, 3);
    m.input_manager(KeyInput::Char(KEY_ESCAPE));
    m.input_manager(KeyInput::Char(KEY_ESCAPE));
    assert_eq!(m.get_state(), GameState::EnteringCode);
    assert_eq!(m.get_code_len(), 2);
    m.input_manager(KeyInput::Char(KEY_ENTER));
    assert_eq!(m.get_state(), GameState::Playing);
    assert_eq!(m.get_game().get_board(), [[0u8; 8]; 8]);
    assert_eq!(m.get_game().get_cursor().location(), (0, 0));
    assert_eq!(m.get_game().get_score(), 0);
}

#[test]
fn session_counts_ticks_and_reports_screen_changes() {
    let mut s = Session::new();
    assert_eq!(s.ticks(), 0);
    assert!(!s.key(KeyInput::Char('a')));
    assert!(s.key(KeyInput::Char(KEY_ENTER)));
    assert_eq!(s.manager().get_state(), GameState::Playing);
    for _ in 0..4 {
        s.tick();
    }
    assert_eq!(s.ticks(), 4);
    let b = s.manager().get_game().get_board();
    assert!((0..8).all(|c| b[c][0] != 0));
    assert!(!s.key(KeyInput::Char(KEY_ESCAPE)));
    assert!(s.key(KeyInput::Char(KEY_ESCAPE)));
    assert_eq!(s.manager().get_state(), GameState::EnteringCode);
}
