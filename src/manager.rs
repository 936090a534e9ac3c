//! The session's two screens: entering a code, and playing the game it seeds.

use vstd::prelude::*;
use crate::board::{any_gap, board_points, cleared, dropped, has_move, saturating};
use crate::code::{seed_of, GameCode, CODE_CAPACITY};
use crate::cursor::{action_of, InputAction, KeyInput};
use crate::game::{acted, fresh_game, refilled, Game, GameView};
use crate::BOARD_WIDTH;

verus! {

/// The game advances one simulation step on every tick that is a multiple of this.
pub const REFRESH_PERIOD: u64 = 4;

/// Enter: starts a game on the code screen.
pub const KEY_ENTER: char = '\n';

/// Backspace: deletes the last character of the code.
pub const KEY_BACKSPACE: char = '\u{8}';

/// Escape: leaves a game for the code screen.
pub const KEY_ESCAPE: char = '\u{1b}';

/// Which screen the session shows.
#[derive(Clone, Copy, PartialEq, Eq, Structural, Debug)]
pub enum GameState {
    EnteringCode,
    Playing,
}

/// `c` is a printable ASCII character, space to tilde.
pub open spec fn printable(c: char) -> bool {
    0x20 <= (c as u32) <= 0x7e
}

/// One simulation step: gravity, then refill. Only when neither moved anything
/// does a match pass run, and only when that pass scored nothing is the board
/// checked for a remaining move.
pub open spec fn stepped(v: GameView) -> GameView {
    let d = dropped(v.board);
    let f = refilled(d, v.rng, BOARD_WIDTH as int);
    let after_fill = GameView { board: f.0, rng: f.1, ..v };
    if any_gap(v.board) || exists|c: int| 0 <= c < BOARD_WIDTH && #[trigger] d[c][0] == 0 {
        after_fill
    } else {
        let m = GameView {
            board: cleared(f.0),
            score: saturating(v.score + board_points(f.0)),
            ..after_fill
        };
        if m.score == v.score {
            GameView { alive: has_move(m.board), ..m }
        } else {
            m
        }
    }
}

/// The score never decreases: a player action keeps it, and a simulation step
/// only adds to it.
pub proof fn lemma_score_never_decreases(v: GameView, action: InputAction)
    requires
        v.score <= usize::MAX,
    ensures
        acted(v, action).score == v.score,
        stepped(v).score >= v.score,
{
}

/// The mathematical state of a `GameStateManager`.
pub struct ManagerView {
    pub state: GameState,
    /// The code typed so far.
    pub code: Seq<char>,
    pub game: GameView,
    /// While set, escape in a live game only arms the exit; the next escape leaves.
    pub safeguard: bool,
}

/// The session after `key`.
///
/// On the code screen, enter starts a fresh game seeded by the code, backspace
/// deletes a character, and a printable character is typed (if there is room).
///
/// During play, escape leaves for the code screen at once when the game is
/// over; in a live game the first escape only arms the exit and a second one,
/// with no other key between, leaves. Every other key goes to the game (see
/// `action_of`) and disarms the exit.
pub open spec fn after_key(v: ManagerView, key: KeyInput) -> ManagerView {
    match v.state {
        GameState::EnteringCode => match key {
            KeyInput::Char(c) => if c == KEY_ENTER {
                ManagerView {
                    state: GameState::Playing,
                    game: fresh_game(seed_of(v.code)),
                    safeguard: true,
                    ..v
                }
            } else if c == KEY_BACKSPACE {
                ManagerView {
                    code: if v.code.len() > 0 {
                        v.code.drop_last()
                    } else {
                        v.code
                    },
                    ..v
                }
            } else if printable(c) {
                ManagerView {
                    code: if v.code.len() < CODE_CAPACITY {
                        v.code.push(c)
                    } else {
                        v.code
                    },
                    ..v
                }
            } else {
                v
            },
            _ => v,
        },
        GameState::Playing => if key == KeyInput::Char(KEY_ESCAPE) {
            if v.game.alive && v.safeguard {
                ManagerView { safeguard: false, ..v }
            } else {
                ManagerView { state: GameState::EnteringCode, ..v }
            }
        } else {
            ManagerView {
                game: match action_of(key) {
                    Some(a) => acted(v.game, a),
                    None => v.game,
                },
                safeguard: true,
                ..v
            }
        },
    }
}

/// The session after the host's tick number `t`: during play, every
/// `REFRESH_PERIOD`-th tick advances the game one `stepped`.
pub open spec fn after_tick(v: ManagerView, t: u64) -> ManagerView {
    if v.state == GameState::Playing && t % REFRESH_PERIOD == 0 {
        ManagerView { game: stepped(v.game), ..v }
    } else {
        v
    }
}

/// The session: the current screen, the code, and the current game.
pub struct GameStateManager {
    state: GameState,
    game_code: GameCode,
    game: Game,
    reset_safeguard: bool,
}

impl View for GameStateManager {
    type V = ManagerView;

    closed spec fn view(&self) -> ManagerView {
        ManagerView {
            state: self.state,
            code: self.game_code@,
            game: self.game@,
            safeguard: self.reset_safeguard,
        }
    }
}

impl GameStateManager {
    /// The code buffer and the game are well formed.
    pub closed spec fn wf(&self) -> bool {
        self.game_code.wf() && self.game.wf()
    }

    /// The state of a new session: the code screen with an empty code, and a
    /// fresh game seeded with 0.
    pub open spec fn new_view() -> ManagerView {
        ManagerView {
            state: GameState::EnteringCode,
            code: Seq::empty(),
            game: fresh_game(0),
            safeguard: true,
        }
    }

    /// A new session; see `new_view`.
    pub fn new() -> (r: GameStateManager)
        ensures
            r.wf(),
            r@ == Self::new_view(),
    {
        GameStateManager {
            state: GameState::EnteringCode,
            game_code: GameCode::new(),
            game: Game::new(0),
            reset_safeguard: true,
        }
    }

    /// Handles one key; see `after_key`.
    pub fn input_manager(&mut self, key: KeyInput)
        requires
            old(self).wf(),
        ensures
            final(self).wf(),
            final(self)@ == after_key(old(self)@, key),
    {
        match self.state {
            GameState::EnteringCode => match key {
                KeyInput::Char(c) => {
                    if c == KEY_ENTER {
                        self.start_game();
                    } else if c == KEY_BACKSPACE {
                        self.game_code.backspace();
                    } else if (c as u32) >= 0x20 && (c as u32) <= 0x7e {
                        self.game_code.type_char(c);
                    }
                },
                _ => {},
            },
            GameState::Playing => {
                if key == KeyInput::Char(KEY_ESCAPE) {
                    if self.game.is_alive() && self.reset_safeguard {
                        self.reset_safeguard = false;
                    } else {
                        self.return_to_code_menu();
                    }
                } else {
                    self.game.handle_input(key);
                    self.reset_safeguard = true;
                }
            },
        }
    }

    /// Advances the session for the host's tick number `current_tick`; see `after_tick`.
    pub fn tick(&mut self, current_tick: u64)
        requires
            old(self).wf(),
        ensures
            final(self).wf(),
            final(self)@ == after_tick(old(self)@, current_tick),
    {
        match self.state {
            GameState::EnteringCode => {},
            GameState::Playing => {
                if current_tick % REFRESH_PERIOD == 0 {
                    let drop = self.game.drop_step();
                    let fill = self.game.fill_step();
                    let settled = !drop && !fill;
                    if settled {
                        let old_score = self.game.get_score();
                        self.game.score_matches();
                        if self.game.get_score() == old_score {
                            self.game.check_for_game_over();
                        }
                    }
                }
            },
        }
    }

    /// Replaces the game with a fresh one seeded by the code, and starts playing.
    fn start_game(&mut self)
        requires
            old(self).wf(),
        ensures
            final(self).wf(),
            final(self)@ == (ManagerView {
                state: GameState::Playing,
                game: fresh_game(seed_of(old(self)@.code)),
                safeguard: true,
                ..old(self)@
            }),
    {
        let seed = self.game_code.hash();
        self.game = Game::new(seed);
        self.state = GameState::Playing;
        self.reset_safeguard = true;
    }

    /// Goes back to the code screen; the code and the game are kept.
    fn return_to_code_menu(&mut self)
        ensures
            final(self)@ == (ManagerView { state: GameState::EnteringCode, ..old(self)@ }),
            final(self).wf() == old(self).wf(),
    {
        self.state = GameState::EnteringCode;
    }

    /// The current screen.
    pub fn get_state(&self) -> (r: GameState)
        ensures
            r == self@.state,
    {
        self.state
    }

    /// The current game.
    pub fn get_game(&self) -> (r: &Game)
        ensures
            r@ == self@.game,
    {
        &self.game
    }

    /// Every slot of the code buffer: the typed characters, then `'\0'`.
    pub fn get_code(&self) -> (r: [char; CODE_CAPACITY])
        requires
            self.wf(),
        ensures
            r@.subrange(0, self@.code.len() as int) == self@.code,
            forall|i: int| self@.code.len() <= i < CODE_CAPACITY ==> r@[i] == '\0',
    {
        self.game_code.chars()
    }

    /// Number of characters typed.
    pub fn get_code_len(&self) -> (r: usize)
        requires
            self.wf(),
        ensures
            r == self@.code.len(),
    {
        self.game_code.len()
    }
}

} // verus!
