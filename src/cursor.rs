//! The player's cursor, the four directions and the two player actions.

use vstd::prelude::*;
use crate::board::on_board;
use crate::{BOARD_HEIGHT, BOARD_WIDTH};

verus! {

/// A direction on the board; `Up` is towards row 0.
#[derive(Clone, Copy, PartialEq, Eq, Structural, Debug)]
pub enum Direction {
    Up,
    Down,
    Left,
    Right,
}

/// What the player does: move the cursor (or the selected gem), or toggle selection.
#[derive(Clone, Copy, PartialEq, Eq, Structural, Debug)]
pub enum InputAction {
    Move(Direction),
    Select,
}

/// A key event as the keyboard decoder hands it over.
#[derive(Clone, Copy, PartialEq, Eq, Structural, Debug)]
pub enum KeyInput {
    /// A printable or control character (`'\n'` for enter, `'\u{8}'` for
    /// backspace, `'\u{1b}'` for escape).
    Char(char),
    /// An arrow key.
    Arrow(Direction),
    /// Any other key.
    Other,
}

/// The player action a key stands for during play: arrows and `w`/`a`/`s`/`d`
/// move, enter and space select.
pub open spec fn action_of(key: KeyInput) -> Option<InputAction> {
    match key {
        KeyInput::Arrow(d) => Some(InputAction::Move(d)),
        KeyInput::Char('w') => Some(InputAction::Move(Direction::Up)),
        KeyInput::Char('s') => Some(InputAction::Move(Direction::Down)),
        KeyInput::Char('a') => Some(InputAction::Move(Direction::Left)),
        KeyInput::Char('d') => Some(InputAction::Move(Direction::Right)),
        KeyInput::Char('\n') => Some(InputAction::Select),
        KeyInput::Char(' ') => Some(InputAction::Select),
        _ => None,
    }
}

/// The cell one step from `(c, r)` towards `d`, which may lie off the board.
pub open spec fn neighbor(c: int, r: int, d: Direction) -> (int, int) {
    match d {
        Direction::Up => (c, r - 1),
        Direction::Down => (c, r + 1),
        Direction::Left => (c - 1, r),
        Direction::Right => (c + 1, r),
    }
}

/// One step from `(c, r)` towards `d`, staying put at the board's edge.
pub open spec fn clamped_step(c: int, r: int, d: Direction) -> (int, int) {
    let n = neighbor(c, r, d);
    if on_board(n.0, n.1) {
        n
    } else {
        (c, r)
    }
}

/// The cursor's cell, as `(column, row)`.
pub struct GameCursor(usize, usize);

impl View for GameCursor {
    type V = (int, int);

    closed spec fn view(&self) -> (int, int) {
        (self.0 as int, self.1 as int)
    }
}

impl GameCursor {
    /// The cursor is on the board.
    pub open spec fn wf(&self) -> bool {
        on_board(self@.0, self@.1)
    }

    /// A cursor at the top-left cell.
    pub(crate) fn new() -> (r: GameCursor)
        ensures
            r@ == (0int, 0int),
    {
        GameCursor(0, 0)
    }

    /// Moves one cell towards `dir`; no-op at the board's edge.
    pub(crate) fn move_cursor(&mut self, dir: Direction)
        requires
            old(self).wf(),
        ensures
            final(self)@ == clamped_step(old(self)@.0, old(self)@.1, dir),
    {
        match dir {
            Direction::Up => if self.1 > 0 {
                self.1 = self.1 - 1;
            },
            Direction::Down => if self.1 < BOARD_HEIGHT - 1 {
                self.1 = self.1 + 1;
            },
            Direction::Left => if self.0 > 0 {
                self.0 = self.0 - 1;
            },
            Direction::Right => if self.0 < BOARD_WIDTH - 1 {
                self.0 = self.0 + 1;
            },
        }
    }

    /// The cell next to the cursor towards `dir`, if it is on the board.
    pub(crate) fn neighbor_cell(&self, dir: Direction) -> (r: Option<(usize, usize)>)
        requires
            self.wf(),
        ensures
            r is Some <==> on_board(neighbor(self@.0, self@.1, dir).0, neighbor(self@.0, self@.1, dir).1),
            r matches Some(p) ==> (p.0 as int, p.1 as int) == neighbor(self@.0, self@.1, dir),
    {
        match dir {
            Direction::Up => if self.1 > 0 {
                Some((self.0, self.1 - 1))
            } else {
                None
            },
            Direction::Down => if self.1 < BOARD_HEIGHT - 1 {
                Some((self.0, self.1 + 1))
            } else {
                None
            },
            Direction::Left => if self.0 > 0 {
                Some((self.0 - 1, self.1))
            } else {
                None
            },
            Direction::Right => if self.0 < BOARD_WIDTH - 1 {
                Some((self.0 + 1, self.1))
            } else {
                None
            },
        }
    }

    /// The cursor's cell, as `(column, row)`.
    pub fn location(&self) -> (r: (usize, usize))
        ensures
            (r.0 as int, r.1 as int) == self@,
    {
        (self.0, self.1)
    }
}

} // verus!
