//! The game: board, cursor, random stream, score and the alive flag, with the
//! match, gravity, refill, swap and game-over steps.

use vstd::prelude::*;
use crate::board::{
    board_points, cleared, cols_points, grid_of, in_hmatch, in_match, in_triple, in_vmatch,
    lemma_grid_ext, lemma_grid_of_shaped, dropped, dropped_column, any_gap, has_gap, last_empty,
    lemma_last_empty, has_move, has_valid_move, lemma_swap_twice, lemma_swap_valid, match_at,
    swap_makes_match, swapped, lemma_run_marks, shaped, lemma_score_small, lemma_score_step, line_points, on_board, row_line, rows_points,
    run_tail, saturating, score_of, valid_grid, Board, Flags,
};
use crate::cursor::{action_of, clamped_step, neighbor, Direction, GameCursor, InputAction, KeyInput};
use crate::random::{accepted_draw, lemma_small_span_accepts, rejection_limit, Random};
use crate::{BOARD_HEIGHT, BOARD_WIDTH, GEM_COUNT};

verus! {

/// One game: the board, the cursor and its selection, the random stream that
/// refills the board, the score and whether a move is left.
pub struct Game {
    board: Board,
    rand: Random,
    cursor: GameCursor,
    selected: bool,
    alive: bool,
    score: usize,
}

/// The mathematical state of a `Game`.
pub struct GameView {
    /// The board as columns of cells.
    pub board: Seq<Seq<u8>>,
    /// The cursor's `(column, row)`.
    pub cursor: (int, int),
    pub selected: bool,
    pub alive: bool,
    pub score: nat,
    /// The state of the random stream.
    pub rng: u64,
}

/// Cells flagged by one match pass, vertical and horizontal runs apart.
pub struct Marks {
    pub vertical: Flags,
    pub horizontal: Flags,
}

/// `g` with every cell flagged in either grid of `m` emptied.
pub open spec fn without_marked(g: Seq<Seq<u8>>, m: Marks) -> Seq<Seq<u8>> {
    Seq::new(
        BOARD_WIDTH as nat,
        |c: int|
            Seq::new(
                BOARD_HEIGHT as nat,
                |r: int|
                    if m.vertical@[c]@[r] || m.horizontal@[c]@[r] {
                        0u8
                    } else {
                        g[c][r]
                    },
            ),
    )
}

/// Refilling the first `n` columns of `g` from stream state `x`: from left to
/// right, each column whose top cell is empty receives `1 + d % GEM_COUNT`, where
/// `d` is the next accepted draw of span `GEM_COUNT`. Gives the grid and the
/// stream's final state.
pub open spec fn refilled(g: Seq<Seq<u8>>, x: u64, n: int) -> (Seq<Seq<u8>>, u64)
    decreases n,
{
    if n <= 0 {
        (g, x)
    } else {
        let prev = refilled(g, x, n - 1);
        if g[n - 1][0] == 0 {
            let d = accepted_draw(prev.1, rejection_limit(GEM_COUNT as u64));
            (prev.0.update(n - 1, prev.0[n - 1].update(0, (1 + d % (GEM_COUNT as u64)) as u8)), d)
        } else {
            prev
        }
    }
}

/// Refilling writes only the top cells of columns whose top was empty, and
/// writes a gem kind there.
pub proof fn lemma_refill_cells(g: Seq<Seq<u8>>, x: u64, n: int)
    requires
        shaped(g),
        0 <= n <= BOARD_WIDTH,
    ensures
        shaped(refilled(g, x, n).0),
        forall|c: int, r: int|
            on_board(c, r) && (c >= n || r != 0 || g[c][0] != 0) ==> #[trigger] refilled(
                g,
                x,
                n,
            ).0[c][r] == g[c][r],
        forall|c: int|
            0 <= c < n && g[c][0] == 0 ==> 1 <= #[trigger] refilled(g, x, n).0[c][0] <= GEM_COUNT,
    decreases n,
{
    if n > 0 {
        lemma_refill_cells(g, x, n - 1);
        let prev = refilled(g, x, n - 1);
        if g[n - 1][0] == 0 {
            let d = accepted_draw(prev.1, rejection_limit(GEM_COUNT as u64));
            assert(d % (GEM_COUNT as u64) < GEM_COUNT);
            let h = refilled(g, x, n).0;
            assert forall|c: int| 0 <= c < BOARD_WIDTH implies #[trigger] h[c].len() == BOARD_HEIGHT by {
                if c != n - 1 {
                    assert(h[c] == prev.0[c]);
                }
            }
            assert forall|c: int| 0 <= c < n && g[c][0] == 0 implies 1 <= #[trigger] h[c][0] <= GEM_COUNT by {
                if c != n - 1 {
                    assert(h[c] == prev.0[c]);
                }
            }
        }
    }
}

/// The game after the player's `action`. Select toggles the selection. A move
/// without a selection steps the cursor, clamped at the edges. A move with a
/// selection exchanges the cursor's gem with its neighbour towards the move; the
/// exchange stands only if one of the two cells is then part of a run of three
/// or more, and then the cursor follows the gem and the selection ends. Otherwise
/// (also when the neighbour is off the board) nothing changes.
pub open spec fn acted(v: GameView, action: InputAction) -> GameView {
    match action {
        InputAction::Select => GameView { selected: !v.selected, ..v },
        InputAction::Move(d) => if !v.selected {
            GameView { cursor: clamped_step(v.cursor.0, v.cursor.1, d), ..v }
        } else {
            let n = neighbor(v.cursor.0, v.cursor.1, d);
            if on_board(n.0, n.1) && swap_makes_match(v.board, v.cursor.0, v.cursor.1, n.0, n.1) {
                GameView {
                    board: swapped(v.board, v.cursor.0, v.cursor.1, n.0, n.1),
                    cursor: n,
                    selected: false,
                    ..v
                }
            } else {
                v
            }
        },
    }
}

/// A fresh game: empty board, cursor at the top-left cell, nothing selected,
/// alive, no score, and the random stream at `seed`.
pub open spec fn fresh_game(seed: u64) -> GameView {
    GameView {
        board: Seq::new(BOARD_WIDTH as nat, |c: int| Seq::new(BOARD_HEIGHT as nat, |r: int| 0u8)),
        cursor: (0, 0),
        selected: false,
        alive: true,
        score: 0,
        rng: seed,
    }
}

impl View for Game {
    type V = GameView;

    closed spec fn view(&self) -> GameView {
        GameView {
            board: grid_of(self.board),
            cursor: self.cursor@,
            selected: self.selected,
            alive: self.alive,
            score: self.score as nat,
            rng: self.rand@,
        }
    }
}

impl Game {
    /// Every cell is empty or a gem kind, the cursor is on the board, and the
    /// score fits a `usize`.
    pub open spec fn wf(&self) -> bool {
        &&& valid_grid(self@.board)
        &&& on_board(self@.cursor.0, self@.cursor.1)
        &&& self@.score <= usize::MAX
    }

    /// A fresh game on an empty board, with the random stream seeded by `seed`.
    pub fn new(seed: u64) -> (g: Game)
        ensures
            g.wf(),
            g@ == fresh_game(seed),
    {
        let g = Game {
            board: [[0u8; BOARD_HEIGHT]; BOARD_WIDTH],
            rand: Random::new(seed),
            cursor: GameCursor::new(),
            selected: false,
            alive: true,
            score: 0,
        };
        proof {
            lemma_grid_of_shaped(g.board);
            lemma_grid_ext(g@.board, fresh_game(seed).board);
        }
        g
    }

    /// A fresh game on the given board, with the random stream seeded by `seed`.
    pub fn from_board(seed: u64, board: Board) -> (g: Game)
        requires
            valid_grid(grid_of(board)),
        ensures
            g.wf(),
            g@.board == grid_of(board),
            g@.cursor == (0int, 0int),
            !g@.selected,
            g@.alive,
            g@.score == 0,
            g@.rng == seed,
    {
        Game {
            board,
            rand: Random::new(seed),
            cursor: GameCursor::new(),
            selected: false,
            alive: true,
            score: 0,
        }
    }

    /// Finds, scores and removes every run of three or more identical gems.
    pub fn score_matches(&mut self)
        requires
            old(self).wf(),
        ensures
            final(self).wf(),
            final(self)@ == (GameView {
                board: cleared(old(self)@.board),
                score: saturating(old(self)@.score + board_points(old(self)@.board)),
                ..old(self)@
            }),
    {
        let marks = self.calculate_marks();
        self.remove_marked(marks);
        proof {
            let g = old(self)@.board;
            lemma_grid_of_shaped(self.board);
            lemma_grid_ext(self@.board, cleared(g));
        }
    }

    /// Flags every cell that lies in a vertical or a horizontal run of three or
    /// more identical gems, and adds the points of all those runs to the score.
    pub fn calculate_marks(&mut self) -> (m: Marks)
        requires
            old(self).wf(),
        ensures
            final(self).wf(),
            final(self)@ == (GameView {
                score: saturating(old(self)@.score + board_points(old(self)@.board)),
                ..old(self)@
            }),
            forall|c: int, r: int|
                on_board(c, r) ==> {
                    &&& m.vertical@[c]@[r] == in_vmatch(old(self)@.board, c, r)
                    &&& m.horizontal@[c]@[r] == in_hmatch(old(self)@.board, c, r)
                },
    {
        let ghost g = self@.board;
        let mut marks = Marks {
            vertical: [[false; BOARD_HEIGHT]; BOARD_WIDTH],
            horizontal: [[false; BOARD_HEIGHT]; BOARD_WIDTH],
        };
        let mut points: usize = 0;
        let mut c: usize = 0;
        while c < BOARD_WIDTH
            invariant
                g == self@.board,
                c <= BOARD_WIDTH,
                points == cols_points(g, c as int),
                points <= 40 * c,
                forall|c2: int, r: int|
                    0 <= c2 < c && 0 <= r < BOARD_HEIGHT ==> marks.vertical@[c2]@[r] == in_vmatch(g, c2, r),
            decreases BOARD_WIDTH - c,
        {
            let (m, p) = Self::mark_line(&self.board[c]);
            assert(self.board@[c as int]@ == g[c as int]);
            marks.vertical[c] = m;
            points = points + p;
            c = c + 1;
        }
        let mut r: usize = 0;
        while r < BOARD_HEIGHT
            invariant
                g == self@.board,
                r <= BOARD_HEIGHT,
                points == cols_points(g, BOARD_WIDTH as int) + rows_points(g, r as int),
                points <= 320 + 40 * r,
                forall|c2: int, r2: int|
                    on_board(c2, r2) ==> marks.vertical@[c2]@[r2] == in_vmatch(g, c2, r2),
                forall|c2: int, r2: int|
                    0 <= c2 < BOARD_WIDTH && 0 <= r2 < r ==> marks.horizontal@[c2]@[r2] == in_hmatch(g, c2, r2),
            decreases BOARD_HEIGHT - r,
        {
            let mut line: [u8; BOARD_WIDTH] = [0u8; BOARD_WIDTH];
            let mut k: usize = 0;
            while k < BOARD_WIDTH
                invariant
                    g == self@.board,
                    r < BOARD_HEIGHT,
                    k <= BOARD_WIDTH,
                    forall|j: int| 0 <= j < k ==> line@[j] == g[j][r as int],
                decreases BOARD_WIDTH - k,
            {
                line[k] = self.board[k][r];
                k = k + 1;
            }
            assert(line@ =~= row_line(g, r as int));
            let (m, p) = Self::mark_line(&line);
            let mut k: usize = 0;
            while k < BOARD_WIDTH
                invariant
                    r < BOARD_HEIGHT,
                    k <= BOARD_WIDTH,
                    forall|j: int| 0 <= j < BOARD_WIDTH ==> m@[j] == in_triple(row_line(g, r as int), j),
                    forall|c2: int, r2: int|
                        on_board(c2, r2) ==> marks.vertical@[c2]@[r2] == in_vmatch(g, c2, r2),
                    forall|c2: int, r2: int|
                        0 <= c2 < BOARD_WIDTH && 0 <= r2 < r ==> marks.horizontal@[c2]@[r2] == in_hmatch(g, c2, r2),
                    forall|c2: int| 0 <= c2 < k ==> marks.horizontal@[c2]@[r as int] == in_hmatch(g, c2, r as int),
                decreases BOARD_WIDTH - k,
            {
                marks.horizontal[k][r] = m[k];
                k = k + 1;
            }
            points = points + p;
            r = r + 1;
        }
        self.score = self.score.saturating_add(points);
        marks
    }

    /// One gravity step on a single column; returns whether a gem moved.
    fn drop_column(col: &mut [u8; BOARD_HEIGHT]) -> (moved: bool)
        ensures
            final(col)@ == dropped_column(old(col)@),
            moved == has_gap(old(col)@),
    {
        let ghost s = col@;
        proof {
            lemma_last_empty(s, BOARD_HEIGHT as int);
        }
        let mut k: usize = BOARD_HEIGHT;
        while k > 0 && col[k - 1] != 0
            invariant
                col@ == s,
                k <= BOARD_HEIGHT,
                last_empty(s, BOARD_HEIGHT as int) == last_empty(s, k as int),
            decreases k,
        {
            k = k - 1;
        }
        if k == 0 {
            assert(dropped_column(s) =~= s);
            assert(!has_gap(s)) by {
                if has_gap(s) {
                    let (i, j) = choose|i: int, j: int|
                        0 <= i < j < s.len() && #[trigger] s[i] != 0 && #[trigger] s[j] == 0;
                    assert(s[j] != 0);
                }
            }
            return false;
        }
        let k: usize = k - 1;
        assert(last_empty(s, BOARD_HEIGHT as int) == k);
        let mut moved = false;
        let mut i: usize = k;
        while i > 0
            invariant
                i <= k < BOARD_HEIGHT,
                s[k as int] == 0,
                forall|j: int| 0 <= j <= i ==> col@[j] == s[j],
                forall|j: int| i < j <= k ==> col@[j] == s[j - 1],
                forall|j: int| k < j < BOARD_HEIGHT ==> col@[j] == s[j],
                moved == exists|j: int| i <= j < k && s[j] != 0,
            decreases i,
        {
            let v = col[i - 1];
            let ghost was = moved;
            if v != 0 {
                moved = true;
            }
            proof {
                assert(v == s[i - 1]);
                if was {
                    let j = choose|j: int| i <= j < k && s[j] != 0;
                    assert(i - 1 <= j < k && s[j] != 0);
                }
                if moved && !was {
                    assert(s[i - 1] != 0);
                }
                if !moved {
                    assert forall|j: int| i - 1 <= j < k implies s[j] == 0 by {
                        if j >= i && s[j] != 0 {
                            assert(was);
                        }
                    }
                }
            }
            col[i] = v;
            i = i - 1;
        }
        col[0] = 0;
        assert(col@ =~= dropped_column(s));
        assert(moved == has_gap(s)) by {
            if has_gap(s) {
                let (a, b) = choose|a: int, b: int|
                    0 <= a < b < s.len() && #[trigger] s[a] != 0 && #[trigger] s[b] == 0;
                assert(s[a] != 0 && a < k);
            }
            if moved {
                let j = choose|j: int| 0 <= j < k && s[j] != 0;
                assert(s[j] != 0 && s[k as int] == 0);
            }
        }
        moved
    }

    /// Moves every gem that lies above an empty cell of its column down by one
    /// (everything above the column's lowest empty cell); returns whether any gem moved.
    pub fn drop_step(&mut self) -> (moved: bool)
        requires
            old(self).wf(),
        ensures
            final(self).wf(),
            final(self)@ == (GameView { board: dropped(old(self)@.board), ..old(self)@ }),
            moved == any_gap(old(self)@.board),
    {
        let ghost g = self@.board;
        proof {
            lemma_grid_of_shaped(self.board);
        }
        let mut ongoing = false;
        let mut c: usize = 0;
        while c < BOARD_WIDTH
            invariant
                c <= BOARD_WIDTH,
                valid_grid(g),
                self@ == (GameView { board: self@.board, ..old(self)@ }),
                forall|c2: int| 0 <= c2 < c ==> #[trigger] self@.board[c2] == dropped_column(g[c2]),
                forall|c2: int| c <= c2 < BOARD_WIDTH ==> #[trigger] self@.board[c2] == g[c2],
                ongoing == exists|c2: int| 0 <= c2 < c && #[trigger] has_gap(g[c2]),
            decreases BOARD_WIDTH - c,
        {
            let mut col = self.board[c];
            proof {
                lemma_grid_of_shaped(self.board);
                assert(self@.board[c as int] == g[c as int]);
                assert(col == self.board@[c as int]);
            }
            let m = Self::drop_column(&mut col);
            let ghost before = self@.board;
            self.board[c] = col;
            proof {
                lemma_grid_of_shaped(self.board);
                assert forall|c2: int| 0 <= c2 < BOARD_WIDTH && c2 != c implies #[trigger] self@.board[c2]
                    == before[c2] by {}
                assert(self@.board[c as int] == dropped_column(g[c as int]));
            }
            ongoing = ongoing || m;
            c = c + 1;
        }
        proof {
            lemma_grid_of_shaped(self.board);
            assert(self@.board =~= dropped(g));
            assert forall|c2: int, r: int|
                0 <= c2 < BOARD_WIDTH && 0 <= r < BOARD_HEIGHT implies #[trigger] self@.board[c2][r]
                <= crate::GEM_COUNT by {
                let s = g[c2];
                assert(self@.board[c2] == dropped_column(s));
            }
        }
        ongoing
    }

    /// Drops one gem into the top cell of every column whose top cell is empty,
    /// drawing its kind from the random stream; returns whether any column was filled.
    pub fn fill_step(&mut self) -> (any: bool)
        requires
            old(self).wf(),
        ensures
            final(self).wf(),
            final(self)@ == (GameView {
                board: refilled(old(self)@.board, old(self)@.rng, BOARD_WIDTH as int).0,
                rng: refilled(old(self)@.board, old(self)@.rng, BOARD_WIDTH as int).1,
                ..old(self)@
            }),
            any == exists|c: int| 0 <= c < BOARD_WIDTH && #[trigger] old(self)@.board[c][0] == 0,
            forall|c: int, r: int|
                on_board(c, r) && (r != 0 || old(self)@.board[c][0] != 0) ==> #[trigger] final(self)@.board[c][r] == old(self)@.board[c][r],
            forall|c: int|
                0 <= c < BOARD_WIDTH && old(self)@.board[c][0] == 0 ==> 1 <= #[trigger] final(self)@.board[c][0] <= GEM_COUNT,
    {
        let ghost g = self@.board;
        let ghost x = self@.rng;
        proof {
            lemma_grid_of_shaped(self.board);
        }
        let mut any: bool = false;
        let mut c: usize = 0;
        while c < BOARD_WIDTH
            invariant
                c <= BOARD_WIDTH,
                valid_grid(g),
                shaped(g),
                (self@.board, self@.rng) == refilled(g, x, c as int),
                self@ == (GameView { board: self@.board, rng: self@.rng, ..old(self)@ }),
                any == exists|c2: int| 0 <= c2 < c && #[trigger] g[c2][0] == 0,
            decreases BOARD_WIDTH - c,
        {
            proof {
                lemma_grid_of_shaped(self.board);
                lemma_refill_cells(g, x, c as int);
                assert(on_board(c as int, 0));
                assert(refilled(g, x, c as int).0[c as int][0] == g[c as int][0]);
                assert(self@.board[c as int][0] == self.board@[c as int]@[0]);
            }
            if self.board[c][0] == 0 {
                proof {
                    lemma_small_span_accepts(self.rand@, GEM_COUNT as u64);
                }
                let v = self.rand.range(0, GEM_COUNT as u64);
                let ghost before = self@.board;
                self.board[c][0] = v as u8 + 1;
                proof {
                    lemma_grid_of_shaped(self.board);
                    assert(self@.board =~= before.update(c as int, before[c as int].update(0, (v + 1) as u8)));
                }
                any = true;
            }
            c = c + 1;
        }
        proof {
            lemma_refill_cells(g, x, BOARD_WIDTH as int);
        }
        any
    }

    /// Exchanges the gem under the cursor with the gem at `(c, r)`.
    fn swap_cursor_raw(&mut self, c: usize, r: usize)
        requires
            old(self).wf(),
            on_board(c as int, r as int),
        ensures
            final(self).wf(),
            final(self)@ == (GameView {
                board: swapped(
                    old(self)@.board,
                    old(self)@.cursor.0,
                    old(self)@.cursor.1,
                    c as int,
                    r as int,
                ),
                ..old(self)@
            }),
    {
        let (cc, cr) = self.cursor.location();
        let temp = self.board[cc][cr];
        self.board[cc][cr] = self.board[c][r];
        self.board[c][r] = temp;
        proof {
            let g = old(self)@.board;
            lemma_grid_of_shaped(old(self).board);
            lemma_grid_of_shaped(self.board);
            lemma_grid_ext(self@.board, swapped(g, cc as int, cr as int, c as int, r as int));
            lemma_swap_valid(g, cc as int, cr as int, c as int, r as int);
        }
    }

    /// Exchanges the gem under the cursor with its neighbour towards `dir`; no-op
    /// when that neighbour is off the board.
    fn swap_cursor(&mut self, dir: Direction)
        requires
            old(self).wf(),
        ensures
            final(self).wf(),
            ({
                let v = old(self)@;
                let n = neighbor(v.cursor.0, v.cursor.1, dir);
                final(self)@ == if on_board(n.0, n.1) {
                    GameView { board: swapped(v.board, v.cursor.0, v.cursor.1, n.0, n.1), ..v }
                } else {
                    v
                }
            }),
    {
        if let Some((c, r)) = self.cursor.neighbor_cell(dir) {
            self.swap_cursor_raw(c, r);
        }
    }

    /// Whether the cursor's cell, or its neighbour towards `dir` when that is on
    /// the board, is part of a run of three or more.
    fn makes_match(&self, dir: Direction) -> (m: bool)
        requires
            self.wf(),
        ensures
            ({
                let v = self@;
                let n = neighbor(v.cursor.0, v.cursor.1, dir);
                let o = if on_board(n.0, n.1) {
                    n
                } else {
                    v.cursor
                };
                m == (in_match(v.board, v.cursor.0, v.cursor.1) || in_match(v.board, o.0, o.1))
            }),
    {
        let (c, r) = self.cursor.location();
        let other = match self.cursor.neighbor_cell(dir) {
            Some(p) => p,
            None => (c, r),
        };
        self.check_for_match(c, r) || self.check_for_match(other.0, other.1)
    }

    /// Whether cell `(c, r)` is part of a run of three or more identical gems
    /// (false off the board).
    pub fn check_for_match(&self, c: usize, r: usize) -> (m: bool)
        ensures
            m == in_match(self@.board, c as int, r as int),
    {
        match_at(&self.board, c, r)
    }

    /// Records whether any exchange of two adjacent cells would make a match;
    /// with none left the game is over. Board and cursor stay as they are.
    pub fn check_for_game_over(&mut self)
        requires
            old(self).wf(),
        ensures
            final(self).wf(),
            final(self)@ == (GameView { alive: has_move(old(self)@.board), ..old(self)@ }),
    {
        self.alive = has_valid_move(&self.board);
    }

    /// Carries out one player action; see `acted`.
    pub fn do_action(&mut self, action: InputAction)
        requires
            old(self).wf(),
        ensures
            final(self).wf(),
            final(self)@ == acted(old(self)@, action),
            ({
                let v = old(self)@;
                match action {
                    InputAction::Move(d) => {
                        let n = neighbor(v.cursor.0, v.cursor.1, d);
                        v.selected && !(on_board(n.0, n.1) && swap_makes_match(
                            v.board,
                            v.cursor.0,
                            v.cursor.1,
                            n.0,
                            n.1,
                        )) ==> final(self)@ == v
                    },
                    InputAction::Select => true,
                }
            }),
    {
        match action {
            InputAction::Select => {
                self.selected = !self.selected;
            },
            InputAction::Move(dir) => {
                if self.selected {
                    if self.cursor.neighbor_cell(dir).is_some() {
                        self.swap_cursor(dir);
                        if !self.makes_match(dir) {
                            self.swap_cursor(dir);
                            proof {
                                let v = old(self)@;
                                let n = neighbor(v.cursor.0, v.cursor.1, dir);
                                lemma_grid_of_shaped(old(self).board);
                                lemma_swap_twice(v.board, v.cursor.0, v.cursor.1, n.0, n.1);
                            }
                        } else {
                            self.cursor.move_cursor(dir);
                            self.selected = false;
                        }
                    }
                } else {
                    self.cursor.move_cursor(dir);
                }
            },
        }
    }

    /// Turns a key into a player action and carries it out; other keys are ignored.
    pub fn handle_input(&mut self, key: KeyInput)
        requires
            old(self).wf(),
        ensures
            final(self).wf(),
            final(self)@ == match action_of(key) {
                Some(a) => acted(old(self)@, a),
                None => old(self)@,
            },
    {
        let action = match key {
            KeyInput::Arrow(d) => Some(InputAction::Move(d)),
            KeyInput::Char('w') => Some(InputAction::Move(Direction::Up)),
            KeyInput::Char('s') => Some(InputAction::Move(Direction::Down)),
            KeyInput::Char('a') => Some(InputAction::Move(Direction::Left)),
            KeyInput::Char('d') => Some(InputAction::Move(Direction::Right)),
            KeyInput::Char('\n') | KeyInput::Char(' ') => Some(InputAction::Select),
            _ => None,
        };
        if let Some(action) = action {
            self.do_action(action);
        }
    }

    /// Whether a gem is selected for exchange.
    pub fn is_selected(&self) -> (r: bool)
        ensures
            r == self@.selected,
    {
        self.selected
    }

    /// Whether an exchange that makes a match was left at the last check.
    pub fn is_alive(&self) -> (r: bool)
        ensures
            r == self@.alive,
    {
        self.alive
    }

    /// A copy of the board, indexed `[column][row]`.
    pub fn get_board(&self) -> (r: Board)
        ensures
            grid_of(r) == self@.board,
    {
        self.board
    }

    /// The cursor.
    pub fn get_cursor(&self) -> (r: &GameCursor)
        ensures
            r@ == self@.cursor,
    {
        &self.cursor
    }

    /// The score.
    pub fn get_score(&self) -> (r: usize)
        ensures
            r == self@.score,
    {
        self.score
    }

    /// Empties every cell flagged in either grid of `marks`.
    pub fn remove_marked(&mut self, marks: Marks)
        requires
            old(self).wf(),
        ensures
            final(self).wf(),
            final(self)@ == (GameView { board: without_marked(old(self)@.board, marks), ..old(self)@ }),
    {
        let ghost g = self@.board;
        let mut c: usize = 0;
        while c < BOARD_WIDTH
            invariant
                c <= BOARD_WIDTH,
                valid_grid(g),
                self@ == (GameView { board: self@.board, ..old(self)@ }),
                forall|c2: int, r: int|
                    on_board(c2, r) ==> self@.board[c2][r] == if c2 < c {
                        without_marked(g, marks)[c2][r]
                    } else {
                        g[c2][r]
                    },
            decreases BOARD_WIDTH - c,
        {
            let mut r: usize = 0;
            while r < BOARD_HEIGHT
                invariant
                    c < BOARD_WIDTH,
                    r <= BOARD_HEIGHT,
                    valid_grid(g),
                    self@ == (GameView { board: self@.board, ..old(self)@ }),
                    forall|c2: int, r2: int|
                        on_board(c2, r2) ==> self@.board[c2][r2] == if c2 < c || (c2 == c && r2 < r) {
                            without_marked(g, marks)[c2][r2]
                        } else {
                            g[c2][r2]
                        },
                decreases BOARD_HEIGHT - r,
            {
                if marks.vertical[c][r] || marks.horizontal[c][r] {
                    self.board[c][r] = 0;
                }
                proof {
                    lemma_grid_of_shaped(self.board);
                }
                r = r + 1;
            }
            c = c + 1;
        }
        proof {
            lemma_grid_of_shaped(self.board);
            lemma_grid_ext(self@.board, without_marked(g, marks));
        }
    }

    /// Points for one run of `match_len` identical gems: `3 + 4 + ... + match_len`
    /// (zero below three). Lengths are bounded so that the sum fits a 32-bit `usize`.
    pub fn calculate_score(match_len: usize) -> (r: usize)
        requires
            match_len < 0x10000,
        ensures
            r == score_of(match_len as nat),
    {
        let mut x: usize = 0;
        let mut i: usize = 3;
        while i <= match_len
            invariant
                3 <= i <= match_len + 1 || (i == 3 && match_len < 3),
                match_len < 0x10000,
                x == score_of((i - 1) as nat),
            decreases match_len + 1 - i,
        {
            proof {
                lemma_score_step(i as nat);
                assert(i * i <= 0x10000 * 0x10000) by (nonlinear_arith)
                    requires
                        i <= 0x10000,
                ;
            }
            x = x + i;
            i = i + 1;
        }
        x
    }

    /// Marks the cells of `line` that lie in a window of three identical gems and
    /// returns the points of the line's runs.
    fn mark_line<const N: usize>(line: &[u8; N]) -> (r: ([bool; N], usize))
        requires
            N <= 8,
        ensures
            forall|j: int| 0 <= j < N ==> r.0@[j] == in_triple(line@, j),
            r.1 == line_points(line@, 0),
            r.1 <= 5 * N,
    {
        let ghost s = line@;
        let mut marks: [bool; N] = [false; N];
        let mut points: usize = 0;
        let mut i: usize = 0;
        while i < N
            invariant
                s == line@,
                s.len() == N,
                N <= 8,
                i <= N,
                0 < i < N ==> s[i - 1] != s[i as int],
                forall|j: int| 0 <= j < i ==> marks@[j] == in_triple(s, j),
                forall|j: int| i <= j < N ==> !marks@[j],
                line_points(s, 0) == points + line_points(s, i as int),
                points <= 5 * i,
            decreases N - i,
        {
            let mut len: usize = 1;
            while i + len < N && line[i + len] == line[i]
                invariant
                    s == line@,
                    s.len() == N,
                    i < N,
                    1 <= len,
                    i + len <= N,
                    forall|k: int| i <= k < i + len ==> #[trigger] s[k] == s[i as int],
                    run_tail(s, i as int) == (len - 1) + run_tail(s, i + len - 1),
                decreases N - i - len,
            {
                len = len + 1;
            }
            proof {
                lemma_run_marks(s, i as int, len as int);
                lemma_score_small(len as nat);
            }
            if line[i] != 0 && len >= 3 {
                points = points + Self::calculate_score(len);
                let mut k: usize = i;
                while k < i + len
                    invariant
                        i <= k <= i + len <= N,
                        forall|j: int| 0 <= j < i ==> marks@[j] == in_triple(s, j),
                        forall|j: int| i <= j < k ==> marks@[j],
                        forall|j: int| k <= j < N ==> !marks@[j],
                    decreases i + len - k,
                {
                    marks[k] = true;
                    k = k + 1;
                }
            }
            i = i + len;
        }
        (marks, points)
    }
}

} // verus!
