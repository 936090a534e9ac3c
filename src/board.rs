//! The board model: cells, windows of three, runs and their points, and the
//! per-line scan that marks matched cells.

use vstd::prelude::*;
use crate::{BOARD_HEIGHT, BOARD_WIDTH, GEM_COUNT};

verus! {

/// The board, indexed `[column][row]`; row 0 is the top.
pub type Board = [[u8; BOARD_HEIGHT]; BOARD_WIDTH];

/// A grid of per-cell flags in the board's shape.
pub type Flags = [[bool; BOARD_HEIGHT]; BOARD_WIDTH];

/// The board as a sequence of columns.
pub open spec fn grid_of(b: Board) -> Seq<Seq<u8>> {
    Seq::new(BOARD_WIDTH as nat, |c: int| b@[c]@)
}

/// `g` has the board's shape and every cell is empty or a gem kind.
pub open spec fn valid_grid(g: Seq<Seq<u8>>) -> bool {
    &&& g.len() == BOARD_WIDTH
    &&& forall|c: int| 0 <= c < BOARD_WIDTH ==> #[trigger] g[c].len() == BOARD_HEIGHT
    &&& forall|c: int, r: int|
        0 <= c < BOARD_WIDTH && 0 <= r < BOARD_HEIGHT ==> #[trigger] g[c][r] <= GEM_COUNT
}

/// Points for one run of `n` identical gems: `3 + 4 + ... + n`.
pub open spec fn score_of(n: nat) -> nat {
    if n < 3 {
        0
    } else {
        ((n * n + n - 6) / 2) as nat
    }
}

/// Cells `i`, `i + 1` and `i + 2` of `s` exist, hold a gem, and hold the same one.
pub open spec fn triple_at(s: Seq<u8>, i: int) -> bool {
    &&& 0 <= i
    &&& i + 2 < s.len()
    &&& s[i] != 0
    &&& s[i + 1] == s[i]
    &&& s[i + 2] == s[i]
}

/// Cell `i` of `s` lies in a window of three identical gems.
pub open spec fn in_triple(s: Seq<u8>, i: int) -> bool {
    triple_at(s, i - 2) || triple_at(s, i - 1) || triple_at(s, i)
}

/// Number of cells after `i` that continue the run of equal cells of `s` at `i`.
pub open spec fn run_tail(s: Seq<u8>, i: int) -> nat
    decreases s.len() - i,
{
    if 0 <= i && i + 1 < s.len() && s[i + 1] == s[i] {
        1 + run_tail(s, i + 1)
    } else {
        0
    }
}

/// Length of the run of equal cells of `s` that starts at `i`.
pub open spec fn run_len(s: Seq<u8>, i: int) -> nat {
    1 + run_tail(s, i)
}

/// Points of the maximal runs of `s` from run start `i` on: each run of three or
/// more identical gems scores `score_of` of its length.
pub open spec fn line_points(s: Seq<u8>, i: int) -> nat
    decreases s.len() - i,
{
    if i < 0 || i >= s.len() {
        0
    } else {
        let l = run_len(s, i);
        proof {
            lemma_run_tail_bound(s, i);
        }
        (if s[i] != 0 && l >= 3 {
            score_of(l)
        } else {
            0
        }) + line_points(s, i + l)
    }
}

/// A run that starts inside `s` ends inside it.
pub proof fn lemma_run_tail_bound(s: Seq<u8>, i: int)
    requires
        0 <= i < s.len(),
    ensures
        i + run_tail(s, i) < s.len(),
    decreases s.len() - i,
{
    if i + 1 < s.len() && s[i + 1] == s[i] {
        lemma_run_tail_bound(s, i + 1);
    }
}

/// `(c, r)` is a cell of the board.
pub open spec fn on_board(c: int, r: int) -> bool {
    0 <= c < BOARD_WIDTH && 0 <= r < BOARD_HEIGHT
}

/// Row `r` of `g`, read from left to right.
pub open spec fn row_line(g: Seq<Seq<u8>>, r: int) -> Seq<u8> {
    Seq::new(BOARD_WIDTH as nat, |c: int| g[c][r])
}

/// Cell `(c, r)` lies in a vertical window of three identical gems.
pub open spec fn in_vmatch(g: Seq<Seq<u8>>, c: int, r: int) -> bool {
    0 <= c < BOARD_WIDTH && in_triple(g[c], r)
}

/// Cell `(c, r)` lies in a horizontal window of three identical gems.
pub open spec fn in_hmatch(g: Seq<Seq<u8>>, c: int, r: int) -> bool {
    0 <= r < BOARD_HEIGHT && in_triple(row_line(g, r), c)
}

/// Cell `(c, r)` is part of a run of three or more identical gems.
pub open spec fn in_match(g: Seq<Seq<u8>>, c: int, r: int) -> bool {
    in_vmatch(g, c, r) || in_hmatch(g, c, r)
}

/// No run of three or more identical gems remains anywhere on `g`.
pub open spec fn no_match(g: Seq<Seq<u8>>) -> bool {
    forall|c: int, r: int| on_board(c, r) ==> !#[trigger] in_match(g, c, r)
}

/// `g` with every cell that is part of a run of three or more emptied.
pub open spec fn cleared(g: Seq<Seq<u8>>) -> Seq<Seq<u8>> {
    Seq::new(
        BOARD_WIDTH as nat,
        |c: int|
            Seq::new(
                BOARD_HEIGHT as nat,
                |r: int|
                    if in_match(g, c, r) {
                        0u8
                    } else {
                        g[c][r]
                    },
            ),
    )
}

/// Points of the runs in the first `n` columns of `g`.
pub open spec fn cols_points(g: Seq<Seq<u8>>, n: int) -> nat
    decreases n,
{
    if n <= 0 {
        0
    } else {
        cols_points(g, n - 1) + line_points(g[n - 1], 0)
    }
}

/// Points of the runs in the first `n` rows of `g`.
pub open spec fn rows_points(g: Seq<Seq<u8>>, n: int) -> nat
    decreases n,
{
    if n <= 0 {
        0
    } else {
        rows_points(g, n - 1) + line_points(row_line(g, n - 1), 0)
    }
}

/// Points of every maximal vertical and horizontal run on `g`.
pub open spec fn board_points(g: Seq<Seq<u8>>) -> nat {
    cols_points(g, BOARD_WIDTH as int) + rows_points(g, BOARD_HEIGHT as int)
}

/// `n`, capped at the largest `usize`.
pub open spec fn saturating(n: nat) -> nat {
    if n > usize::MAX {
        usize::MAX as nat
    } else {
        n
    }
}

/// `g` with the contents of cells `(c1, r1)` and `(c2, r2)` exchanged.
pub open spec fn swapped(g: Seq<Seq<u8>>, c1: int, r1: int, c2: int, r2: int) -> Seq<Seq<u8>> {
    Seq::new(
        BOARD_WIDTH as nat,
        |c: int|
            Seq::new(
                BOARD_HEIGHT as nat,
                |r: int|
                    if c == c1 && r == r1 {
                        g[c2][r2]
                    } else if c == c2 && r == r2 {
                        g[c1][r1]
                    } else {
                        g[c][r]
                    },
            ),
    )
}

/// Exchanging cells `(c1, r1)` and `(c2, r2)` puts one of them in a run of three or more.
pub open spec fn swap_makes_match(g: Seq<Seq<u8>>, c1: int, r1: int, c2: int, r2: int) -> bool {
    let h = swapped(g, c1, r1, c2, r2);
    in_match(h, c1, r1) || in_match(h, c2, r2)
}

/// Exchanging `(c, r)` with the cell below it makes a match.
pub open spec fn vertical_move(g: Seq<Seq<u8>>, c: int, r: int) -> bool {
    on_board(c, r) && on_board(c, r + 1) && swap_makes_match(g, c, r, c, r + 1)
}

/// Exchanging `(c, r)` with the cell to its right makes a match.
pub open spec fn horizontal_move(g: Seq<Seq<u8>>, c: int, r: int) -> bool {
    on_board(c, r) && on_board(c + 1, r) && swap_makes_match(g, c, r, c + 1, r)
}

/// Some exchange of two adjacent cells makes a match.
pub open spec fn has_move(g: Seq<Seq<u8>>) -> bool {
    exists|c: int, r: int|
        #![trigger vertical_move(g, c, r)]
        #![trigger horizontal_move(g, c, r)]
        vertical_move(g, c, r) || horizontal_move(g, c, r)
}

/// Index of the lowest empty cell among the first `n` cells of the column `s`,
/// or `-1` when there is none.
pub open spec fn last_empty(s: Seq<u8>, n: int) -> int
    decreases n,
{
    if n <= 0 {
        -1
    } else if s[n - 1] == 0 {
        n - 1
    } else {
        last_empty(s, n - 1)
    }
}

/// One gravity step on a column: every cell above its lowest empty cell moves
/// down by one, and the top cell becomes empty. A full column stays as it is.
pub open spec fn dropped_column(s: Seq<u8>) -> Seq<u8> {
    let k = last_empty(s, s.len() as int);
    Seq::new(
        s.len(),
        |i: int|
            if i > k {
                s[i]
            } else if i == 0 {
                0u8
            } else {
                s[i - 1]
            },
    )
}

/// One gravity step on every column of `g`.
pub open spec fn dropped(g: Seq<Seq<u8>>) -> Seq<Seq<u8>> {
    Seq::new(BOARD_WIDTH as nat, |c: int| dropped_column(g[c]))
}

/// Some gem of the column `s` lies above an empty cell.
pub open spec fn has_gap(s: Seq<u8>) -> bool {
    exists|i: int, j: int| 0 <= i < j < s.len() && #[trigger] s[i] != 0 && #[trigger] s[j] == 0
}

/// Some column of `g` has a gem above an empty cell.
pub open spec fn any_gap(g: Seq<Seq<u8>>) -> bool {
    exists|c: int| 0 <= c < BOARD_WIDTH && #[trigger] has_gap(g[c])
}

/// No gem of `g` sits directly above an empty cell.
pub open spec fn no_hanging_gem(g: Seq<Seq<u8>>) -> bool {
    forall|c: int, r: int|
        on_board(c, r) && on_board(c, r + 1) && #[trigger] g[c][r] != 0 ==> g[c][r + 1] != 0
}

/// `last_empty` names an empty cell with only gems below it.
pub proof fn lemma_last_empty(s: Seq<u8>, n: int)
    requires
        0 <= n <= s.len(),
    ensures
        -1 <= last_empty(s, n) < n,
        last_empty(s, n) >= 0 ==> s[last_empty(s, n)] == 0,
        forall|j: int| last_empty(s, n) < j < n ==> #[trigger] s[j] != 0,
    decreases n,
{
    if n > 0 && s[n - 1] != 0 {
        lemma_last_empty(s, n - 1);
    }
}

/// When no gem lies above an empty cell, a gravity step changes nothing and no
/// gem sits directly above an empty cell: repeating the step until it reports
/// no movement leaves every column settled.
pub proof fn lemma_gravity_settles(g: Seq<Seq<u8>>)
    requires
        shaped(g),
        !any_gap(g),
    ensures
        dropped(g) == g,
        no_hanging_gem(g),
{
    assert forall|c: int| 0 <= c < BOARD_WIDTH implies #[trigger] dropped(g)[c] == g[c] by {
        let s = g[c];
        assert(!has_gap(s));
        let k = last_empty(s, s.len() as int);
        lemma_last_empty(s, s.len() as int);
        assert forall|i: int| 0 <= i <= k implies s[i] == 0 by {
            if s[i] != 0 && i < k {
                assert(s[k] == 0);
            }
        }
        assert(dropped_column(s) =~= s);
    }
    assert(dropped(g) =~= g);
    assert forall|c: int, r: int|
        on_board(c, r) && on_board(c, r + 1) && #[trigger] g[c][r] != 0 implies g[c][r + 1] != 0 by {
        assert(!has_gap(g[c]));
    }
}

/// `g` has the board's shape.
pub open spec fn shaped(g: Seq<Seq<u8>>) -> bool {
    &&& g.len() == BOARD_WIDTH
    &&& forall|c: int| 0 <= c < BOARD_WIDTH ==> #[trigger] g[c].len() == BOARD_HEIGHT
}

/// The view of a board has the board's shape.
pub proof fn lemma_grid_of_shaped(b: Board)
    ensures
        shaped(grid_of(b)),
        forall|c: int| 0 <= c < BOARD_WIDTH ==> #[trigger] grid_of(b)[c] == b@[c]@,
        forall|c: int, r: int| on_board(c, r) ==> #[trigger] grid_of(b)[c][r] == b@[c]@[r],
{
    assert forall|c: int| 0 <= c < BOARD_WIDTH implies #[trigger] grid_of(b)[c].len()
        == BOARD_HEIGHT by {
        assert(grid_of(b)[c] == b@[c]@);
    }
}

/// Two board-shaped grids that agree on every cell are equal.
pub proof fn lemma_grid_ext(g1: Seq<Seq<u8>>, g2: Seq<Seq<u8>>)
    requires
        shaped(g1),
        shaped(g2),
        forall|c: int, r: int| on_board(c, r) ==> #[trigger] g1[c][r] == g2[c][r],
    ensures
        g1 == g2,
{
    assert forall|c: int| 0 <= c < BOARD_WIDTH implies #[trigger] g1[c] == g2[c] by {
        assert(g1[c] =~= g2[c]) by {
            assert forall|r: int| 0 <= r < BOARD_HEIGHT implies g1[c][r] == g2[c][r] by {
                assert(on_board(c, r));
            }
        }
    }
    assert(g1 =~= g2);
}

/// Exchanging the same two cells twice restores the grid.
pub proof fn lemma_swap_twice(g: Seq<Seq<u8>>, c1: int, r1: int, c2: int, r2: int)
    requires
        shaped(g),
        on_board(c1, r1),
        on_board(c2, r2),
    ensures
        swapped(swapped(g, c1, r1, c2, r2), c1, r1, c2, r2) == g,
        shaped(swapped(g, c1, r1, c2, r2)),
{
    let h = swapped(g, c1, r1, c2, r2);
    assert(shaped(h));
    lemma_grid_ext(swapped(h, c1, r1, c2, r2), g);
}

/// Exchanging two cells of a valid grid leaves it valid.
pub proof fn lemma_swap_valid(g: Seq<Seq<u8>>, c1: int, r1: int, c2: int, r2: int)
    requires
        valid_grid(g),
        on_board(c1, r1),
        on_board(c2, r2),
    ensures
        valid_grid(swapped(g, c1, r1, c2, r2)),
{
    let h = swapped(g, c1, r1, c2, r2);
    assert forall|c: int, r: int| on_board(c, r) implies #[trigger] h[c][r] <= GEM_COUNT by {
        assert(on_board(c, r));
    }
}

/// Whether cell `(c, r)` of `b` is part of a run of three or more identical
/// gems, judged by the three windows of three along each axis that hold it.
pub fn match_at(b: &Board, c: usize, r: usize) -> (m: bool)
    ensures
        m == in_match(grid_of(*b), c as int, r as int),
{
    proof {
        lemma_grid_of_shaped(*b);
    }
    let ghost g = grid_of(*b);
    if c >= BOARD_WIDTH || r >= BOARD_HEIGHT {
        return false;
    }
    let v = b[c][r];
    assert(g[c as int][r as int] == v);
    if v == 0 {
        return false;
    }
    let col = &b[c];
    let vertical = (r >= 2 && col[r - 2] == v && col[r - 1] == v) || (r >= 1 && r + 1
        < BOARD_HEIGHT && col[r - 1] == v && col[r + 1] == v) || (r + 2 < BOARD_HEIGHT && col[r + 1]
        == v && col[r + 2] == v);
    let horizontal = (c >= 2 && b[c - 2][r] == v && b[c - 1][r] == v) || (c >= 1 && c + 1
        < BOARD_WIDTH && b[c - 1][r] == v && b[c + 1][r] == v) || (c + 2 < BOARD_WIDTH && b[c
        + 1][r] == v && b[c + 2][r] == v);
    proof {
        let s = g[c as int];
        let t = row_line(g, r as int);
        assert(s == b@[c as int]@);
        assert(vertical == in_triple(s, r as int));
        assert(t[c as int] == v);
        assert(c >= 2 ==> t[c - 2] == b@[c - 2]@[r as int] && t[c - 1] == b@[c - 1]@[r as int]);
        assert(c + 1 < BOARD_WIDTH ==> t[c + 1] == b@[c + 1]@[r as int]);
        assert(c + 2 < BOARD_WIDTH ==> t[c + 2] == b@[c + 2]@[r as int]);
        assert(horizontal == in_triple(t, c as int));
    }
    vertical || horizontal
}

/// Whether exchanging cells `(c1, r1)` and `(c2, r2)` of `b` would put one of
/// them in a run of three or more; the exchange is made on a copy.
pub fn swap_matches(b: &Board, c1: usize, r1: usize, c2: usize, r2: usize) -> (m: bool)
    requires
        on_board(c1 as int, r1 as int),
        on_board(c2 as int, r2 as int),
    ensures
        m == swap_makes_match(grid_of(*b), c1 as int, r1 as int, c2 as int, r2 as int),
{
    let mut t: Board = *b;
    let x = t[c1][r1];
    t[c1][r1] = t[c2][r2];
    t[c2][r2] = x;
    proof {
        lemma_grid_of_shaped(*b);
        lemma_grid_of_shaped(t);
        lemma_grid_ext(grid_of(t), swapped(grid_of(*b), c1 as int, r1 as int, c2 as int, r2 as int));
    }
    match_at(&t, c1, r1) || match_at(&t, c2, r2)
}

/// Whether some exchange of two adjacent cells of `b` makes a match. Vertical
/// pairs are tried first, then horizontal ones, each on a copy of the board.
pub fn has_valid_move(b: &Board) -> (found: bool)
    ensures
        found == has_move(grid_of(*b)),
{
    let ghost g = grid_of(*b);
    let mut c: usize = 0;
    while c < BOARD_WIDTH
        invariant
            g == grid_of(*b),
            c <= BOARD_WIDTH,
            forall|c2: int, r2: int| 0 <= c2 < c ==> !#[trigger] vertical_move(g, c2, r2),
        decreases BOARD_WIDTH - c,
    {
        let mut r: usize = 0;
        while r + 1 < BOARD_HEIGHT
            invariant
                g == grid_of(*b),
                c < BOARD_WIDTH,
                r + 1 <= BOARD_HEIGHT,
                forall|c2: int, r2: int| 0 <= c2 < c ==> !#[trigger] vertical_move(g, c2, r2),
                forall|r2: int| r2 < r ==> !#[trigger] vertical_move(g, c as int, r2),
            decreases BOARD_HEIGHT - r,
        {
            if swap_matches(b, c, r, c, r + 1) {
                assert(vertical_move(g, c as int, r as int));
                return true;
            }
            r = r + 1;
        }
        c = c + 1;
    }
    let mut r: usize = 0;
    while r < BOARD_HEIGHT
        invariant
            g == grid_of(*b),
            r <= BOARD_HEIGHT,
            forall|c2: int, r2: int| !#[trigger] vertical_move(g, c2, r2),
            forall|c2: int, r2: int| 0 <= r2 < r ==> !#[trigger] horizontal_move(g, c2, r2),
        decreases BOARD_HEIGHT - r,
    {
        let mut c: usize = 0;
        while c + 1 < BOARD_WIDTH
            invariant
                g == grid_of(*b),
                r < BOARD_HEIGHT,
                c + 1 <= BOARD_WIDTH,
                forall|c2: int, r2: int| !#[trigger] vertical_move(g, c2, r2),
                forall|c2: int, r2: int| 0 <= r2 < r ==> !#[trigger] horizontal_move(g, c2, r2),
                forall|c2: int| c2 < c ==> !#[trigger] horizontal_move(g, c2, r as int),
            decreases BOARD_WIDTH - c,
        {
            if swap_matches(b, c, r, c + 1, r) {
                assert(horizontal_move(g, c as int, r as int));
                return true;
            }
            c = c + 1;
        }
        r = r + 1;
    }
    false
}

/// Each run adds its last cell to the previous total.
pub proof fn lemma_score_step(n: nat)
    requires
        n >= 3,
    ensures
        score_of(n) == score_of((n - 1) as nat) + n,
        score_of(n) <= n * n,
{
    let a: int = (n - 1) * (n - 1) + (n - 1) - 6;
    let b: int = n * n + n - 6;
    assert(b == a + 2 * n) by (nonlinear_arith)
        requires
            a == (n - 1) * (n - 1) + (n - 1) - 6,
            b == n * n + n - 6,
    ;
    assert(a >= 0 && b <= 2 * (n * n)) by (nonlinear_arith)
        requires
            a == (n - 1) * (n - 1) + (n - 1) - 6,
            b == n * n + n - 6,
            n >= 3,
    ;
    assert(b / 2 == a / 2 + n);
}

/// A run of up to eight gems scores at most five points a cell.
pub proof fn lemma_score_small(n: nat)
    requires
        n <= 8,
    ensures
        score_of(n) <= 5 * n,
{
    if n >= 3 {
        let b: int = n * n + n - 6;
        assert(0 <= b <= 10 * n) by (nonlinear_arith)
            requires
                b == n * n + n - 6,
                3 <= n <= 8,
        ;
        assert(b / 2 <= 5 * n);
    }
}

/// Inside one maximal run `[i, i + len)` of `s`, a cell lies in a window of three
/// identical gems exactly when the run holds gems and is at least three long.
pub proof fn lemma_run_marks(s: Seq<u8>, i: int, len: int)
    requires
        0 <= i,
        1 <= len,
        i + len <= s.len(),
        forall|k: int| i <= k < i + len ==> #[trigger] s[k] == s[i],
        i == 0 || s[i - 1] != s[i],
        i + len == s.len() || s[i + len] != s[i],
    ensures
        forall|j: int|
            i <= j < i + len ==> (#[trigger] in_triple(s, j) <==> (s[i] != 0 && len >= 3)),
{
    assert forall|j: int| i <= j < i + len implies (#[trigger] in_triple(s, j) <==> (s[i] != 0
        && len >= 3)) by {
        if s[i] != 0 && len >= 3 {
            if j == i {
                assert(triple_at(s, j));
            } else if j == i + 1 {
                assert(s[j - 1] == s[i] && s[j + 1] == s[i]);
                assert(triple_at(s, j - 1));
            } else {
                assert(s[j - 2] == s[i] && s[j - 1] == s[i]);
                assert(triple_at(s, j - 2));
            }
        } else {
            assert forall|t: int| j - 2 <= t <= j implies !triple_at(s, t) by {
                if triple_at(s, t) {
                    assert(s[j] == s[t]);
                    if t < i {
                        assert(s[i - 1] == s[t] && s[i] == s[t]);
                    } else if t + 2 >= i + len {
                        assert(s[i + len - 1] == s[t] && s[i + len] == s[t]);
                    } else {
                        assert(s[t + 2] == s[i]);
                    }
                }
            }
        }
    }
}

/// Every cell of a run holds the run's first value.
pub proof fn lemma_run_cells(s: Seq<u8>, i: int)
    requires
        0 <= i < s.len(),
    ensures
        i + run_tail(s, i) < s.len(),
        forall|k: int| i <= k <= i + run_tail(s, i) ==> #[trigger] s[k] == s[i],
    decreases s.len() - i,
{
    lemma_run_tail_bound(s, i);
    if i + 1 < s.len() && s[i + 1] == s[i] {
        lemma_run_cells(s, i + 1);
    }
}

/// A line without a window of three identical gems scores nothing.
pub proof fn lemma_no_triple_no_points(s: Seq<u8>, i: int)
    requires
        forall|t: int| !#[trigger] triple_at(s, t),
    ensures
        line_points(s, i) == 0,
    decreases s.len() - i,
{
    if 0 <= i < s.len() {
        lemma_run_cells(s, i);
        if s[i] != 0 && run_len(s, i) >= 3 {
            assert(s[i + 1] == s[i] && s[i + 2] == s[i]);
            assert(triple_at(s, i));
        }
        lemma_no_triple_no_points(s, i + run_len(s, i));
    }
}

/// A window of three identical gems on `cleared(g)` was one on `g` already, so
/// none is left.
proof fn lemma_cleared_no_triples(g: Seq<Seq<u8>>)
    requires
        shaped(g),
    ensures
        forall|c: int, t: int| 0 <= c < BOARD_WIDTH ==> !#[trigger] triple_at(cleared(g)[c], t),
        forall|r: int, t: int|
            0 <= r < BOARD_HEIGHT ==> !#[trigger] triple_at(row_line(cleared(g), r), t),
{
    let h = cleared(g);
    assert forall|c: int, t: int| 0 <= c < BOARD_WIDTH implies !#[trigger] triple_at(h[c], t) by {
        if triple_at(h[c], t) {
            assert(!in_match(g, c, t) && !in_match(g, c, t + 1) && !in_match(g, c, t + 2));
            assert(triple_at(g[c], t));
            assert(in_vmatch(g, c, t));
        }
    }
    assert forall|r: int, t: int| 0 <= r < BOARD_HEIGHT implies !#[trigger] triple_at(
        row_line(h, r),
        t,
    ) by {
        if triple_at(row_line(h, r), t) {
            assert(!in_match(g, t, r) && !in_match(g, t + 1, r) && !in_match(g, t + 2, r));
            assert(triple_at(row_line(g, r), t));
            assert(in_hmatch(g, t, r));
        }
    }
}

/// Points of the first `n` columns and rows of a grid without any window of
/// three identical gems.
proof fn lemma_no_triples_no_points(g: Seq<Seq<u8>>, n: int)
    requires
        forall|c: int, t: int| 0 <= c < BOARD_WIDTH ==> !#[trigger] triple_at(g[c], t),
        forall|r: int, t: int| 0 <= r < BOARD_HEIGHT ==> !#[trigger] triple_at(row_line(g, r), t),
        n <= BOARD_WIDTH,
        n <= BOARD_HEIGHT,
    ensures
        cols_points(g, n) == 0,
        rows_points(g, n) == 0,
    decreases n,
{
    if n > 0 {
        lemma_no_triples_no_points(g, n - 1);
        lemma_no_triple_no_points(g[n - 1], 0);
        lemma_no_triple_no_points(row_line(g, n - 1), 0);
    }
}

/// After one match pass no run of three or more identical gems remains
/// anywhere, and a second pass neither changes the board nor scores.
pub proof fn lemma_match_pass_settles(g: Seq<Seq<u8>>)
    requires
        shaped(g),
    ensures
        no_match(cleared(g)),
        cleared(cleared(g)) == cleared(g),
        board_points(cleared(g)) == 0,
{
    let h = cleared(g);
    lemma_cleared_no_triples(g);
    assert(shaped(h));
    assert forall|c: int, r: int| on_board(c, r) implies !#[trigger] in_match(h, c, r) by {
        assert(!triple_at(h[c], r - 2) && !triple_at(h[c], r - 1) && !triple_at(h[c], r));
        assert(!triple_at(row_line(h, r), c - 2) && !triple_at(row_line(h, r), c - 1)
            && !triple_at(row_line(h, r), c));
    }
    lemma_grid_ext(cleared(h), h);
    lemma_no_triples_no_points(h, BOARD_WIDTH as int);
}

} // verus!
