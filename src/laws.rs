use vstd::prelude::*;
use crate::grid::{Grid, Status, count_of, window_value, dr as dr_of, dc as dc_of};
use crate::player::Player;
use crate::search::{lemma_best_from_open, node_bound};

verus! {

/// What the scan of one row finds is a line of that row, and when it finds
/// none there is none from column `c` on.
proof fn lemma_first_win_in_row(g: Grid, r: int, c: int)
    requires
        0 <= c,
    ensures
        match g.first_win_in_row(r, c) {
            Some((r2, c2, d)) => r2 == r && g.line_at(r2, c2, d),
            None => forall|c2: int, d: int| c <= c2 ==> !#[trigger] g.line_at(r, c2, d),
        },
    decreases g.cols - c,
{
    if c < g.cols {
        lemma_first_win_in_row(g, r, c + 1);
        if g.win_dir(r, c) is None && g.first_win_in_row(r, c + 1) is None {
            assert forall|c2: int, d: int| c <= c2 implies !#[trigger] g.line_at(r, c2, d) by {
                if c2 == c && g.line_at(r, c2, d) {
                    assert(d == 0 || d == 1 || d == 2 || d == 3);
                }
            }
        }
    }
}

/// What the scan from row `r` finds is a line, and when it finds none there
/// is none anchored in row `r` or below it.
proof fn lemma_first_win_from(g: Grid, r: int)
    requires
        r >= 0,
    ensures
        match g.first_win_from(r) {
            Some((r2, c2, d)) => g.line_at(r2, c2, d),
            None => forall|r2: int, c2: int, d: int| r <= r2 ==> !#[trigger] g.line_at(r2, c2, d),
        },
    decreases g.rows - r,
{
    if r < g.rows {
        lemma_first_win_in_row(g, r, 0);
        lemma_first_win_from(g, r + 1);
        assert forall|r2: int, c2: int, d: int| r <= r2 && g.first_win_from(r) is None
            implies !#[trigger] g.line_at(r2, c2, d) by {
            if r2 == r && g.line_at(r2, c2, d) {
                assert(0 <= c2);
            }
        }
    }
}

/// The reported status: a tie exactly when the board is full and holds no
/// line of four, running exactly when a cell is empty and there is no line,
/// and a win only for a player with a line; a player with a line wins when
/// the other has none.
pub proof fn lemma_status(g: Grid, p: Player)
    requires
        g.wf(),
    ensures
        g.status() == Status::Tie <==> (!g.has_empty() && !g.has_line(Player::Human) && !g.has_line(Player::Computer)),
        g.status() == Status::Running <==> (g.has_empty() && !g.has_line(Player::Human) && !g.has_line(Player::Computer)),
        g.status() == Status::WonBy(p) ==> g.has_line(p),
        g.has_line(p) && !g.has_line(p.spec_other()) ==> g.status() == Status::WonBy(p),
{
    lemma_first_win_from(g, 0);
    match g.first_win() {
        Some((r, c, d)) => {
            assert(g.line_at(r, c, d));
            let q = g.at(r, c)->Some_0;
            assert(g.has_line(q));
            if q == Player::Human {
                assert(g.has_line(Player::Human));
            } else {
                assert(g.has_line(Player::Computer));
            }
        },
        None => {
            assert forall|q: Player| !g.has_line(q) by {
                if g.has_line(q) {
                    let (r, c, d) = choose|r: int, c: int, d: int| #[trigger] g.line_at(r, c, d) && g.at(r, c) == Some(q);
                    assert(0 <= r);
                }
            }
        },
    }
}

/// No window of four holds pieces of only one player.
pub open spec fn no_single_player_window(g: Grid) -> bool {
    forall|r: int, c: int, d: int| #[trigger] g.window_valid(r, c, d) ==> {
        let w = g.window(r, c, d);
        (count_of(w, Some(Player::Human)) == 0 && count_of(w, Some(Player::Computer)) == 0)
            || (count_of(w, Some(Player::Human)) > 0 && count_of(w, Some(Player::Computer)) > 0)
    }
}

/// A window that holds no piece, or pieces of both players, scores nothing.
proof fn lemma_window_zero(s: Seq<Option<Player>>)
    requires
        (count_of(s, Some(Player::Human)) == 0 && count_of(s, Some(Player::Computer)) == 0)
            || (count_of(s, Some(Player::Human)) > 0 && count_of(s, Some(Player::Computer)) > 0),
    ensures
        window_value(s) == 0,
{
}

/// The heuristic is zero on a board where no window of four holds pieces of
/// only one player.
pub proof fn lemma_heuristic_zero(g: Grid)
    requires
        no_single_player_window(g),
    ensures
        g.heuristic() == 0,
{
    assert forall|r: int, c: int| #[trigger] g.anchor_score(r, c) == 0 by {
        assert forall|d: int| #[trigger] g.window_score(r, c, d) == 0 by {
            if g.window_valid(r, c, d) {
                lemma_window_zero(g.window(r, c, d));
            }
        }
        assert(g.window_score(r, c, 0) == 0);
        assert(g.window_score(r, c, 1) == 0);
        assert(g.window_score(r, c, 2) == 0);
        assert(g.window_score(r, c, 3) == 0);
    }
    lemma_rows_zero(g, g.rows);
}

proof fn lemma_rows_zero(g: Grid, m: int)
    requires
        forall|r: int, c: int| #[trigger] g.anchor_score(r, c) == 0,
    ensures
        g.rows_score(m) == 0,
    decreases m,
{
    if m > 0 {
        lemma_rows_zero(g, m - 1);
        lemma_row_zero(g, m - 1, g.cols);
    }
}

proof fn lemma_row_zero(g: Grid, r: int, n: int)
    requires
        forall|r: int, c: int| #[trigger] g.anchor_score(r, c) == 0,
    ensures
        g.row_score(r, n) == 0,
    decreases n,
{
    if n > 0 {
        lemma_row_zero(g, r, n - 1);
    }
}

/// An empty board scores zero.
pub proof fn lemma_empty_board_heuristic_zero(g: Grid)
    requires
        forall|r: int, c: int| g.in_bounds(r, c) ==> #[trigger] g.at(r, c) is None,
    ensures
        g.heuristic() == 0,
{
    assert forall|r: int, c: int, d: int| #[trigger] g.window_valid(r, c, d) implies {
        let w = g.window(r, c, d);
        count_of(w, Some(Player::Human)) == 0 && count_of(w, Some(Player::Computer)) == 0
    } by {
        let w = g.window(r, c, d);
        assert(g.in_bounds(r + dr_of(d), c + dc_of(d)));
        assert(g.in_bounds(r + 2 * dr_of(d), c + 2 * dc_of(d)));
        assert(w =~= seq![None, None, None, None]);
        reveal_with_fuel(count_of, 5);
    }
    lemma_heuristic_zero(g);
}

/// Dropping a piece and emptying the cell it landed on gives back the grid.
pub proof fn lemma_place_retract(g: Grid, c: int, p: Player)
    requires
        g.wf(),
        g.open(c),
    ensures
        0 <= g.landing_row(c) < g.rows,
        g.at(g.landing_row(c), c) is None,
        g.landing_row(c) == 0 || g.place(c, p).at(g.landing_row(c) - 1, c) is None,
        g.place(c, p).set(g.landing_row(c), c, None) == g,
{
    lemma_lowest_empty(g, c, g.rows - 1);
    let r = g.landing_row(c);
    if r > 0 {
        if g.at(r - 1, c) is Some {
            assert(g.cells[r - 1][c] is Some);
            assert(g.cells[r][c] is Some);
        }
    }
    assert(g.place(c, p).set(r, c, None).cells =~~= g.cells);
}

/// In an open column, the lowest empty cell at or above row `r` exists once
/// the top cell is empty.
proof fn lemma_lowest_empty(g: Grid, c: int, r: int)
    requires
        g.wf(),
        g.open(c),
        0 <= r < g.rows,
    ensures
        0 <= g.lowest_empty(c, r) <= r,
        g.at(g.lowest_empty(c, r), c) is None,
    decreases r,
{
    if g.cells[r][c] is Some {
        lemma_lowest_empty(g, c, r - 1);
    }
}

/// The column the search picks is open, and it picks none only when every
/// column is full.
pub proof fn lemma_best_column_open(g: Grid, p: Player)
    requires
        g.wf(),
    ensures
        match g.best_column(p) {
            Some(c) => g.open(c),
            None => forall|c: int| !#[trigger] g.open(c),
        },
{
    lemma_best_from_open(g, p, 0, None);
    if g.best_column(p) is None {
        assert forall|c: int| !#[trigger] g.open(c) by {
            if g.open(c) {
                assert(0 <= c);
            }
        }
    }
}

/// On seven columns a search visits at most 1 + 7 + ... + 7^6 positions
/// below each root move, so a move on such a board visits at most
/// `7 * 137257 == 960799` positions.
pub proof fn lemma_node_bound_seven_columns()
    ensures
        node_bound(7, 0) == 137257,
        7 * node_bound(7, 0) == 960799,
{
    reveal_with_fuel(node_bound, 8);
}

/// Score `a` is strictly better than `b` for `p`: lower for `Human`, higher
/// for `Computer`.
pub open spec fn prefers(p: Player, a: int, b: int) -> bool {
    if p == Player::Human { a < b } else { a > b }
}

/// `best` is the best root move among the open columns before `col`, the
/// lowest one among equals.
pub open spec fn best_before(g: Grid, p: Player, col: int, best: Option<(int, int)>) -> bool {
    match best {
        None => forall|c: int| 0 <= c < col ==> !#[trigger] g.open(c),
        Some((b, sb)) => {
            &&& 0 <= b < col
            &&& g.open(b)
            &&& sb == g.root_score(p, b)
            &&& forall|c: int| 0 <= c < col && #[trigger] g.open(c) ==> !prefers(p, g.root_score(p, c), sb)
            &&& forall|c: int| 0 <= c < b && #[trigger] g.open(c) ==> prefers(p, sb, g.root_score(p, c))
        },
    }
}

proof fn lemma_best_from_best(g: Grid, p: Player, col: int, best: Option<(int, int)>)
    requires
        0 <= col <= g.cols,
        best_before(g, p, col, best),
    ensures
        best_before(g, p, g.cols, g.best_from(p, col, best)),
    decreases g.cols - col,
{
    if col < g.cols {
        if !g.open(col) {
            lemma_best_from_best(g, p, col + 1, best);
        } else {
            let s = g.root_score(p, col);
            let better = match best {
                None => true,
                Some((_c, b)) => if p == Player::Human { s < b } else { s > b },
            };
            let next = if better { Some((col, s)) } else { best };
            assert(best_before(g, p, col + 1, next));
            lemma_best_from_best(g, p, col + 1, next);
        }
    }
}

/// The column the search picks is open, no open column scores strictly
/// better for `p`, and every open column left of it scores strictly worse:
/// the best root move, the lowest one on ties.
pub proof fn lemma_best_column_is_best(g: Grid, p: Player)
    requires
        g.wf(),
    ensures
        match g.best_column(p) {
            Some(c) => {
                &&& g.open(c)
                &&& forall|c2: int| #[trigger] g.open(c2) ==> !prefers(p, g.root_score(p, c2), g.root_score(p, c))
                &&& forall|c2: int| c2 < c && #[trigger] g.open(c2) ==> prefers(p, g.root_score(p, c), g.root_score(p, c2))
            },
            None => forall|c: int| !#[trigger] g.open(c),
        },
{
    lemma_best_from_best(g, p, 0, None);
}

} // verus!
