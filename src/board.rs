use vstd::prelude::*;
use crate::grid::{Grid, Status, MAX_CELLS, count_of, window_value};
use crate::player::Player;

verus! {

/// The only failure of a move: the column is full.
#[derive(Clone, Copy, PartialEq, Eq, Debug, Structural)]
pub enum Connect4Error {
    InvalidMove,
}

/// Status and heuristic score of a position.
pub type InternalStatus = (Status, i32);

/// The cells of the winning line (empty unless won), with the status.
pub type CurrentState = (Vec<(usize, usize)>, InternalStatus);

/// A board of `rows` by `cols` cells, row 0 at the top, with a counter of the
/// positions the last search visited.
pub struct Connect4 {
    pub rows: usize,
    pub cols: usize,
    pub board: Vec<Vec<Option<Player>>>,
    pub nodes: u64,
}

impl View for Connect4 {
    type V = Grid;

    open spec fn view(&self) -> Grid {
        Grid {
            cells: self.board@.map_values(|row: Vec<Option<Player>>| row@),
            rows: self.rows as int,
            cols: self.cols as int,
        }
    }
}

/// Coordinates as integers.
pub open spec fn coords(v: Seq<(usize, usize)>) -> Seq<(int, int)> {
    v.map_values(|x: (usize, usize)| (x.0 as int, x.1 as int))
}

impl Connect4 {
    pub open spec fn wf(&self) -> bool {
        self@.wf()
    }

    /// An empty board of `rows` by `cols` cells.
    pub fn new(rows: usize, cols: usize) -> (r: Connect4)
        requires
            rows * cols <= MAX_CELLS,
        ensures
            r.wf(),
            r.rows == rows,
            r.cols == cols,
            r.nodes == 0,
            forall|i: int, j: int| r@.in_bounds(i, j) ==> r@.at(i, j) is None,
    {
        let mut board: Vec<Vec<Option<Player>>> = Vec::new();
        let mut i: usize = 0;
        while i < rows
            invariant
                i <= rows,
                board@.len() == i,
                forall|k: int| 0 <= k < i ==> (#[trigger] board@[k])@.len() == cols,
                forall|k: int, j: int| 0 <= k < i && 0 <= j < cols ==> (#[trigger] board@[k]@[j]) is None,
            decreases rows - i,
        {
            let mut row: Vec<Option<Player>> = Vec::new();
            let mut j: usize = 0;
            while j < cols
                invariant
                    j <= cols,
                    row@.len() == j,
                    forall|k: int| 0 <= k < j ==> (#[trigger] row@[k]) is None,
                decreases cols - j,
            {
                row.push(None);
                j += 1;
            }
            board.push(row);
            i += 1;
        }
        let r = Connect4 { rows, cols, board, nodes: 0 };
        assert(r@.settled());
        r
    }

    /// The piece in cell `(row, col)`.
    pub fn cell(&self, row: usize, col: usize) -> (r: Option<Player>)
        requires
            self.wf(),
            row < self.rows,
            col < self.cols,
        ensures
            r == self@.at(row as int, col as int),
    {
        self.board[row][col]
    }

    /// Drops a piece of `player` into column `col`: it lands on the lowest
    /// empty cell, whose row is returned. A full column is refused and the
    /// board left as it was.
    pub fn drop_piece(&mut self, player: Player, col: usize) -> (res: Result<usize, Connect4Error>)
        requires
            old(self).wf(),
            col < old(self).cols,
        ensures
            final(self).wf(),
            final(self).nodes == old(self).nodes,
            res is Ok <==> old(self)@.open(col as int),
            match res {
                Ok(row) => {
                    &&& row == old(self)@.landing_row(col as int)
                    &&& old(self)@.at(row as int, col as int) is None
                    &&& final(self)@ == old(self)@.place(col as int, player)
                },
                Err(e) => e == Connect4Error::InvalidMove && final(self)@ == old(self)@,
            },
    {
        let ghost g = self@;
        let ghost n = self.nodes;
        let mut i: usize = 0;
        while i < self.rows
            invariant
                g == self@,
                n == self.nodes,
                n == old(self).nodes,
                g == old(self)@,
                g.wf(),
                col < g.cols,
                i <= g.rows,
                g.landing_row(col as int) == g.lowest_empty(col as int, g.rows - 1 - i),
                forall|k: int| g.rows - i <= k < g.rows ==> (#[trigger] g.at(k, col as int)) is Some,
            decreases self.rows - i,
        {
            let row = self.rows - 1 - i;
            assert(g.cells[row as int].len() == g.cols);
            if self.board[row][col].is_none() {
                assert(g.open(col as int)) by {
                    if g.at(0, col as int) is Some {
                        assert(g.cells[0][col as int] is Some);
                        assert(g.cells[row as int][col as int] is Some);
                    }
                }
                self.board[row][col] = Some(player);
                proof {
                    let g2 = g.place(col as int, player);
                    assert(self@.cells =~~= g2.cells);
                    assert(g.open(col as int)) by {
                        if g.at(0, col as int) is Some {
                            assert(g.at(row as int, col as int) is Some);
                        }
                    }
                    assert(self@.settled()) by {
                        assert forall|a: int, b: int, c: int|
                            0 <= a <= b < self@.rows && 0 <= c < self@.cols
                                && (#[trigger] self@.cells[a][c]) is Some
                            implies (#[trigger] self@.cells[b][c]) is Some by {
                            if c == col && b == row {
                            } else if c == col && a == row {
                                assert(g.at(b, c) is Some);
                            } else if c == col && b > row {
                                assert(g.at(b, c) is Some);
                            } else if c == col {
                                assert(g.cells[a][c] is Some);
                                assert(g.cells[row as int][c] is Some);
                            } else {
                                assert(g.cells[a][c] is Some);
                            }
                        }
                    }
                }
                return Ok(row);
            }
            i += 1;
        }
        proof {
            assert(g.lowest_empty(col as int, -1) == -1);
            if g.open(col as int) {
                assert(g.at(0, col as int) is Some);
            }
        }
        Err(Connect4Error::InvalidMove)
    }

    /// Empties cell `(row, col)`, the top piece of its column: undoes the
    /// drop that filled it.
    pub fn retract(&mut self, row: usize, col: usize)
        requires
            old(self).wf(),
            row < old(self).rows,
            col < old(self).cols,
            row == 0 || old(self)@.at(row - 1, col as int) is None,
        ensures
            final(self).wf(),
            final(self).nodes == old(self).nodes,
            final(self)@ == old(self)@.set(row as int, col as int, None),
    {
        let ghost g = self@;
        assert(g.cells[row as int].len() == g.cols);
        self.board[row][col] = None;
        proof {
            assert(self@.cells =~~= g.set(row as int, col as int, None).cells);
            assert(self@.settled()) by {
                assert forall|a: int, b: int, c: int|
                    0 <= a <= b < self@.rows && 0 <= c < self@.cols
                        && (#[trigger] self@.cells[a][c]) is Some
                    implies (#[trigger] self@.cells[b][c]) is Some by {
                    assert(g.cells[a][c] is Some);
                    if c == col && b == row {
                        assert(g.cells[row - 1][c] is Some);
                    }
                }
            }
        }
    }
}


/// A count never exceeds the length.
proof fn lemma_count_le(s: Seq<Option<Player>>, v: Option<Player>)
    ensures
        count_of(s, v) <= s.len(),
    decreases s.len(),
{
    if s.len() > 0 {
        lemma_count_le(s.drop_last(), v);
    }
}

/// `a * b + c < a * b + b <= n * b` for `a < n` and `c < b`.
proof fn lemma_cell_index(a: int, b: int, c: int, n: int)
    requires
        0 <= a < n,
        0 <= c < b,
    ensures
        a * b + c + 1 <= n * b,
{
    assert(a * b + c + 1 <= (a + 1) * b) by (nonlinear_arith)
        requires
            0 <= c < b,
    ;
    assert((a + 1) * b <= n * b) by (nonlinear_arith)
        requires
            a + 1 <= n,
            0 <= b,
    ;
}

impl Connect4 {
    /// Score of a window of cells by its counts of `Human`, `Computer` and
    /// empty cells.
    pub fn score(&self, cells: &[Option<Player>]) -> (r: i32)
        ensures
            r == window_value(cells@),
    {
        let mut empty: usize = 0;
        let mut count_human: usize = 0;
        let mut count_computer: usize = 0;
        let mut i: usize = 0;
        while i < cells.len()
            invariant
                i <= cells@.len(),
                empty == count_of(cells@.take(i as int), None),
                count_human == count_of(cells@.take(i as int), Some(Player::Human)),
                count_computer == count_of(cells@.take(i as int), Some(Player::Computer)),
                empty <= i,
                count_human <= i,
                count_computer <= i,
            decreases cells@.len() - i,
        {
            let ghost s = cells@.take(i as int + 1);
            assert(s.drop_last() =~= cells@.take(i as int));
            assert(s.last() == cells@[i as int]);
            proof {
                lemma_count_le(cells@.take(i as int), None);
            }
            match cells[i] {
                Some(Player::Human) => count_human += 1,
                Some(Player::Computer) => count_computer += 1,
                None => empty += 1,
            }
            i += 1;
        }
        assert(cells@.take(cells@.len() as int) =~= cells@);
        match (count_human, count_computer, empty) {
            (4, 0, 0) => -100,
            (3, 0, 1) => -50,
            (2, 0, 2) => -20,
            (1, 0, 3) => -10,
            (0, 4, 0) => 100,
            (0, 3, 1) => 50,
            (0, 2, 2) => 20,
            (0, 1, 3) => 10,
            _ => 0,
        }
    }

    /// Score of the window anchored at `(r, c)` in direction `d` (right, down,
    /// down-right, down-left), or 0 where it leaves the board.
    fn direction_score(&self, r: usize, c: usize, d: usize) -> (s: i32)
        requires
            self.wf(),
            r < self.rows,
            c < self.cols,
            d < 4,
        ensures
            s == self@.window_score(r as int, c as int, d as int),
            -100 <= s <= 100,
    {
        let ghost g = self@;
        assert(g.cells[r as int].len() == g.cols);
        if d == 0 {
            if 3 < self.cols - c {
                let cells = [self.board[r][c], self.board[r][c + 1], self.board[r][c + 2], self.board[r][c + 3]];
                assert(cells@ =~= g.window(r as int, c as int, 0));
                self.score(&cells)
            } else {
                0
            }
        } else if 3 < self.rows - r {
            assert(g.cells[r + 1].len() == g.cols);
            assert(g.cells[r + 2].len() == g.cols);
            assert(g.cells[r + 3].len() == g.cols);
            if d == 1 {
                let cells = [self.board[r][c], self.board[r + 1][c], self.board[r + 2][c], self.board[r + 3][c]];
                assert(cells@ =~= g.window(r as int, c as int, 1));
                self.score(&cells)
            } else if d == 2 {
                if 3 < self.cols - c {
                    let cells = [self.board[r][c], self.board[r + 1][c + 1], self.board[r + 2][c + 2], self.board[r + 3][c + 3]];
                    assert(cells@ =~= g.window(r as int, c as int, 2));
                    self.score(&cells)
                } else {
                    0
                }
            } else if c >= 3 {
                let cells = [self.board[r][c], self.board[r + 1][c - 1], self.board[r + 2][c - 2], self.board[r + 3][c - 3]];
                assert(cells@ =~= g.window(r as int, c as int, 3));
                self.score(&cells)
            } else {
                0
            }
        } else {
            0
        }
    }

    /// The heuristic score of the board, the sum of the scores of all its
    /// windows of four cells, and whether an empty cell remains.
    pub fn score_based_current_state(&self) -> (res: (i32, bool))
        requires
            self.wf(),
        ensures
            res.0 == self@.heuristic(),
            res.1 == self@.has_empty(),
    {
        let ghost g = self@;
        let mut score: i32 = 0;
        let mut empty_cell_found = false;
        let mut r: usize = 0;
        while r < self.rows
            invariant
                g == self@,
                g.wf(),
                r <= self.rows,
                score == g.rows_score(r as int),
                -400 * (r * self.cols) <= score <= 400 * (r * self.cols),
                empty_cell_found == g.empty_before(r as int, 0),
            decreases self.rows - r,
        {
            let mut c: usize = 0;
            assert(g.cells[r as int].len() == g.cols);
            while c < self.cols
                invariant
                    g == self@,
                    g.wf(),
                    r < self.rows,
                    c <= self.cols,
                    score == g.rows_score(r as int) + g.row_score(r as int, c as int),
                    -400 * (r * self.cols + c) <= score <= 400 * (r * self.cols + c),
                    empty_cell_found == g.empty_before(r as int, c as int),
                decreases self.cols - c,
            {
                proof {
                    lemma_cell_index(r as int, self.cols as int, c as int, self.rows as int);
                }
                if self.board[r][c].is_none() {
                    empty_cell_found = true;
                    assert(g.at(r as int, c as int) is None);
                }
                let s0 = self.direction_score(r, c, 0);
                let s1 = self.direction_score(r, c, 1);
                let s2 = self.direction_score(r, c, 2);
                let s3 = self.direction_score(r, c, 3);
                score = score + s0 + s1 + s2 + s3;
                c += 1;
            }
            proof {
                assert(r * self.cols + self.cols == (r + 1) * self.cols) by (nonlinear_arith);
            }
            r += 1;
        }
        (score, empty_cell_found)
    }
}

impl Connect4 {
    /// The first direction (right, down, down-right, down-left) in which four
    /// cells from `(r, c)` hold the player of that occupied cell.
    fn win_direction(&self, r: usize, c: usize) -> (res: Option<usize>)
        requires
            self.wf(),
            r < self.rows,
            c < self.cols,
        ensures
            match res {
                Some(d) => self@.win_dir(r as int, c as int) == Some(d as int),
                None => self@.win_dir(r as int, c as int) is None,
            },
    {
        let ghost g = self@;
        assert(g.cells[r as int].len() == g.cols);
        let player = self.board[r][c];
        if player.is_none() {
            return None;
        }
        if 3 < self.cols - c && player == self.board[r][c + 1] && player == self.board[r][c + 2]
            && player == self.board[r][c + 3] {
            return Some(0);
        }
        if 3 < self.rows - r {
            assert(g.cells[r + 1].len() == g.cols);
            assert(g.cells[r + 2].len() == g.cols);
            assert(g.cells[r + 3].len() == g.cols);
            if player == self.board[r + 1][c] && player == self.board[r + 2][c]
                && player == self.board[r + 3][c] {
                return Some(1);
            }
            if 3 < self.cols - c && player == self.board[r + 1][c + 1]
                && player == self.board[r + 2][c + 2] && player == self.board[r + 3][c + 3] {
                return Some(2);
            }
            if c >= 3 && player == self.board[r + 1][c - 1] && player == self.board[r + 2][c - 2]
                && player == self.board[r + 3][c - 3] {
                return Some(3);
            }
        }
        None
    }

    /// Scans the board for a line of four, in row-major order of the anchor
    /// cell and, per cell, in the order right, down, down-right, down-left.
    /// The first line found decides the game; without one a full board is a
    /// tie and any other is still running.
    pub fn check_winner(&self) -> (res: CurrentState)
        requires
            self.wf(),
        ensures
            coords(res.0@) == self@.winning_cells(),
            res.1.0 == self@.status(),
            res.1.1 == 0,
    {
        let ghost g = self@;
        let mut empty_cell_found = false;
        let score: i32 = 0;
        let mut r: usize = 0;
        while r < self.rows
            invariant
                g == self@,
                g.wf(),
                r <= self.rows,
                score == 0,
                g.first_win() == g.first_win_from(r as int),
                empty_cell_found == g.empty_before(r as int, 0),
            decreases self.rows - r,
        {
            let mut c: usize = 0;
            assert(g.cells[r as int].len() == g.cols);
            while c < self.cols
                invariant
                    g == self@,
                    g.wf(),
                    r < self.rows,
                    c <= self.cols,
                    score == 0,
                    g.first_win() == g.first_win_at(r as int, c as int),
                    empty_cell_found == g.empty_before(r as int, c as int),
                decreases self.cols - c,
            {
                if self.board[r][c].is_none() {
                    empty_cell_found = true;
                    assert(g.at(r as int, c as int) is None);
                }
                match self.win_direction(r, c) {
                    Some(d) => {
                        let cells = if d == 0 {
                            vec![(r, c), (r, c + 1), (r, c + 2), (r, c + 3)]
                        } else if d == 1 {
                            vec![(r, c), (r + 1, c), (r + 2, c), (r + 3, c)]
                        } else if d == 2 {
                            vec![(r, c), (r + 1, c + 1), (r + 2, c + 2), (r + 3, c + 3)]
                        } else {
                            vec![(r, c), (r + 1, c - 1), (r + 2, c - 2), (r + 3, c - 3)]
                        };
                        let winner = self.board[r][c].unwrap();
                        assert(coords(cells@) =~= Grid::line_cells(r as int, c as int, d as int));
                        return (cells, (Status::WonBy(winner), score));
                    },
                    None => {},
                }
                c += 1;
            }
            r += 1;
        }
        if empty_cell_found {
            (vec![], (Status::Running, score))
        } else {
            (vec![], (Status::Tie, score))
        }
    }

    /// Drops a piece of `player` into column `col` and reports the resulting
    /// state of the game.
    pub fn move_and_check(&mut self, player: Player, col: usize) -> (res: Result<CurrentState, Connect4Error>)
        requires
            old(self).wf(),
            col < old(self).cols,
        ensures
            final(self).wf(),
            final(self).nodes == old(self).nodes,
            res is Ok <==> old(self)@.open(col as int),
            match res {
                Ok(state) => {
                    &&& final(self)@ == old(self)@.place(col as int, player)
                    &&& coords(state.0@) == final(self)@.winning_cells()
                    &&& state.1.0 == final(self)@.status()
                    &&& state.1.1 == 0
                },
                Err(e) => e == Connect4Error::InvalidMove && final(self)@ == old(self)@,
            },
    {
        match self.drop_piece(player, col) {
            Ok(_) => Ok(self.check_winner()),
            Err(e) => Err(e),
        }
    }
}

} // verus!
