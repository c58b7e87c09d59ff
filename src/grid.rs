use vstd::prelude::*;
use crate::player::Player;

verus! {

/// Largest number of cells a board may have: every one of the at most four
/// windows anchored at a cell scores at most 100 in magnitude, and the sum of
/// all of them must fit in an `i32`.
pub const MAX_CELLS: usize = 5_000_000;

/// Outcome of a position.
#[derive(Clone, Copy, PartialEq, Eq, Debug, Structural)]
pub enum Status {
    WonBy(Player),
    Tie,
    Running,
}

/// The mathematical model of a board: `rows` rows of `cols` cells, row 0 at the
/// top, pieces falling towards row `rows - 1`.
pub struct Grid {
    pub cells: Seq<Seq<Option<Player>>>,
    pub rows: int,
    pub cols: int,
}

/// Row step of direction `d`: right, down, down-right, down-left.
pub open spec fn dr(d: int) -> int {
    if d == 0 { 0 } else { 1 }
}

/// Column step of direction `d`: right, down, down-right, down-left.
pub open spec fn dc(d: int) -> int {
    if d == 0 { 1 } else if d == 1 { 0 } else if d == 2 { 1 } else { -1 }
}

/// How many entries of `s` equal `v`.
pub open spec fn count_of(s: Seq<Option<Player>>, v: Option<Player>) -> nat
    decreases s.len(),
{
    if s.len() == 0 {
        0
    } else {
        count_of(s.drop_last(), v) + if s.last() == v { 1nat } else { 0nat }
    }
}

/// Score of a window from its counts of `Human`, `Computer` and empty cells:
/// alignments of `Human` count negative, those of `Computer` positive, and a
/// window that holds both players scores nothing.
pub open spec fn window_value(s: Seq<Option<Player>>) -> int {
    let h = count_of(s, Some(Player::Human));
    let k = count_of(s, Some(Player::Computer));
    let e = count_of(s, None);
    if h == 4 && k == 0 && e == 0 { -100 }
    else if h == 3 && k == 0 && e == 1 { -50 }
    else if h == 2 && k == 0 && e == 2 { -20 }
    else if h == 1 && k == 0 && e == 3 { -10 }
    else if h == 0 && k == 4 && e == 0 { 100 }
    else if h == 0 && k == 3 && e == 1 { 50 }
    else if h == 0 && k == 2 && e == 2 { 20 }
    else if h == 0 && k == 1 && e == 3 { 10 }
    else { 0 }
}

impl Grid {
    pub open spec fn in_bounds(self, r: int, c: int) -> bool {
        0 <= r < self.rows && 0 <= c < self.cols
    }

    pub open spec fn at(self, r: int, c: int) -> Option<Player> {
        self.cells[r][c]
    }

    /// `rows` rows, each of `cols` cells.
    pub open spec fn shaped(self) -> bool {
        &&& 0 <= self.rows
        &&& 0 <= self.cols
        &&& self.cells.len() == self.rows
        &&& forall|r: int| 0 <= r < self.rows ==> (#[trigger] self.cells[r]).len() == self.cols
    }

    /// Within every column the occupied cells form a suffix ending at the
    /// bottom row: there is no empty cell under an occupied one.
    pub open spec fn settled(self) -> bool {
        forall|i: int, j: int, c: int|
            0 <= i <= j < self.rows && 0 <= c < self.cols && (#[trigger] self.cells[i][c]) is Some
                ==> (#[trigger] self.cells[j][c]) is Some
    }

    pub open spec fn wf(self) -> bool {
        &&& self.shaped()
        &&& self.settled()
        &&& self.rows * self.cols <= MAX_CELLS
    }

    /// The grid with cell `(r, c)` set to `v`.
    pub open spec fn set(self, r: int, c: int, v: Option<Player>) -> Grid {
        Grid { cells: self.cells.update(r, self.cells[r].update(c, v)), ..self }
    }

    /// A piece can be dropped into column `c`: its top cell is empty.
    pub open spec fn open(self, c: int) -> bool {
        0 <= c < self.cols && 0 < self.rows && self.cells[0][c] is None
    }

    /// The lowest empty cell of column `c` at or above row `r`, or -1.
    pub open spec fn lowest_empty(self, c: int, r: int) -> int
        decreases r + 1,
    {
        if r < 0 {
            -1
        } else if self.cells[r][c] is None {
            r
        } else {
            self.lowest_empty(c, r - 1)
        }
    }

    /// The row a piece dropped into column `c` lands on.
    pub open spec fn landing_row(self, c: int) -> int {
        self.lowest_empty(c, self.rows - 1)
    }

    /// The grid after `p` drops a piece into column `c`.
    pub open spec fn place(self, c: int, p: Player) -> Grid {
        self.set(self.landing_row(c), c, Some(p))
    }

    pub open spec fn has_empty(self) -> bool {
        exists|r: int, c: int| self.in_bounds(r, c) && self.at(r, c) is None
    }

    /// The four cells from `(r, c)` in direction `d` lie on the board.
    pub open spec fn window_valid(self, r: int, c: int, d: int) -> bool {
        &&& 0 <= d < 4
        &&& self.in_bounds(r, c)
        &&& self.in_bounds(r + 3 * dr(d), c + 3 * dc(d))
    }

    /// The four cells from `(r, c)` in direction `d`.
    pub open spec fn window(self, r: int, c: int, d: int) -> Seq<Option<Player>> {
        seq![
            self.at(r, c),
            self.at(r + dr(d), c + dc(d)),
            self.at(r + 2 * dr(d), c + 2 * dc(d)),
            self.at(r + 3 * dr(d), c + 3 * dc(d)),
        ]
    }

    pub open spec fn window_score(self, r: int, c: int, d: int) -> int {
        if self.window_valid(r, c, d) { window_value(self.window(r, c, d)) } else { 0 }
    }

    /// The scores of the windows anchored at `(r, c)`.
    pub open spec fn anchor_score(self, r: int, c: int) -> int {
        self.window_score(r, c, 0) + self.window_score(r, c, 1) + self.window_score(r, c, 2)
            + self.window_score(r, c, 3)
    }

    /// The scores of the windows anchored in the first `n` cells of row `r`.
    pub open spec fn row_score(self, r: int, n: int) -> int
        decreases n,
    {
        if n <= 0 { 0 } else { self.row_score(r, n - 1) + self.anchor_score(r, n - 1) }
    }

    /// The scores of the windows anchored in the first `m` rows.
    pub open spec fn rows_score(self, m: int) -> int
        decreases m,
    {
        if m <= 0 { 0 } else { self.rows_score(m - 1) + self.row_score(m - 1, self.cols) }
    }

    /// Sum of the scores of every window of four cells on the board.
    pub open spec fn heuristic(self) -> int {
        self.rows_score(self.rows)
    }

    /// Four cells from the occupied cell `(r, c)` in direction `d` hold the
    /// same player.
    pub open spec fn line_at(self, r: int, c: int, d: int) -> bool {
        &&& self.window_valid(r, c, d)
        &&& self.at(r, c) is Some
        &&& self.at(r + dr(d), c + dc(d)) == self.at(r, c)
        &&& self.at(r + 2 * dr(d), c + 2 * dc(d)) == self.at(r, c)
        &&& self.at(r + 3 * dr(d), c + 3 * dc(d)) == self.at(r, c)
    }

    /// The first direction, in the order right, down, down-right, down-left,
    /// with a line from `(r, c)`.
    pub open spec fn win_dir(self, r: int, c: int) -> Option<int> {
        if self.line_at(r, c, 0) { Some(0) }
        else if self.line_at(r, c, 1) { Some(1) }
        else if self.line_at(r, c, 2) { Some(2) }
        else if self.line_at(r, c, 3) { Some(3) }
        else { None }
    }

    /// The first line anchored in row `r` at column `c` or later.
    pub open spec fn first_win_in_row(self, r: int, c: int) -> Option<(int, int, int)>
        decreases self.cols - c,
    {
        if c >= self.cols || c < 0 {
            None
        } else {
            match self.win_dir(r, c) {
                Some(d) => Some((r, c, d)),
                None => self.first_win_in_row(r, c + 1),
            }
        }
    }

    /// The first line, in row-major order of anchors, anchored in row `r` or later.
    pub open spec fn first_win_from(self, r: int) -> Option<(int, int, int)>
        decreases self.rows - r,
    {
        if r >= self.rows || r < 0 {
            None
        } else {
            match self.first_win_in_row(r, 0) {
                Some(w) => Some(w),
                None => self.first_win_from(r + 1),
            }
        }
    }

    pub open spec fn first_win(self) -> Option<(int, int, int)> {
        self.first_win_from(0)
    }

    pub open spec fn line_cells(r: int, c: int, d: int) -> Seq<(int, int)> {
        seq![
            (r, c),
            (r + dr(d), c + dc(d)),
            (r + 2 * dr(d), c + 2 * dc(d)),
            (r + 3 * dr(d), c + 3 * dc(d)),
        ]
    }

    /// Terminal state of the board: the first line found wins, else a full
    /// board is a tie.
    pub open spec fn status(self) -> Status {
        match self.first_win() {
            Some((r, c, _d)) => Status::WonBy(self.at(r, c)->Some_0),
            None => if self.has_empty() { Status::Running } else { Status::Tie },
        }
    }

    /// The four cells of the line that decided `status`, or none.
    pub open spec fn winning_cells(self) -> Seq<(int, int)> {
        match self.first_win() {
            Some((r, c, d)) => Grid::line_cells(r, c, d),
            None => seq![],
        }
    }

    /// Some cell before `(r, c)` in row-major order is empty.
    pub open spec fn empty_before(self, r: int, c: int) -> bool {
        exists|i: int, j: int|
            self.in_bounds(i, j) && (i < r || (i == r && j < c)) && #[trigger] self.at(i, j) is None
    }

    /// The first line anchored at `(r, c)` or later in row-major order.
    pub open spec fn first_win_at(self, r: int, c: int) -> Option<(int, int, int)> {
        match self.first_win_in_row(r, c) {
            Some(w) => Some(w),
            None => self.first_win_from(r + 1),
        }
    }

    /// `p` has four in a row somewhere on the board.
    pub open spec fn has_line(self, p: Player) -> bool {
        exists|r: int, c: int, d: int| #[trigger] self.line_at(r, c, d) && self.at(r, c) == Some(p)
    }
}

} // verus!
