use vstd::prelude::*;
use crate::board::{Connect4, Connect4Error, CurrentState, coords};
use crate::grid::Grid;
use crate::player::Player;
use crate::laws::lemma_place_retract;

verus! {

/// Number of plies below the root move that the search looks ahead.
pub const SEARCH_DEPTH: u32 = 6;

/// Plies the search may still descend from `depth`.
pub open spec fn plies_left(depth: int) -> int {
    if depth >= SEARCH_DEPTH { 0 } else { SEARCH_DEPTH - depth }
}

/// Most positions a search from `depth` visits on a board of `cols`
/// columns: one per node of a full tree of branching `cols` down to the depth
/// limit, that is `cols^0 + cols^1 + ... + cols^(SEARCH_DEPTH - depth)`.
pub open spec fn node_bound(cols: int, depth: int) -> int
    decreases plies_left(depth),
{
    if depth >= SEARCH_DEPTH { 1 } else { 1 + cols * node_bound(cols, depth + 1) }
}

proof fn lemma_node_bound_pos(cols: int, depth: int)
    requires
        0 <= cols,
    ensures
        node_bound(cols, depth) >= 1,
    decreases plies_left(depth),
{
    if depth < SEARCH_DEPTH {
        lemma_node_bound_pos(cols, depth + 1);
        assert(cols * node_bound(cols, depth + 1) >= 0) by (nonlinear_arith)
            requires
                0 <= cols,
                node_bound(cols, depth + 1) >= 1,
        ;
    }
}

/// `k * b + b == (k + 1) * b`, and `(k + 1) * b <= n * b` for `k < n`.
proof fn lemma_mul_step(k: int, n: int, b: int)
    requires
        0 <= k < n,
        0 <= b,
    ensures
        k * b + b == (k + 1) * b,
        (k + 1) * b <= n * b,
        0 <= k * b,
{
    assert(k * b + b == (k + 1) * b) by (nonlinear_arith);
    assert((k + 1) * b <= n * b) by (nonlinear_arith)
        requires
            k + 1 <= n,
            0 <= b,
    ;
    assert(0 <= k * b) by (nonlinear_arith)
        requires
            0 <= k,
            0 <= b,
    ;
}

/// Whether the reply to a root move by `p` is searched as the maximizing side:
/// `Human` scores negative and answers a maximizing `Computer`.
pub open spec fn reply_maximizes(p: Player) -> bool {
    p == Player::Human
}

/// A search result with its column and score as integers.
pub open spec fn lift(b: Option<(usize, i32)>) -> Option<(int, int)> {
    match b {
        Some((c, s)) => Some((c as int, s as int)),
        None => None,
    }
}

impl Grid {
    /// Value of the position for `p` to move, searched with alpha-beta
    /// pruning: at the depth limit, or on a full board, the heuristic score.
    pub open spec fn minimax(self, p: Player, maxing: bool, alpha: int, beta: int, depth: int) -> int
        decreases plies_left(depth), self.cols + 1,
    {
        if depth >= SEARCH_DEPTH || !self.has_empty() {
            self.heuristic()
        } else {
            self.minimax_from(p, maxing, alpha, beta, depth, 0, if maxing { i32::MIN as int } else { i32::MAX as int })
        }
    }

    /// The fold of the children in columns `col` and later into `best`, the
    /// better so far; the loop stops once `beta <= alpha`.
    pub open spec fn minimax_from(
        self,
        p: Player,
        maxing: bool,
        alpha: int,
        beta: int,
        depth: int,
        col: int,
        best: int,
    ) -> int
        decreases plies_left(depth), self.cols - col,
    {
        if depth >= SEARCH_DEPTH || col < 0 || col >= self.cols {
            best
        } else if !self.open(col) {
            self.minimax_from(p, maxing, alpha, beta, depth, col + 1, best)
        } else {
            let s = self.place(col, p).minimax(p.spec_other(), !maxing, alpha, beta, depth + 1);
            let best2 = if maxing { if s > best { s } else { best } } else { if s < best { s } else { best } };
            let alpha2 = if maxing && best2 > alpha { best2 } else { alpha };
            let beta2 = if !maxing && best2 < beta { best2 } else { beta };
            if beta2 <= alpha2 {
                best2
            } else {
                self.minimax_from(p, maxing, alpha2, beta2, depth, col + 1, best2)
            }
        }
    }

    /// Number of positions the search of `minimax` visits, itself included.
    pub open spec fn visits(self, p: Player, maxing: bool, alpha: int, beta: int, depth: int) -> int
        decreases plies_left(depth), self.cols + 1,
    {
        if depth >= SEARCH_DEPTH || !self.has_empty() {
            1
        } else {
            1 + self.visits_from(p, maxing, alpha, beta, depth, 0, if maxing { i32::MIN as int } else { i32::MAX as int })
        }
    }

    /// Positions visited below the children in columns `col` and later, with
    /// the same pruning as `minimax_from`.
    pub open spec fn visits_from(
        self,
        p: Player,
        maxing: bool,
        alpha: int,
        beta: int,
        depth: int,
        col: int,
        best: int,
    ) -> int
        decreases plies_left(depth), self.cols - col,
    {
        if depth >= SEARCH_DEPTH || col < 0 || col >= self.cols {
            0
        } else if !self.open(col) {
            self.visits_from(p, maxing, alpha, beta, depth, col + 1, best)
        } else {
            let child = self.place(col, p);
            let s = child.minimax(p.spec_other(), !maxing, alpha, beta, depth + 1);
            let v = child.visits(p.spec_other(), !maxing, alpha, beta, depth + 1);
            let best2 = if maxing { if s > best { s } else { best } } else { if s < best { s } else { best } };
            let alpha2 = if maxing && best2 > alpha { best2 } else { alpha };
            let beta2 = if !maxing && best2 < beta { best2 } else { beta };
            if beta2 <= alpha2 {
                v
            } else {
                v + self.visits_from(p, maxing, alpha2, beta2, depth, col + 1, best2)
            }
        }
    }

    /// Score of the root move of `p` into column `c`: the value of the reply.
    pub open spec fn root_score(self, p: Player, c: int) -> int {
        self.place(c, p).minimax(p.spec_other(), reply_maximizes(p), i32::MIN as int, i32::MAX as int, 0)
    }

    /// The best root move among the open columns from `col` on, given the
    /// best so far: lowest for `Human`, highest for `Computer`, the first on
    /// ties.
    pub open spec fn best_from(self, p: Player, col: int, best: Option<(int, int)>) -> Option<(int, int)>
        decreases self.cols - col,
    {
        if col < 0 || col >= self.cols {
            best
        } else if !self.open(col) {
            self.best_from(p, col + 1, best)
        } else {
            let s = self.root_score(p, col);
            let better = match best {
                None => true,
                Some((_c, b)) => if p == Player::Human { s < b } else { s > b },
            };
            self.best_from(p, col + 1, if better { Some((col, s)) } else { best })
        }
    }

    /// Positions the root search of `p` visits below the open columns from
    /// `col` on.
    pub open spec fn root_visits_from(self, p: Player, col: int) -> int
        decreases self.cols - col,
    {
        if col < 0 || col >= self.cols {
            0
        } else if !self.open(col) {
            self.root_visits_from(p, col + 1)
        } else {
            self.place(col, p).visits(p.spec_other(), reply_maximizes(p), i32::MIN as int, i32::MAX as int, 0)
                + self.root_visits_from(p, col + 1)
        }
    }

    /// The column the search picks for `p`, if any is open.
    pub open spec fn best_column(self, p: Player) -> Option<int> {
        match self.best_from(p, 0, None) {
            Some((c, _s)) => Some(c),
            None => None,
        }
    }
}

impl Connect4 {
    /// Counts one more visited position, saturating.
    pub fn increment(&mut self)
        ensures
            final(self).rows == old(self).rows,
            final(self).cols == old(self).cols,
            final(self).board == old(self).board,
            final(self).nodes == if old(self).nodes < u64::MAX { old(self).nodes + 1 } else { old(self).nodes as int },
    {
        if self.nodes < u64::MAX {
            self.nodes = self.nodes + 1;
        }
    }

    /// Positions visited since the counter was last cleared.
    pub fn get_count(&self) -> (r: u64)
        ensures
            r == self.nodes,
    {
        self.nodes
    }

    pub fn clear_count(&mut self)
        ensures
            final(self).rows == old(self).rows,
            final(self).cols == old(self).cols,
            final(self).board == old(self).board,
            final(self).nodes == 0,
    {
        self.nodes = 0;
    }

    /// Depth-bounded minimax with alpha-beta pruning: each open column in turn
    /// is tried by dropping a piece of `player`, searching the reply of the
    /// other player, and emptying the cell again. The board is left as found.
    pub fn minimax(&mut self, player: Player, maximizing: bool, alpha: i32, beta: i32, depth: u32) -> (r: i32)
        requires
            old(self).wf(),
        ensures
            final(self).wf(),
            final(self)@ == old(self)@,
            r == old(self)@.minimax(player, maximizing, alpha as int, beta as int, depth as int),
            final(self).nodes >= old(self).nodes,
            old(self).nodes + node_bound(old(self).cols as int, depth as int) <= u64::MAX ==> {
                &&& old(self).nodes + 1 <= final(self).nodes
                &&& final(self).nodes <= old(self).nodes + node_bound(old(self).cols as int, depth as int)
                &&& final(self).nodes == old(self).nodes
                    + old(self)@.visits(player, maximizing, alpha as int, beta as int, depth as int)
            },
        decreases plies_left(depth as int),
    {
        let ghost n0 = self.nodes as int;
        let ghost nb = node_bound(self.cols as int, depth as int);
        let ghost nc = node_bound(self.cols as int, depth + 1);
        proof {
            lemma_node_bound_pos(self.cols as int, depth as int);
            lemma_node_bound_pos(self.cols as int, depth + 1);
        }
        self.increment();
        let ghost g = self@;
        let (score, moves_left) = self.score_based_current_state();
        if depth >= SEARCH_DEPTH || !moves_left {
            return score;
        }
        let other_player = player.other();
        let ghost alpha0 = alpha as int;
        let ghost beta0 = beta as int;
        let mut alpha_cur = alpha;
        let mut beta_cur = beta;
        let mut best_score: i32 = if maximizing { i32::MIN } else { i32::MAX };
        let mut col: usize = 0;
        while col < self.cols
            invariant
                g == self@,
                g == old(self)@,
                alpha0 == alpha,
                beta0 == beta,
                n0 == old(self).nodes,
                nb == node_bound(g.cols, depth as int),
                nc == node_bound(g.cols, depth + 1),
                nb == 1 + g.cols * nc,
                nc >= 1,
                self.nodes >= n0,
                n0 + nb <= u64::MAX ==> n0 + 1 <= self.nodes <= n0 + 1 + col * nc,
                n0 + nb <= u64::MAX ==> g.visits(player, maximizing, alpha0, beta0, depth as int)
                    == (self.nodes - n0) + g.visits_from(player, maximizing, alpha_cur as int, beta_cur as int,
                        depth as int, col as int, best_score as int),
                g.wf(),
                g.has_empty(),
                depth < SEARCH_DEPTH,
                other_player == player.spec_other(),
                col <= self.cols,
                g.minimax(player, maximizing, alpha0, beta0, depth as int)
                    == g.minimax_from(player, maximizing, alpha_cur as int, beta_cur as int, depth as int, col as int, best_score as int),
            decreases self.cols - col,
        {
            proof {
                lemma_mul_step(col as int, self.cols as int, nc);
            }
            match self.drop_piece(player, col) {
                Ok(row) => {
                    proof {
                        lemma_place_retract(g, col as int, player);
                    }
                    let score = self.minimax(other_player, !maximizing, alpha_cur, beta_cur, depth + 1);
                    self.retract(row, col);
                    if maximizing {
                        if score > best_score {
                            best_score = score;
                        }
                        if best_score > alpha_cur {
                            alpha_cur = best_score;
                        }
                    } else {
                        if score < best_score {
                            best_score = score;
                        }
                        if best_score < beta_cur {
                            beta_cur = best_score;
                        }
                    }
                    if beta_cur <= alpha_cur {
                        return best_score;
                    }
                },
                Err(_) => {},
            }
            col += 1;
        }
        best_score
    }
}

/// The root scan keeps an open column once it holds one, and finds one
/// exactly when some column from `col` on is open.
pub proof fn lemma_best_from_open(g: Grid, p: Player, col: int, best: Option<(int, int)>)
    requires
        g.wf(),
        0 <= col,
        match best {
            Some((c, _s)) => g.open(c),
            None => true,
        },
    ensures
        match g.best_from(p, col, best) {
            Some((c, _s)) => g.open(c),
            None => best is None && forall|c: int| col <= c ==> !#[trigger] g.open(c),
        },
    decreases g.cols - col,
{
    if col < g.cols {
        if !g.open(col) {
            lemma_best_from_open(g, p, col + 1, best);
        } else {
            let s = g.root_score(p, col);
            let better = match best {
                None => true,
                Some((_c, b)) => if p == Player::Human { s < b } else { s > b },
            };
            lemma_best_from_open(g, p, col + 1, if better { Some((col, s)) } else { best });
        }
    }
}

impl Connect4 {
    /// The column the search picks for `player`: each open column is tried
    /// and the reply searched; `Human` takes the lowest score, `Computer` the
    /// highest, the lowest column on ties. `None` when every column is full.
    pub fn best_column(&mut self, player: Player) -> (res: Option<usize>)
        requires
            old(self).wf(),
        ensures
            final(self).wf(),
            final(self)@ == old(self)@,
            final(self).nodes >= old(self).nodes,
            old(self).nodes + old(self).cols * node_bound(old(self).cols as int, 0) <= u64::MAX ==> {
                &&& final(self).nodes <= old(self).nodes + old(self).cols * node_bound(old(self).cols as int, 0)
                &&& res is Some ==> final(self).nodes >= old(self).nodes + 1
                &&& final(self).nodes == old(self).nodes + old(self)@.root_visits_from(player, 0)
            },
            match res {
                Some(c) => old(self)@.best_column(player) == Some(c as int) && old(self)@.open(c as int),
                None => old(self)@.best_column(player) is None
                    && forall|c: int| !#[trigger] old(self)@.open(c),
            },
    {
        let ghost g = self@;
        let reply_maximizing = match player {
            Player::Human => true,
            Player::Computer => false,
        };
        let other = player.other();
        let ghost n0 = self.nodes as int;
        let ghost nr = node_bound(self.cols as int, 0);
        proof {
            lemma_node_bound_pos(self.cols as int, 0);
        }
        let mut best: Option<(usize, i32)> = None;
        let mut col: usize = 0;
        while col < self.cols
            invariant
                g == self@,
                g == old(self)@,
                g.wf(),
                col <= self.cols,
                reply_maximizing == reply_maximizes(player),
                other == player.spec_other(),
                n0 == old(self).nodes,
                nr == node_bound(g.cols, 0),
                nr >= 1,
                self.nodes >= n0,
                n0 + g.cols * nr <= u64::MAX ==> {
                    &&& self.nodes <= n0 + col * nr
                    &&& best is Some ==> self.nodes >= n0 + 1
                    &&& g.root_visits_from(player, 0) == (self.nodes - n0) + g.root_visits_from(player, col as int)
                },
                g.best_from(player, 0, None) == g.best_from(player, col as int, lift(best)),
                match best {
                    Some((c, _s)) => g.open(c as int) && c < col,
                    None => true,
                },
            decreases self.cols - col,
        {
            proof {
                lemma_mul_step(col as int, self.cols as int, nr);
            }
            match self.drop_piece(player, col) {
                Ok(row) => {
                    proof {
                        lemma_place_retract(g, col as int, player);
                    }
                    let score = self.minimax(other, reply_maximizing, i32::MIN, i32::MAX, 0);
                    self.retract(row, col);
                    let better = match best {
                        None => true,
                        Some((_c, b)) => match player {
                            Player::Human => score < b,
                            Player::Computer => score > b,
                        },
                    };
                    if better {
                        best = Some((col, score));
                    }
                },
                Err(_) => {},
            }
            col += 1;
        }
        proof {
            lemma_best_from_open(g, player, 0, None);
        }
        match best {
            Some((c, _s)) => Some(c),
            None => None,
        }
    }

    /// Searches the best column for `player` and plays it, reporting the
    /// resulting state; fails when every column is full. The visit counter
    /// covers this search only.
    pub fn smart_move(&mut self, player: Player) -> (res: Result<CurrentState, Connect4Error>)
        requires
            old(self).wf(),
        ensures
            final(self).wf(),
            old(self).cols * node_bound(old(self).cols as int, 0) <= u64::MAX
                ==> final(self).nodes <= old(self).cols * node_bound(old(self).cols as int, 0),
            old(self).cols * node_bound(old(self).cols as int, 0) <= u64::MAX ==> {
                &&& old(self)@.best_column(player) is Some ==> final(self).nodes >= 1
                &&& final(self).nodes == old(self)@.root_visits_from(player, 0)
            },
            match old(self)@.best_column(player) {
                Some(c) => match res {
                    Ok(state) => {
                        &&& old(self)@.open(c)
                        &&& final(self)@ == old(self)@.place(c, player)
                        &&& coords(state.0@) == final(self)@.winning_cells()
                        &&& state.1.0 == final(self)@.status()
                        &&& state.1.1 == 0
                    },
                    Err(_) => false,
                },
                None => res == Err::<CurrentState, Connect4Error>(Connect4Error::InvalidMove)
                    && final(self)@ == old(self)@,
            },
    {
        self.clear_count();
        match self.best_column(player) {
            Some(col) => self.move_and_check(player, col),
            None => Err(Connect4Error::InvalidMove),
        }
    }
}

/// The move of `player` on `connect4`: both sides play the searched move.
pub fn next_move(player: Player, connect4: &mut Connect4) -> (res: Result<CurrentState, Connect4Error>)
    requires
        old(connect4).wf(),
    ensures
        final(connect4).wf(),
        old(connect4).cols * node_bound(old(connect4).cols as int, 0) <= u64::MAX ==> {
            &&& final(connect4).nodes <= old(connect4).cols * node_bound(old(connect4).cols as int, 0)
            &&& final(connect4).nodes == old(connect4)@.root_visits_from(player, 0)
        },
        match old(connect4)@.best_column(player) {
            Some(c) => match res {
                Ok(state) => {
                    &&& old(connect4)@.open(c)
                    &&& final(connect4)@ == old(connect4)@.place(c, player)
                    &&& coords(state.0@) == final(connect4)@.winning_cells()
                    &&& state.1.0 == final(connect4)@.status()
                    &&& state.1.1 == 0
                },
                Err(_) => false,
            },
            None => res == Err::<CurrentState, Connect4Error>(Connect4Error::InvalidMove)
                && final(connect4)@ == old(connect4)@,
        },
{
    match player {
        Player::Human => connect4.smart_move(player),
        Player::Computer => connect4.smart_move(player),
    }
}

} // verus!
