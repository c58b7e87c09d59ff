use vstd::prelude::*;
use rand::Rng;
use crate::board::{Connect4, Connect4Error, CurrentState, coords};
use crate::player::Player;
use crate::grid::Grid;

verus! {

/// Relies on rand's `Rng::gen_range` on `thread_rng()`: a value drawn
/// uniformly from `0..n` (it panics on an empty range, hence `n > 0`).
#[verifier::external_body]
fn random_below(n: usize) -> (r: usize)
    requires
        n > 0,
    ensures
        r < n,
{
    rand::thread_rng().gen_range(0..n)
}

/// `v` stands in `order`.
pub open spec fn occurs(order: Seq<usize>, v: int) -> bool {
    exists|i: int| 0 <= i < order.len() && #[trigger] order[i] == v
}

/// `order` lists each of `0..n` exactly once.
pub open spec fn is_order_of(order: Seq<usize>, n: int) -> bool {
    &&& order.len() == n
    &&& forall|i: int| 0 <= i < n ==> #[trigger] order[i] < n
    &&& forall|v: int| 0 <= v < n ==> #[trigger] occurs(order, v)
}

/// The columns `0..n` in a random order (Fisher-Yates shuffle).
pub fn random_order(n: usize) -> (order: Vec<usize>)
    ensures
        is_order_of(order@, n as int),
{
    let mut order: Vec<usize> = Vec::new();
    let mut k: usize = 0;
    while k < n
        invariant
            k <= n,
            order@.len() == k,
            forall|i: int| 0 <= i < k ==> #[trigger] order@[i] == i,
        decreases n - k,
    {
        order.push(k);
        k += 1;
    }
    assert forall|v: int| 0 <= v < n implies #[trigger] occurs(order@, v) by {
        assert(order@[v] == v);
    }
    let mut i: usize = n;
    while i > 1
        invariant
            i <= n,
            is_order_of(order@, n as int),
        decreases i,
    {
        let j = random_below(i);
        let a = order[i - 1];
        let b = order[j];
        let ghost before = order@;
        order.set(i - 1, b);
        order.set(j, a);
        proof {
            let last = i - 1;
            assert forall|v: int| 0 <= v < n implies #[trigger] occurs(order@, v) by {
                assert(occurs(before, v));
                let t = choose|t: int| 0 <= t < before.len() && #[trigger] before[t] == v;
                if t == last {
                    assert(order@[j as int] == v);
                } else if t == j {
                    assert(order@[last] == v);
                } else {
                    assert(order@[t] == v);
                }
            }
        }
        i -= 1;
    }
    order
}

/// Index of the first open column in `order` at position `k` or later.
pub open spec fn first_open_from(g: Grid, order: Seq<usize>, k: int) -> Option<int>
    decreases order.len() - k,
{
    if k < 0 || k >= order.len() {
        None
    } else if g.open(order[k] as int) {
        Some(k)
    } else {
        first_open_from(g, order, k + 1)
    }
}

/// The scan finds an open column, and finding none means no column from
/// position `k` on is open.
proof fn lemma_first_open_from(g: Grid, order: Seq<usize>, k: int)
    requires
        0 <= k,
    ensures
        match first_open_from(g, order, k) {
            Some(i) => k <= i < order.len() && g.open(order[i] as int),
            None => forall|t: int| k <= t < order.len() ==> !g.open(#[trigger] order[t] as int),
        },
    decreases order.len() - k,
{
    if k < order.len() {
        lemma_first_open_from(g, order, k + 1);
    }
}

impl Connect4 {
    /// Plays `player` into the first open column of `order` and reports the
    /// resulting state; fails when none of them is open.
    pub fn play_first_open(&mut self, player: Player, order: &Vec<usize>) -> (res: Result<CurrentState, Connect4Error>)
        requires
            old(self).wf(),
            forall|i: int| 0 <= i < order@.len() ==> #[trigger] order@[i] < old(self).cols,
        ensures
            final(self).wf(),
            final(self).nodes == old(self).nodes,
            match first_open_from(old(self)@, order@, 0) {
                Some(i) => match res {
                    Ok(state) => {
                        &&& old(self)@.open(order@[i] as int)
                        &&& final(self)@ == old(self)@.place(order@[i] as int, player)
                        &&& coords(state.0@) == final(self)@.winning_cells()
                        &&& state.1.0 == final(self)@.status()
                        &&& state.1.1 == 0
                    },
                    Err(_) => false,
                },
                None => res == Err::<CurrentState, Connect4Error>(Connect4Error::InvalidMove)
                    && final(self)@ == old(self)@,
            },
    {
        let ghost g = self@;
        let mut k: usize = 0;
        while k < order.len()
            invariant
                self.wf(),
                g == self@,
                g == old(self)@,
                self.nodes == old(self).nodes,
                k <= order@.len(),
                forall|i: int| 0 <= i < order@.len() ==> #[trigger] order@[i] < g.cols,
                first_open_from(g, order@, 0) == first_open_from(g, order@, k as int),
            decreases order@.len() - k,
        {
            let col = order[k];
            if self.rows > 0 && self.cell(0, col).is_none() {
                assert(g.open(col as int));
                return self.move_and_check(player, col);
            }
            k += 1;
        }
        Err(Connect4Error::InvalidMove)
    }

    /// Plays `player` into a random open column and reports the resulting
    /// state; fails when every column is full.
    pub fn random_move(&mut self, player: Player) -> (res: Result<CurrentState, Connect4Error>)
        requires
            old(self).wf(),
        ensures
            final(self).wf(),
            res is Ok <==> exists|c: int| #[trigger] old(self)@.open(c),
            match res {
                Ok(state) => exists|c: int| {
                    &&& #[trigger] old(self)@.open(c)
                    &&& final(self)@ == old(self)@.place(c, player)
                    &&& coords(state.0@) == final(self)@.winning_cells()
                    &&& state.1.0 == final(self)@.status()
                },
                Err(e) => e == Connect4Error::InvalidMove && final(self)@ == old(self)@,
            },
    {
        let items = random_order(self.cols);
        proof {
            let g = self@;
            lemma_first_open_from(g, items@, 0);
            if first_open_from(g, items@, 0) is None {
                assert forall|c: int| !#[trigger] g.open(c) by {
                    if g.open(c) {
                        assert(occurs(items@, c));
                        let t = choose|t: int| 0 <= t < items@.len() && #[trigger] items@[t] == c;
                        assert(!g.open(items@[t] as int));
                    }
                }
            }
        }
        self.play_first_open(player, &items)
    }
}

} // verus!
