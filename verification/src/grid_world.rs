//! A four-by-four grid. Actions move up, right, down, or left within the
//! walls; the top-left corner is the goal (score one) and the bottom-right
//! corner the trap (score minus one), both absorbing. The episode starts at
//! position (1, 1).

use vstd::prelude::*;
use crate::env::Environment;
use crate::fixed::{lemma_sum_prefix_bound, lemma_sum_prefix_update, sum_prefix, SCALE};
use crate::qtable::filled_row;

verus! {

/// The grid's side length.
pub const GRID_SIZE: usize = 4;

/// Whether action `a` can be taken from state `s`: moves may not leave the
/// grid.
pub open spec fn grid_move_ok(s: int, a: int) -> bool {
    let x = s % 4;
    let y = s / 4;
    if a == 0 {
        y > 0
    } else if a == 1 {
        x < 3
    } else if a == 2 {
        y < 3
    } else if a == 3 {
        x > 0
    } else {
        false
    }
}

/// Where a legal move lands.
pub open spec fn grid_target(s: int, a: int) -> int {
    if a == 0 {
        s - 4
    } else if a == 1 {
        s + 1
    } else if a == 2 {
        s + 4
    } else {
        s - 1
    }
}

/// Whether a state is absorbing: the goal corner or the trap corner.
pub open spec fn grid_over(s: int) -> bool {
    s == 0 || s == 15
}

/// The in-order list of legal moves from a cell: up, right, down, left, each
/// present exactly when it stays on the board; empty on the absorbing cells.
pub open spec fn grid_actions(s: int) -> Seq<usize> {
    if grid_over(s) {
        Seq::<usize>::empty()
    } else {
        (if s / 4 > 0 {
            seq![0usize]
        } else {
            Seq::<usize>::empty()
        }) + (if s % 4 < 3 {
            seq![1usize]
        } else {
            Seq::<usize>::empty()
        }) + (if s / 4 < 3 {
            seq![2usize]
        } else {
            Seq::<usize>::empty()
        }) + (if s % 4 > 0 {
            seq![3usize]
        } else {
            Seq::<usize>::empty()
        })
    }
}

pub struct GridWorld {
    pos_x: usize,
    pos_y: usize,
    size: usize,
}

impl GridWorld {
    /// The current state identifier.
    pub closed spec fn position(&self) -> int {
        self.pos_y * 4 + self.pos_x
    }
}

impl Environment for GridWorld {
    closed spec fn inv(&self) -> bool {
        self.size == 4 && self.pos_x < 4 && self.pos_y < 4
    }

    closed spec fn states(&self) -> int {
        16
    }

    closed spec fn actions(&self) -> int {
        4
    }

    closed spec fn over(&self) -> bool {
        grid_over(self.position())
    }

    closed spec fn action_ok(&self, a: int) -> bool {
        !self.over() && 0 <= a < 4 && grid_move_ok(self.position(), a)
    }

    fn new() -> (e: Self)
        ensures
            e.position() == 5,
            e.states() == 16,
            e.actions() == 4,
            !e.over(),
    {
        GridWorld { pos_x: 1, pos_y: 1, size: 4 }
    }

    fn num_states(&self) -> (n: usize) {
        self.size * self.size
    }

    fn num_actions(&self) -> (n: usize) {
        4
    }

    fn state_id(&self) -> (s: usize)
        ensures
            s as int == self.position(),
    {
        self.pos_y * self.size + self.pos_x
    }

    fn reset(&mut self)
        ensures
            final(self).position() == 5,
            !final(self).over(),
    {
        self.pos_x = 1;
        self.pos_y = 1;
    }

    fn is_game_over(&self) -> (b: bool) {
        (self.pos_x == 0 && self.pos_y == 0) || (self.pos_x == self.size - 1 && self.pos_y
            == self.size - 1)
    }

    /// Returns exactly the in-order list of moves that stay on the board.
    fn available_actions(&self) -> (aa: Vec<usize>)
        ensures
            aa@ == grid_actions(self.position()),
    {
        let mut aa: Vec<usize> = Vec::new();
        if (self.pos_x == 0 && self.pos_y == 0) || (self.pos_x == 3 && self.pos_y == 3) {
            return aa;
        }
        if self.pos_y > 0 {
            aa.push(0);
        }
        if self.pos_x < 3 {
            aa.push(1);
        }
        if self.pos_y < 3 {
            aa.push(2);
        }
        if self.pos_x > 0 {
            aa.push(3);
        }
        proof {
            assert(self.position() % 4 == self.pos_x && self.position() / 4 == self.pos_y) by (
            nonlinear_arith)
                requires
                    self.pos_x < 4,
                    self.pos_y < 4,
                    self.position() == self.pos_y * 4 + self.pos_x,
            ;
            assert(aa@ =~= grid_actions(self.position()));
        }
        aa
    }

    fn score(&self) -> (sc: i64)
        ensures
            sc == if self.position() == 0 {
                SCALE as int
            } else if self.position() == 15 {
                -SCALE as int
            } else {
                0int
            },
    {
        if self.pos_x == 0 && self.pos_y == 0 {
            SCALE
        } else if self.pos_x == 3 && self.pos_y == 3 {
            -SCALE
        } else {
            0
        }
    }

    fn step(&mut self, action: usize)
        ensures
            final(self).position() == grid_target(old(self).position(), action as int),
    {
        proof {
            assert(self.position() % 4 == self.pos_x && self.position() / 4 == self.pos_y) by (
            nonlinear_arith)
                requires
                    self.pos_x < 4,
                    self.pos_y < 4,
                    self.position() == self.pos_y * 4 + self.pos_x,
            ;
        }
        if action == 0 {
            self.pos_y = self.pos_y - 1;
        } else if action == 1 {
            self.pos_x = self.pos_x + 1;
        } else if action == 2 {
            self.pos_y = self.pos_y + 1;
        } else {
            self.pos_x = self.pos_x - 1;
        }
    }

    fn transition_probabilities(&self) -> (p: Vec<Vec<Vec<i64>>>)
        ensures
            p@.len() == 16,
            forall|s: int| 0 <= s < 16 ==> (#[trigger] p@[s])@.len() == 4,
            forall|s: int, a: int|
                0 <= s < 16 && 0 <= a < 4 ==> (#[trigger] p@[s]@[a])@.len() == 16,
            forall|s: int, a: int, t: int|
                0 <= s < 16 && 0 <= a < 4 && 0 <= t < 16 ==> #[trigger] p@[s]@[a]@[t] == (if
                grid_move_ok(s, a) && t == grid_target(s, a) {
                    SCALE as int
                } else {
                    0int
                }),
    {
        let mut p: Vec<Vec<Vec<i64>>> = Vec::new();
        let mut s: usize = 0;
        while s < 16
            invariant
                s <= 16,
                p@.len() == s,
                forall|u: int| 0 <= u < s ==> (#[trigger] p@[u])@.len() == 4,
                forall|u: int, a: int|
                    0 <= u < s && 0 <= a < 4 ==> (#[trigger] p@[u]@[a])@.len() == 16,
                forall|u: int, a: int, t: int|
                    0 <= u < s && 0 <= a < 4 && 0 <= t < 16 ==> #[trigger] p@[u]@[a]@[t] == (if
                    grid_move_ok(u, a) && t == grid_target(u, a) {
                        SCALE as int
                    } else {
                        0int
                    }),
                forall|u: int, a: int|
                    0 <= u < s && 0 <= a < 4 ==> sum_prefix((#[trigger] p@[u]@[a])@, 16) <= SCALE,
            decreases 16 - s,
        {
            let mut row: Vec<Vec<i64>> = Vec::new();
            let mut a: usize = 0;
            while a < 4
                invariant
                    a <= 4,
                    s < 16,
                    row@.len() == a,
                    forall|b: int| 0 <= b < a ==> (#[trigger] row@[b])@.len() == 16,
                    forall|b: int, t: int|
                        0 <= b < a && 0 <= t < 16 ==> #[trigger] row@[b]@[t] == (if grid_move_ok(
                            s as int,
                            b,
                        ) && t == grid_target(s as int, b) {
                            SCALE as int
                        } else {
                            0int
                        }),
                    forall|b: int|
                        0 <= b < a ==> sum_prefix((#[trigger] row@[b])@, 16) <= SCALE,
                decreases 4 - a,
            {
                let mut inner = filled_row(16, 0);
                proof {
                    lemma_sum_prefix_bound(inner@, 16, 0);
                }
                if grid_move_ok_exec(s, a) {
                    let target = grid_target_exec(s, a);
                    proof {
                        lemma_sum_prefix_update(inner@, target as int, SCALE, 16);
                    }
                    inner[target] = SCALE;
                }
                row.push(inner);
                a = a + 1;
            }
            p.push(row);
            s = s + 1;
        }
        p
    }

    /// The documented reward convention for planning: a legal move pays one
    /// when it enters the goal and minus one when it enters the trap.
    fn reward_function(&self) -> (rw: Vec<Vec<i64>>)
        ensures
            rw@.len() == 16,
            forall|s: int| 0 <= s < 16 ==> (#[trigger] rw@[s])@.len() == 4,
            forall|s: int, a: int|
                0 <= s < 16 && 0 <= a < 4 ==> #[trigger] rw@[s]@[a] == (if grid_move_ok(s, a)
                    && grid_target(s, a) == 0 {
                    SCALE as int
                } else if grid_move_ok(s, a) && grid_target(s, a) == 15 {
                    -SCALE as int
                } else {
                    0int
                }),
    {
        let mut rw: Vec<Vec<i64>> = Vec::new();
        let mut s: usize = 0;
        while s < 16
            invariant
                s <= 16,
                rw@.len() == s,
                forall|u: int| 0 <= u < s ==> (#[trigger] rw@[u])@.len() == 4,
                forall|u: int, a: int|
                    0 <= u < s && 0 <= a < 4 ==> #[trigger] rw@[u]@[a] == (if grid_move_ok(u, a)
                        && grid_target(u, a) == 0 {
                        SCALE as int
                    } else if grid_move_ok(u, a) && grid_target(u, a) == 15 {
                        -SCALE as int
                    } else {
                        0int
                    }),
            decreases 16 - s,
        {
            let mut row: Vec<i64> = Vec::new();
            let mut a: usize = 0;
            while a < 4
                invariant
                    a <= 4,
                    s < 16,
                    row@.len() == a,
                    forall|b: int|
                        0 <= b < a ==> #[trigger] row@[b] == (if grid_move_ok(s as int, b)
                            && grid_target(s as int, b) == 0 {
                            SCALE as int
                        } else if grid_move_ok(s as int, b) && grid_target(s as int, b) == 15 {
                            -SCALE as int
                        } else {
                            0int
                        }),
                decreases 4 - a,
            {
                let v: i64 = if grid_move_ok_exec(s, a) {
                    let target = grid_target_exec(s, a);
                    if target == 0 {
                        SCALE
                    } else if target == 15 {
                        -SCALE
                    } else {
                        0
                    }
                } else {
                    0
                };
                row.push(v);
                a = a + 1;
            }
            rw.push(row);
            s = s + 1;
        }
        rw
    }
}

/// Whether action `a` can be taken from state `s`.
fn grid_move_ok_exec(s: usize, a: usize) -> (b: bool)
    requires
        s < 16,
        a < 4,
    ensures
        b == grid_move_ok(s as int, a as int),
{
    let x = s % 4;
    let y = s / 4;
    if a == 0 {
        y > 0
    } else if a == 1 {
        x < 3
    } else if a == 2 {
        y < 3
    } else {
        x > 0
    }
}

/// Where a legal move from `s` lands.
fn grid_target_exec(s: usize, a: usize) -> (t: usize)
    requires
        s < 16,
        a < 4,
        grid_move_ok(s as int, a as int),
    ensures
        t as int == grid_target(s as int, a as int),
        t < 16,
{
    if a == 0 {
        s - 4
    } else if a == 1 {
        s + 1
    } else if a == 2 {
        s + 4
    } else {
        s - 1
    }
}

} // verus!
