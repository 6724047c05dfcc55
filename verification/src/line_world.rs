//! A five-position corridor with absorbing ends. Action 0 moves left, action
//! 1 moves right; the episode starts in the middle and ends at either end.
//! Only the right end pays: the score becomes one at the last position and
//! stays zero at the first, so the right end is the higher-reward terminal.

use vstd::prelude::*;
use crate::env::Environment;
use crate::fixed::{lemma_sum_prefix_bound, lemma_sum_prefix_update, SCALE};
use crate::qtable::filled_row;

verus! {

pub struct LineWorld {
    state: usize,
}

/// Where a move lands: left or right, staying put at the walls.
pub open spec fn line_target(s: int, a: int) -> int {
    if a == 0 {
        if s > 0 {
            s - 1
        } else {
            s
        }
    } else {
        if s < 4 {
            s + 1
        } else {
            s
        }
    }
}

impl LineWorld {
    pub fn new() -> (e: LineWorld)
        ensures
            e.inv(),
            e.position() == 2,
            e.states() == 5,
            e.actions() == 2,
            !e.over(),
    {
        LineWorld { state: 2 }
    }

    /// The current position.
    pub closed spec fn position(&self) -> int {
        self.state as int
    }

}

impl Environment for LineWorld {
    closed spec fn inv(&self) -> bool {
        self.state <= 4
    }

    closed spec fn states(&self) -> int {
        5
    }

    closed spec fn actions(&self) -> int {
        2
    }

    closed spec fn over(&self) -> bool {
        self.state == 0 || self.state == 4
    }

    closed spec fn action_ok(&self, a: int) -> bool {
        !self.over() && 0 <= a < 2
    }

    fn new() -> (e: Self)
        ensures
            e.position() == 2,
            e.states() == 5,
            e.actions() == 2,
            !e.over(),
    {
        LineWorld::new()
    }

    fn num_states(&self) -> (n: usize) {
        5
    }

    fn num_actions(&self) -> (n: usize) {
        2
    }

    fn state_id(&self) -> (s: usize)
        ensures
            s as int == self.position(),
    {
        self.state
    }

    fn reset(&mut self)
        ensures
            final(self).position() == 2,
            !final(self).over(),
    {
        self.state = 2;
    }

    fn is_game_over(&self) -> (b: bool) {
        self.state == 0 || self.state == 4
    }

    fn available_actions(&self) -> (aa: Vec<usize>)
        ensures
            !self.over() ==> aa@ == seq![0usize, 1usize],
    {
        let mut aa: Vec<usize> = Vec::new();
        if self.state != 0 && self.state != 4 {
            aa.push(0);
            aa.push(1);
            proof {
                assert(aa@ == seq![0usize, 1usize]);
            }
        }
        aa
    }

    fn score(&self) -> (sc: i64)
        ensures
            sc == if self.position() == 4 {
                SCALE as int
            } else {
                0int
            },
    {
        if self.state == 4 {
            SCALE
        } else {
            0
        }
    }

    fn step(&mut self, action: usize)
        ensures
            final(self).position() == line_target(old(self).position(), action as int),
    {
        if action == 0 {
            self.state = self.state - 1;
        } else {
            self.state = self.state + 1;
        }
    }

    fn transition_probabilities(&self) -> (p: Vec<Vec<Vec<i64>>>)
        ensures
            p@.len() == 5,
            forall|s: int| 0 <= s < 5 ==> (#[trigger] p@[s])@.len() == 2,
            forall|s: int, a: int| 0 <= s < 5 && 0 <= a < 2 ==> (#[trigger] p@[s]@[a])@.len() == 5,
            forall|s: int, a: int, t: int|
                0 <= s < 5 && 0 <= a < 2 && 0 <= t < 5 ==> #[trigger] p@[s]@[a]@[t] == (if t
                    == line_target(s, a) {
                    SCALE as int
                } else {
                    0int
                }),
    {
        let mut p: Vec<Vec<Vec<i64>>> = Vec::new();
        let mut s: usize = 0;
        while s < 5
            invariant
                s <= 5,
                p@.len() == s,
                forall|u: int| 0 <= u < s ==> (#[trigger] p@[u])@.len() == 2,
                forall|u: int, a: int|
                    0 <= u < s && 0 <= a < 2 ==> (#[trigger] p@[u]@[a])@.len() == 5,
                forall|u: int, a: int, t: int|
                    0 <= u < s && 0 <= a < 2 && 0 <= t < 5 ==> #[trigger] p@[u]@[a]@[t] == (if t
                        == line_target(u, a) {
                        SCALE as int
                    } else {
                        0int
                    }),
                forall|u: int, a: int|
                    0 <= u < s && 0 <= a < 2 ==> sum_prefix_row(#[trigger] p@[u]@[a]) == SCALE,
            decreases 5 - s,
        {
            let mut row: Vec<Vec<i64>> = Vec::new();
            let mut a: usize = 0;
            while a < 2
                invariant
                    a <= 2,
                    s < 5,
                    row@.len() == a,
                    forall|b: int| 0 <= b < a ==> (#[trigger] row@[b])@.len() == 5,
                    forall|b: int, t: int|
                        0 <= b < a && 0 <= t < 5 ==> #[trigger] row@[b]@[t] == (if t == line_target(
                            s as int,
                            b,
                        ) {
                            SCALE as int
                        } else {
                            0int
                        }),
                    forall|b: int| 0 <= b < a ==> sum_prefix_row(#[trigger] row@[b]) == SCALE,
                decreases 2 - a,
            {
                let mut inner = filled_row(5, 0);
                proof {
                    lemma_sum_prefix_bound(inner@, 5, 0);
                }
                let target: usize = if a == 0 {
                    if s > 0 {
                        s - 1
                    } else {
                        s
                    }
                } else {
                    if s < 4 {
                        s + 1
                    } else {
                        s
                    }
                };
                proof {
                    lemma_sum_prefix_update(inner@, target as int, SCALE, 5);
                }
                inner[target] = SCALE;
                row.push(inner);
                a = a + 1;
            }
            p.push(row);
            s = s + 1;
        }
        p
    }

    /// The reward convention this environment documents for planning: a move
    /// that enters the paying right end from a live position pays one.
    fn reward_function(&self) -> (rw: Vec<Vec<i64>>)
        ensures
            rw@.len() == 5,
            forall|s: int| 0 <= s < 5 ==> (#[trigger] rw@[s])@.len() == 2,
            forall|s: int, a: int|
                0 <= s < 5 && 0 <= a < 2 ==> #[trigger] rw@[s]@[a] == (if s != 0 && s != 4
                    && line_target(s, a) == 4 {
                    SCALE as int
                } else {
                    0int
                }),
    {
        let mut rw: Vec<Vec<i64>> = Vec::new();
        let mut s: usize = 0;
        while s < 5
            invariant
                s <= 5,
                rw@.len() == s,
                forall|u: int| 0 <= u < s ==> (#[trigger] rw@[u])@.len() == 2,
                forall|u: int, a: int|
                    0 <= u < s && 0 <= a < 2 ==> #[trigger] rw@[u]@[a] == (if u != 0 && u != 4
                        && line_target(u, a) == 4 {
                        SCALE as int
                    } else {
                        0int
                    }),
            decreases 5 - s,
        {
            let mut row: Vec<i64> = Vec::new();
            let mut a: usize = 0;
            while a < 2
                invariant
                    a <= 2,
                    s < 5,
                    row@.len() == a,
                    forall|b: int|
                        0 <= b < a ==> #[trigger] row@[b] == (if s != 0 && s != 4 && line_target(
                            s as int,
                            b,
                        ) == 4 {
                            SCALE as int
                        } else {
                            0int
                        }),
                decreases 2 - a,
            {
                let target: usize = if a == 0 {
                    if s > 0 {
                        s - 1
                    } else {
                        s
                    }
                } else {
                    if s < 4 {
                        s + 1
                    } else {
                        s
                    }
                };
                let pays = s != 0 && s != 4 && target == 4;
                row.push(if pays {
                    SCALE
                } else {
                    0
                });
                a = a + 1;
            }
            rw.push(row);
            s = s + 1;
        }
        rw
    }
}

/// The sum of a probability row over the five positions.
pub open spec fn sum_prefix_row(row: Vec<i64>) -> int {
    crate::fixed::sum_prefix(row@, 5)
}

} // verus!
