//! On-policy temporal-difference control. The update has the same form as
//! off-policy learning, but the bootstrap value is the estimate of the action
//! actually selected for the next state, not the greedy maximum. Episodes are
//! capped at a small step bound; a step that ends the episode is credited
//! with the bare reward.

use vstd::prelude::*;
use crate::algorithm::{RLAlgorithm, TRAIN_TOTAL_BOUND};
use crate::env::Environment;
use crate::fixed::{td_step, td_target, REWARD_BOUND, SCALE, VALUE_BOUND};
use crate::qtable::{apply_td_update, epsilon_greedy, greedy_action, greedy_spec, grid_wf, zero_grid};
use crate::rng::Prng;

verus! {

/// Step bound per episode.
pub const SARSA_STEP_CAP: usize = 25;

/// The value this algorithm writes for one observed transition: the stored
/// estimate moves a fraction `alpha` toward the reward plus the discounted
/// estimate `m` of the next selected pair (zero on a terminal step).
pub open spec fn sarsa_update(qsa: int, alpha: int, gamma: int, r: int, m: int) -> int {
    td_step(qsa, alpha, td_target(r, gamma, m))
}

pub struct Sarsa {
    q_table: Vec<Vec<i64>>,
    alpha: i64,
    epsilon: i64,
    gamma: i64,
}

/// Whether serialized parts form a valid learner: at least one state and
/// action, rectangular rows, bounded entries, and rates in range.
pub open spec fn parts_valid(q: Seq<Vec<i64>>, alpha: int, epsilon: int, gamma: int) -> bool {
    &&& q.len() >= 1
    &&& q[0]@.len() >= 1
    &&& grid_wf(q, q.len() as int, q[0]@.len() as int)
    &&& 0 <= alpha <= SCALE
    &&& 0 <= epsilon <= SCALE
    &&& 0 <= gamma < SCALE
}

impl Sarsa {
    /// The learned table, as a sequence of rows.
    pub closed spec fn table(&self) -> Seq<Vec<i64>> {
        self.q_table@
    }

    /// Learning rate, in `[0, 1]`.
    pub closed spec fn alpha_spec(&self) -> int {
        self.alpha as int
    }

    /// Exploration probability, in `[0, 1]`.
    pub closed spec fn epsilon_spec(&self) -> int {
        self.epsilon as int
    }

    /// Discount, in `[0, 1)`.
    pub closed spec fn gamma_spec(&self) -> int {
        self.gamma as int
    }

    /// A zero-initialized learner. The discount must lie strictly below one:
    /// that keeps every estimate within the representable value bound.
    pub fn new(num_states: usize, num_actions: usize, alpha: i64, epsilon: i64, gamma: i64) -> (r:
        Sarsa)
        requires
            num_states >= 1,
            num_actions >= 1,
            0 <= alpha <= SCALE,
            0 <= epsilon <= SCALE,
            0 <= gamma < SCALE,
        ensures
            r.wf(),
            r.fits(num_states as int, num_actions as int),
            r.n_states() == num_states,
            r.n_actions() == num_actions,
            r.table().len() == num_states,
            forall|s: int| 0 <= s < num_states ==> (#[trigger] r.table()[s])@.len() == num_actions,
            r.alpha_spec() == alpha,
            r.epsilon_spec() == epsilon,
            r.gamma_spec() == gamma,
            forall|s: int, a: int|
                0 <= s < num_states && 0 <= a < num_actions ==> #[trigger] r.table()[s]@[a] == 0,
    {
        Sarsa { q_table: zero_grid(num_states, num_actions), alpha, epsilon, gamma }
    }

    /// The learned table.
    pub fn get_q_table(&self) -> (r: &Vec<Vec<i64>>)
        ensures
            r@ == self.table(),
    {
        &self.q_table
    }

    /// What `get_best_action` picks, in public terms: the greedy action over
    /// the listed ones, under this state's row of the table, ties to the
    /// action listed first.
    pub proof fn lemma_best_action_characterization(&self, state: int, avail: Seq<usize>)
        requires
            self.wf(),
            0 <= state < self.n_states(),
        ensures
            self.best_spec(state, avail) == greedy_spec(self.table()[state]@, avail),
            self.table()[state]@.len() == self.n_actions(),
    {
    }

    /// Epsilon-greedy selection among the listed actions: a uniformly random
    /// one with probability epsilon, else the greedy one; always listed.
    pub fn select_action(&self, rng: &mut Prng, state: usize, avail: &[usize]) -> (a: usize)
        requires
            self.wf(),
            (state as int) < self.n_states(),
            1 <= avail@.len(),
            forall|i: int|
                0 <= i < avail@.len() ==> ((#[trigger] avail@[i]) as int) < self.n_actions(),
        ensures
            avail@.contains(a),
    {
        epsilon_greedy(rng, self.epsilon, &self.q_table[state], avail)
    }

    /// Learns from one observed transition: the taken pair's entry moves by
    /// the update rule, bootstrapping from the pair selected for the next
    /// state (bare reward on a terminal step); every other entry is
    /// untouched.
    pub fn observe(
        &mut self,
        s: usize,
        a: usize,
        r: i64,
        s_next: usize,
        next_action: usize,
        terminal: bool,
    )
        requires
            old(self).wf(),
            (s as int) < old(self).n_states(),
            (a as int) < old(self).n_actions(),
            -REWARD_BOUND <= r <= REWARD_BOUND,
            (s_next as int) < old(self).n_states(),
            (next_action as int) < old(self).n_actions(),
        ensures
            final(self).wf(),
            final(self).n_states() == old(self).n_states(),
            final(self).n_actions() == old(self).n_actions(),
            final(self).alpha_spec() == old(self).alpha_spec(),
            final(self).epsilon_spec() == old(self).epsilon_spec(),
            final(self).gamma_spec() == old(self).gamma_spec(),
            final(self).table()[s as int]@[a as int] as int == sarsa_update(
                old(self).table()[s as int]@[a as int] as int,
                old(self).alpha_spec(),
                old(self).gamma_spec(),
                r as int,
                if terminal {
                    0int
                } else {
                    old(self).table()[s_next as int]@[next_action as int] as int
                },
            ),
            forall|s2: int|
                0 <= s2 < old(self).n_states() && s2 != s ==> #[trigger] final(self).table()[s2]@
                    == old(self).table()[s2]@,
            forall|a2: int|
                0 <= a2 < old(self).n_actions() && a2 != a ==> #[trigger] final(self).table()[
                    s as int
                ]@[a2] == old(self).table()[s as int]@[a2],
    {
        let ns = self.q_table.len();
        let na = self.q_table[0].len();
        let m = if terminal {
            0
        } else {
            self.q_table[s_next][next_action]
        };
        apply_td_update(&mut self.q_table, ns, na, s, a, self.alpha, self.gamma, r, m);
    }

    /// Rebuilds a learner from serialized parts, accepting exactly the valid
    /// ones. A rebuilt learner carries the given table and rates, so its
    /// policy is the one the parts describe.
    pub fn from_parts(q_table: Vec<Vec<i64>>, alpha: i64, epsilon: i64, gamma: i64) -> (r: Option<
        Sarsa,
    >)
        ensures
            r is Some <==> parts_valid(q_table@, alpha as int, epsilon as int, gamma as int),
            r is Some ==> {
                &&& r.unwrap().wf()
                &&& r.unwrap().n_states() == q_table@.len()
                &&& r.unwrap().n_actions() == q_table@[0]@.len()
                &&& r.unwrap().table() == q_table@
                &&& r.unwrap().alpha_spec() == alpha
                &&& r.unwrap().epsilon_spec() == epsilon
                &&& r.unwrap().gamma_spec() == gamma
            },
    {
        if q_table.len() == 0 {
            return None;
        }
        if q_table[0].len() == 0 {
            return None;
        }
        let na = q_table[0].len();
        if !(0 <= alpha && alpha <= SCALE) {
            return None;
        }
        if !(0 <= epsilon && epsilon <= SCALE) {
            return None;
        }
        if !(0 <= gamma && gamma < SCALE) {
            return None;
        }
        let mut s: usize = 0;
        while s < q_table.len()
            invariant
                s <= q_table@.len(),
                na == q_table@[0]@.len(),
                forall|u: int| 0 <= u < s ==> (#[trigger] q_table@[u])@.len() == na,
                forall|u: int, a: int|
                    0 <= u < s && 0 <= a < na ==> -VALUE_BOUND <= #[trigger] q_table@[u]@[a]
                        <= VALUE_BOUND,
            decreases q_table@.len() - s,
        {
            if q_table[s].len() != na {
                return None;
            }
            let mut a: usize = 0;
            while a < na
                invariant
                    a <= na,
                    s < q_table@.len(),
                    q_table@[s as int]@.len() == na,
                    forall|b: int|
                        0 <= b < a ==> -VALUE_BOUND <= #[trigger] q_table@[s as int]@[b]
                            <= VALUE_BOUND,
                decreases na - a,
            {
                let v = q_table[s][a];
                if v < -VALUE_BOUND || v > VALUE_BOUND {
                    return None;
                }
                a = a + 1;
            }
            s = s + 1;
        }
        Some(Sarsa { q_table, alpha, epsilon, gamma })
    }
}

/// A learner whose table equals another's picks the same best action on
/// every state and action list: round-tripping a learner through its
/// serialized parts leaves the policy unchanged.
pub proof fn lemma_parts_round_trip(x: Sarsa, y: Sarsa, state: int, avail: Seq<usize>)
    requires
        y.table() == x.table(),
    ensures
        y.best_spec(state, avail) == x.best_spec(state, avail),
{
}

impl RLAlgorithm for Sarsa {
    closed spec fn wf(&self) -> bool {
        &&& grid_wf(self.q_table@, self.q_table@.len() as int, self.n_actions())
        &&& self.q_table@.len() >= 1
        &&& 0 <= self.alpha <= SCALE
        &&& 0 <= self.epsilon <= SCALE
        &&& 0 <= self.gamma < SCALE
    }

    closed spec fn n_states(&self) -> int {
        self.q_table@.len() as int
    }

    closed spec fn n_actions(&self) -> int {
        if self.q_table@.len() > 0 {
            self.q_table@[0]@.len() as int
        } else {
            0
        }
    }

    closed spec fn fits(&self, ns: int, na: int) -> bool {
        ns == self.n_states() && na == self.n_actions()
    }

    closed spec fn best_spec(&self, state: int, avail: Seq<usize>) -> usize {
        greedy_spec(self.q_table@[state]@, avail)
    }

    /// Each step updates the entry of the action just taken by the
    /// temporal-difference rule, bootstrapping from the action selected for
    /// the next state (bare reward on a terminal step); the table stays well
    /// formed and the learning parameters are untouched.
    fn train<E: Environment>(&mut self, env: &mut E, max_episodes: usize) -> (rewards: Vec<i64>)
        ensures
            final(self).alpha_spec() == old(self).alpha_spec(),
            final(self).epsilon_spec() == old(self).epsilon_spec(),
            final(self).gamma_spec() == old(self).gamma_spec(),
    {
        let mut rng = Prng::from_seed(42);
        let mut rewards: Vec<i64> = Vec::new();
        let ns = env.num_states();
        let na = env.num_actions();
        let ghost a0 = self.alpha as int;
        let ghost e0 = self.epsilon as int;
        let ghost g0 = self.gamma as int;
        let mut ep: usize = 0;
        while ep < max_episodes
            invariant
                self.wf(),
                env.inv(),
                ns as int == env.states(),
                na as int == env.actions(),
                ns as int == self.n_states(),
                na as int == self.n_actions(),
                self.alpha as int == a0,
                self.epsilon as int == e0,
                self.gamma as int == g0,
                rewards@.len() == ep,
                ep <= max_episodes,
                forall|i: int|
                    0 <= i < rewards@.len() ==> -TRAIN_TOTAL_BOUND <= #[trigger] rewards@[i]
                        <= TRAIN_TOTAL_BOUND,
            decreases max_episodes - ep,
        {
            env.reset();
            let mut total: i64 = 0;
            let mut s = env.state_id();
            let mut over = env.is_game_over();
            if !over {
                let aa = env.available_actions();
                let mut act = self.select_action(&mut rng, s, aa.as_slice());
                let mut steps: usize = 0;
                while !over && steps < SARSA_STEP_CAP
                    invariant
                        self.wf(),
                        env.inv(),
                        ns as int == env.states(),
                        na as int == env.actions(),
                        ns as int == self.n_states(),
                        na as int == self.n_actions(),
                        self.alpha as int == a0,
                        self.epsilon as int == e0,
                        self.gamma as int == g0,
                        (s as int) < env.states(),
                        over == env.over(),
                        !over ==> env.action_ok(act as int) && (act as int) < na,
                        steps <= SARSA_STEP_CAP,
                        -2_000_000_000 * (steps as int) <= total <= 2_000_000_000 * (steps as int),
                    decreases SARSA_STEP_CAP - steps,
                {
                    let before = env.score();
                    env.step(act);
                    let r = env.score() - before;
                    total = total + r;
                    let s_next = env.state_id();
                    over = env.is_game_over();
                    if over {
                        self.observe(s, act, r, s_next, 0, true);
                    } else {
                        let aa_next = env.available_actions();
                        let act_next = self.select_action(&mut rng, s_next, aa_next.as_slice());
                        self.observe(s, act, r, s_next, act_next, false);
                        act = act_next;
                    }
                    s = s_next;
                    steps = steps + 1;
                }
            }
            rewards.push(total);
            ep = ep + 1;
        }
        rewards
    }

    fn get_best_action(&self, state: usize, available_actions: &[usize]) -> (a: usize) {
        greedy_action(&self.q_table[state], available_actions)
    }
}

} // verus!
