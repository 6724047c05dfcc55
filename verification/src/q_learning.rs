//! Off-policy temporal-difference control. Actions are chosen epsilon-
//! greedily; after each step the table entry of the taken action moves a
//! fraction `alpha` toward the reward plus the discounted best value of the
//! next state (zero when the next state is terminal).

use vstd::prelude::*;
use crate::algorithm::{RLAlgorithm, EPISODE_STEP_CAP, TRAIN_TOTAL_BOUND};
use crate::env::Environment;
use crate::fixed::{td_step, td_target, REWARD_BOUND, SCALE};
use crate::qtable::{
    apply_td_update, best_value, check_grid, epsilon_greedy, greedy_action, greedy_spec,
    grid_parts_valid, grid_wf, max_over, zero_grid,
};
use crate::rng::Prng;

verus! {

/// The value this algorithm writes for one observed transition: the stored
/// estimate moves a fraction `alpha` toward the reward plus the discounted
/// greedy value `m` of the next state (zero when the next state is terminal).
pub open spec fn q_learning_update(qsa: int, alpha: int, gamma: int, r: int, m: int) -> int {
    td_step(qsa, alpha, td_target(r, gamma, m))
}

pub struct QLearning {
    q_table: Vec<Vec<i64>>,
    alpha: i64,
    epsilon: i64,
    gamma: i64,
}

impl QLearning {
    /// The learned table, as a sequence of rows.
    pub closed spec fn table(&self) -> Seq<Vec<i64>> {
        self.q_table@
    }

    /// Learning rate, in `[0, 1]`.
    pub closed spec fn alpha_spec(&self) -> int {
        self.alpha as int
    }

    /// Exploration probability, in `[0, 1]`.
    pub closed spec fn epsilon_spec(&self) -> int {
        self.epsilon as int
    }

    /// Discount, in `[0, 1)`.
    pub closed spec fn gamma_spec(&self) -> int {
        self.gamma as int
    }

    /// A zero-initialized learner. The discount must lie strictly below one:
    /// that keeps every estimate within the representable value bound.
    pub fn new(num_states: usize, num_actions: usize, alpha: i64, epsilon: i64, gamma: i64) -> (r:
        QLearning)
        requires
            num_states >= 1,
            num_actions >= 1,
            0 <= alpha <= SCALE,
            0 <= epsilon <= SCALE,
            0 <= gamma < SCALE,
        ensures
            r.wf(),
            r.fits(num_states as int, num_actions as int),
            r.n_states() == num_states,
            r.n_actions() == num_actions,
            r.table().len() == num_states,
            forall|s: int| 0 <= s < num_states ==> (#[trigger] r.table()[s])@.len() == num_actions,
            r.alpha_spec() == alpha,
            r.epsilon_spec() == epsilon,
            r.gamma_spec() == gamma,
            forall|s: int, a: int|
                0 <= s < num_states && 0 <= a < num_actions ==> #[trigger] r.table()[s]@[a] == 0,
    {
        QLearning { q_table: zero_grid(num_states, num_actions), alpha, epsilon, gamma }
    }

    /// The learned table.
    pub fn get_q_table(&self) -> (r: &Vec<Vec<i64>>)
        ensures
            r@ == self.table(),
    {
        &self.q_table
    }

    /// Rebuilds a learner from serialized parts, accepting exactly the valid
    /// ones: a rectangular bounded table and rates in range.
    pub fn from_parts(q_table: Vec<Vec<i64>>, alpha: i64, epsilon: i64, gamma: i64) -> (r: Option<
        QLearning,
    >)
        ensures
            r is Some <==> (grid_parts_valid(q_table@) && 0 <= alpha <= SCALE && 0 <= epsilon
                <= SCALE && 0 <= gamma < SCALE),
            r is Some ==> {
                &&& r.unwrap().wf()
                &&& r.unwrap().n_states() == q_table@.len()
                &&& r.unwrap().n_actions() == q_table@[0]@.len()
                &&& r.unwrap().table() == q_table@
                &&& r.unwrap().alpha_spec() == alpha
                &&& r.unwrap().epsilon_spec() == epsilon
                &&& r.unwrap().gamma_spec() == gamma
            },
    {
        if !check_grid(&q_table) {
            return None;
        }
        if !(0 <= alpha && alpha <= SCALE) {
            return None;
        }
        if !(0 <= epsilon && epsilon <= SCALE) {
            return None;
        }
        if !(0 <= gamma && gamma < SCALE) {
            return None;
        }
        Some(QLearning { q_table, alpha, epsilon, gamma })
    }

    /// What `get_best_action` picks, in public terms: the greedy action over
    /// the listed ones, under this state's row of the table, ties to the
    /// action listed first.
    pub proof fn lemma_best_action_characterization(&self, state: int, avail: Seq<usize>)
        requires
            self.wf(),
            0 <= state < self.n_states(),
        ensures
            self.best_spec(state, avail) == greedy_spec(self.table()[state]@, avail),
            self.table()[state]@.len() == self.n_actions(),
    {
    }

    /// Epsilon-greedy selection among the listed actions: a uniformly random
    /// one with probability epsilon, else the greedy one; always listed.
    pub fn select_action(&self, rng: &mut Prng, state: usize, avail: &[usize]) -> (a: usize)
        requires
            self.wf(),
            (state as int) < self.n_states(),
            1 <= avail@.len(),
            forall|i: int|
                0 <= i < avail@.len() ==> ((#[trigger] avail@[i]) as int) < self.n_actions(),
        ensures
            avail@.contains(a),
    {
        epsilon_greedy(rng, self.epsilon, &self.q_table[state], avail)
    }

    /// Learns from one observed transition: the taken pair's entry moves by
    /// the update rule, with the greedy bootstrap over the next state's
    /// listed actions (zero when the episode ended or nothing is listed);
    /// every other entry is untouched.
    pub fn observe(
        &mut self,
        s: usize,
        a: usize,
        r: i64,
        s_next: usize,
        next_avail: &[usize],
        over: bool,
    )
        requires
            old(self).wf(),
            (s as int) < old(self).n_states(),
            (a as int) < old(self).n_actions(),
            -REWARD_BOUND <= r <= REWARD_BOUND,
            (s_next as int) < old(self).n_states(),
            forall|i: int|
                0 <= i < next_avail@.len() ==> ((#[trigger] next_avail@[i]) as int) < old(
                    self,
                ).n_actions(),
        ensures
            final(self).wf(),
            final(self).n_states() == old(self).n_states(),
            final(self).n_actions() == old(self).n_actions(),
            final(self).alpha_spec() == old(self).alpha_spec(),
            final(self).epsilon_spec() == old(self).epsilon_spec(),
            final(self).gamma_spec() == old(self).gamma_spec(),
            final(self).table()[s as int]@[a as int] as int == q_learning_update(
                old(self).table()[s as int]@[a as int] as int,
                old(self).alpha_spec(),
                old(self).gamma_spec(),
                r as int,
                if over || next_avail@.len() == 0 {
                    0int
                } else {
                    max_over(old(self).table()[s_next as int]@, next_avail@, next_avail@.len() as int)
                },
            ),
            forall|s2: int|
                0 <= s2 < old(self).n_states() && s2 != s ==> #[trigger] final(self).table()[s2]@
                    == old(self).table()[s2]@,
            forall|a2: int|
                0 <= a2 < old(self).n_actions() && a2 != a ==> #[trigger] final(self).table()[
                    s as int
                ]@[a2] == old(self).table()[s as int]@[a2],
    {
        let ns = self.q_table.len();
        let na = self.q_table[0].len();
        let m = if over || next_avail.len() == 0 {
            0
        } else {
            best_value(&self.q_table[s_next], next_avail)
        };
        apply_td_update(&mut self.q_table, ns, na, s, a, self.alpha, self.gamma, r, m);
    }
}

impl RLAlgorithm for QLearning {
    closed spec fn wf(&self) -> bool {
        &&& grid_wf(self.q_table@, self.q_table@.len() as int, self.n_actions())
        &&& self.q_table@.len() >= 1
        &&& 0 <= self.alpha <= SCALE
        &&& 0 <= self.epsilon <= SCALE
        &&& 0 <= self.gamma < SCALE
    }

    closed spec fn n_states(&self) -> int {
        self.q_table@.len() as int
    }

    closed spec fn n_actions(&self) -> int {
        if self.q_table@.len() > 0 {
            self.q_table@[0]@.len() as int
        } else {
            0
        }
    }

    closed spec fn fits(&self, ns: int, na: int) -> bool {
        ns == self.n_states() && na == self.n_actions()
    }

    closed spec fn best_spec(&self, state: int, avail: Seq<usize>) -> usize {
        greedy_spec(self.q_table@[state]@, avail)
    }

    /// Each step updates exactly one entry by the temporal-difference rule,
    /// with the greedy bootstrap of the next state; the table stays well
    /// formed and the learning parameters are untouched.
    fn train<E: Environment>(&mut self, env: &mut E, max_episodes: usize) -> (rewards: Vec<i64>)
        ensures
            final(self).alpha_spec() == old(self).alpha_spec(),
            final(self).epsilon_spec() == old(self).epsilon_spec(),
            final(self).gamma_spec() == old(self).gamma_spec(),
    {
        let mut rng = Prng::from_seed(42);
        let mut rewards: Vec<i64> = Vec::new();
        let ns = env.num_states();
        let na = env.num_actions();
        let ghost a0 = self.alpha as int;
        let ghost e0 = self.epsilon as int;
        let ghost g0 = self.gamma as int;
        let mut ep: usize = 0;
        while ep < max_episodes
            invariant
                self.wf(),
                env.inv(),
                ns as int == env.states(),
                na as int == env.actions(),
                ns as int == self.n_states(),
                na as int == self.n_actions(),
                self.alpha as int == a0,
                self.epsilon as int == e0,
                self.gamma as int == g0,
                rewards@.len() == ep,
                ep <= max_episodes,
                forall|i: int|
                    0 <= i < rewards@.len() ==> -TRAIN_TOTAL_BOUND <= #[trigger] rewards@[i]
                        <= TRAIN_TOTAL_BOUND,
            decreases max_episodes - ep,
        {
            env.reset();
            let mut total: i64 = 0;
            let mut s = env.state_id();
            let mut over = env.is_game_over();
            let mut steps: usize = 0;
            while !over && steps < EPISODE_STEP_CAP
                invariant
                    self.wf(),
                    env.inv(),
                    ns as int == env.states(),
                    na as int == env.actions(),
                    ns as int == self.n_states(),
                    na as int == self.n_actions(),
                    self.alpha as int == a0,
                    self.epsilon as int == e0,
                    self.gamma as int == g0,
                    (s as int) < env.states(),
                    over == env.over(),
                    steps <= EPISODE_STEP_CAP,
                    -2_000_000_000 * (steps as int) <= total <= 2_000_000_000 * (steps as int),
                decreases EPISODE_STEP_CAP - steps,
            {
                let aa = env.available_actions();
                let a = self.select_action(&mut rng, s, aa.as_slice());
                let before = env.score();
                env.step(a);
                let r = env.score() - before;
                total = total + r;
                let s_next = env.state_id();
                over = env.is_game_over();
                let aa_next = env.available_actions();
                self.observe(s, a, r, s_next, aa_next.as_slice(), over);
                s = s_next;
                steps = steps + 1;
            }
            rewards.push(total);
            ep = ep + 1;
        }
        rewards
    }

    fn get_best_action(&self, state: usize, available_actions: &[usize]) -> (a: usize) {
        greedy_action(&self.q_table[state], available_actions)
    }
}

} // verus!
