//! Value iteration over a fully specified model. Each sweep recomputes every
//! state-action backup from the model, raises each state's value to the best
//! backup, and records the maximizing action; sweeps stop when the largest
//! per-state change falls below the convergence threshold or an iteration cap
//! is reached (a silent approximation, not a failure).
//!
//! A deliberate choice: every backup of a sweep is computed from a snapshot
//! of the values as they stood when the sweep began, never from values
//! already raised within the same sweep. That makes one sweep an exactly
//! statable function of its starting point; both orders converge to the same
//! fixed point.

use vstd::prelude::*;
use crate::algorithm::{RLAlgorithm, EPISODE_STEP_CAP, TRAIN_TOTAL_BOUND};
use crate::bellman::bellman_backup;
use crate::env::{prob_matrix_wf, reward_matrix_wf, Environment};
use crate::bellman::bellman_q;
use crate::fixed::{lemma_max_abs_diff_ext, max_abs_diff, SCALE, VALUE_BOUND};
use crate::qtable::{
    all_actions, argmax_over, copy_values, greedy_action, greedy_spec, grid_wf, idents, zero_grid,
    zero_policy,
};

verus! {

/// Sweep bound for the convergence loop.
pub const VI_MAX_ITER: usize = 1000;

/// Whether a sweep count lies within the convergence loop's bound.
pub open spec fn within_cap(k: int) -> bool {
    1 <= k <= VI_MAX_ITER
}

/// One full sweep's image: starting from the `prior` values, every backup is
/// recomputed from the model, each state's value is its backup row's maximum,
/// and its recorded action the first-seen maximizer.
pub open spec fn sweep_rel(
    tp: Seq<Vec<Vec<i64>>>,
    rw: Seq<Vec<i64>>,
    gamma: int,
    prior: Seq<i64>,
    post: ValueIteration,
) -> bool {
    &&& prior.len() == post.n_states()
    &&& forall|s: int, a: int|
        0 <= s < post.n_states() && 0 <= a < post.n_actions() ==> #[trigger] post.q_at(s, a)
            == bellman_q(tp[s]@[a]@, rw[s]@[a] as int, gamma, prior)
    &&& forall|s: int|
        0 <= s < post.n_states() ==> #[trigger] post.policy_at(s) == argmax_over(
            post.q_row(s),
            idents(post.n_actions()),
            post.n_actions(),
        ) && post.values_at(s) == post.q_at(s, post.policy_at(s) as int)
}

pub struct ValueIteration {
    num_states: usize,
    num_actions: usize,
    gamma: i64,
    theta: i64,
    values: Vec<i64>,
    policy: Vec<usize>,
    q_values: Vec<Vec<i64>>,
}

impl ValueIteration {
    /// The state values.
    pub closed spec fn values_at(&self, s: int) -> int {
        self.values@[s] as int
    }

    /// The state-action backups of the last sweep.
    pub closed spec fn q_at(&self, s: int, a: int) -> int {
        self.q_values@[s]@[a] as int
    }

    /// The recorded maximizing action per state.
    pub closed spec fn policy_at(&self, s: int) -> usize {
        self.policy@[s]
    }

    /// Discount, in `[0, 1)`.
    pub closed spec fn gamma_spec(&self) -> int {
        self.gamma as int
    }

    /// Convergence threshold.
    pub closed spec fn theta_spec(&self) -> int {
        self.theta as int
    }

    /// The state values, as a sequence.
    pub closed spec fn values_seq(&self) -> Seq<i64> {
        self.values@
    }

    /// One state's row of backed-up values.
    pub closed spec fn q_row(&self, s: int) -> Seq<i64> {
        self.q_values@[s]@
    }

    /// What `get_best_action` picks, in public terms: the greedy action over
    /// the listed ones, under this state's row of backups, ties to the
    /// action listed first.
    pub proof fn lemma_best_action_characterization(&self, state: int, avail: Seq<usize>)
        requires
            self.wf(),
            0 <= state < self.n_states(),
        ensures
            self.best_spec(state, avail) == greedy_spec(self.q_row(state), avail),
            self.q_row(state).len() == self.n_actions(),
            forall|a: int| 0 <= a < self.n_actions() ==> #[trigger] self.q_row(state)[a] as int
                == self.q_at(state, a),
    {
    }

    /// After a planning run, each state's recorded action is the first-seen
    /// maximizer of its backup row, and its value is that row's maximum.
    pub closed spec fn policy_consistent(&self) -> bool {
        forall|s: int|
            0 <= s < self.num_states ==> #[trigger] self.policy@[s] == argmax_over(
                self.q_values@[s]@,
                idents(self.num_actions as int),
                self.num_actions as int,
            ) && self.values@[s] == self.q_values@[s]@[self.policy@[s] as int]
    }

    /// A zero-initialized planner. The discount must lie strictly below one:
    /// that keeps every value within the representable bound.
    pub fn new(num_states: usize, num_actions: usize, gamma: i64, theta: i64) -> (r:
        ValueIteration)
        requires
            num_states >= 1,
            num_actions >= 1,
            0 <= gamma < SCALE,
            0 <= theta,
        ensures
            r.wf(),
            forall|ns: int, na: int|
                ns >= 1 && na >= 1 ==> #[trigger] r.fits(ns, na),
            r.n_states() == num_states,
            r.n_actions() == num_actions,
            r.gamma_spec() == gamma,
            r.theta_spec() == theta,
    {
        ValueIteration {
            num_states,
            num_actions,
            gamma,
            theta,
            values: crate::qtable::filled_row(num_states, 0),
            policy: zero_policy(num_states),
            q_values: zero_grid(num_states, num_actions),
        }
    }

    /// Rebuilds a planner from serialized parts, accepting exactly the valid
    /// ones: a rectangular bounded backup table, matching values and policy,
    /// and a discount and threshold in range.
    pub fn from_parts(
        q_values: Vec<Vec<i64>>,
        values: Vec<i64>,
        policy: Vec<usize>,
        gamma: i64,
        theta: i64,
    ) -> (r: Option<ValueIteration>)
        ensures
            r is Some <==> (crate::qtable::grid_parts_valid(q_values@) && values@.len()
                == q_values@.len() && policy@.len() == q_values@.len() && (forall|s: int|
                0 <= s < values@.len() ==> -VALUE_BOUND <= #[trigger] values@[s] <= VALUE_BOUND)
                && (forall|s: int|
                0 <= s < policy@.len() ==> ((#[trigger] policy@[s]) as int) < q_values@[0]@.len())
                && 0 <= gamma < SCALE && 0 <= theta),
            r is Some ==> {
                &&& r.unwrap().wf()
                &&& r.unwrap().n_states() == q_values@.len()
                &&& r.unwrap().n_actions() == q_values@[0]@.len()
                &&& r.unwrap().gamma_spec() == gamma
                &&& r.unwrap().theta_spec() == theta
                &&& forall|s: int, a: int|
                    0 <= s < q_values@.len() && 0 <= a < q_values@[0]@.len()
                        ==> #[trigger] r.unwrap().q_at(s, a) == q_values@[s]@[a]
                &&& forall|s: int|
                    0 <= s < values@.len() ==> #[trigger] r.unwrap().values_at(s) == values@[s]
                &&& forall|s: int|
                    0 <= s < policy@.len() ==> #[trigger] r.unwrap().policy_at(s) == policy@[s]
            },
    {
        if !crate::qtable::check_grid(&q_values) {
            return None;
        }
        if values.len() != q_values.len() || policy.len() != q_values.len() {
            return None;
        }
        if !(0 <= gamma && gamma < SCALE) {
            return None;
        }
        if theta < 0 {
            return None;
        }
        let na = q_values[0].len();
        let mut s: usize = 0;
        while s < policy.len()
            invariant
                s <= policy@.len(),
                policy@.len() == values@.len(),
                policy@.len() == q_values@.len(),
                crate::qtable::grid_parts_valid(q_values@),
                na == q_values@[0]@.len(),
                0 <= gamma < SCALE,
                0 <= theta,
                forall|u: int| 0 <= u < s ==> ((#[trigger] policy@[u]) as int) < na,
                forall|u: int| 0 <= u < s ==> -VALUE_BOUND <= #[trigger] values@[u] <= VALUE_BOUND,
            decreases policy@.len() - s,
        {
            if policy[s] >= na {
                return None;
            }
            let v = values[s];
            if v < -VALUE_BOUND || v > VALUE_BOUND {
                return None;
            }
            s = s + 1;
        }
        let num_states = q_values.len();
        let num_actions = na;
        Some(ValueIteration { num_states, num_actions, gamma, theta, values, policy, q_values })
    }

    /// The state values.
    pub fn get_values(&self) -> (r: &[i64])
        requires
            self.wf(),
        ensures
            r@.len() == self.n_states(),
            forall|s: int| 0 <= s < r@.len() ==> #[trigger] r@[s] as int == self.values_at(s),
    {
        self.values.as_slice()
    }

    /// The state-action backups of the last sweep.
    pub fn get_q_values(&self) -> (r: &[Vec<i64>])
        requires
            self.wf(),
        ensures
            r@.len() == self.n_states(),
            forall|s: int, a: int|
                0 <= s < r@.len() && 0 <= a < r@[s]@.len() ==> (#[trigger] r@[s]@[a]) as int
                    == self.q_at(s, a),
    {
        self.q_values.as_slice()
    }

    /// One full sweep: takes a snapshot of the values, recomputes every
    /// backup from the model and the snapshot, raises each value to its
    /// row's maximum and records the maximizing action, and returns the
    /// largest per-state value change.
    fn sweep(&mut self, transition_probs: &[Vec<Vec<i64>>], rewards: &[Vec<i64>]) -> (delta: i64)
        requires
            old(self).wf(),
            prob_matrix_wf(
                transition_probs@,
                old(self).num_states as int,
                old(self).num_actions as int,
            ),
            reward_matrix_wf(rewards@, old(self).num_states as int, old(self).num_actions as int),
        ensures
            final(self).wf(),
            final(self).num_states == old(self).num_states,
            final(self).num_actions == old(self).num_actions,
            final(self).gamma == old(self).gamma,
            final(self).theta == old(self).theta,
            sweep_rel(
                transition_probs@,
                rewards@,
                old(self).gamma as int,
                old(self).values@,
                *final(self),
            ),
            final(self).policy_consistent(),
            delta as int == max_abs_diff(
                old(self).values@,
                final(self).values@,
                old(self).num_states as int,
            ),
            delta >= 0,
    {
        let ns = self.num_states;
        let na = self.num_actions;
        let ghost g0 = self.gamma;
        let ghost t0 = self.theta;
        let prior = copy_values(&self.values);
        let every = all_actions(na);
        let mut delta: i64 = 0;
        let mut s: usize = 0;
        while s < ns
            invariant
                ns == self.num_states,
                na == self.num_actions,
                self.gamma == g0,
                self.theta == t0,
                self.wf(),
                prob_matrix_wf(transition_probs@, ns as int, na as int),
                reward_matrix_wf(rewards@, ns as int, na as int),
                prior@ == old(self).values@,
                prior@.len() == ns,
                forall|k: int| 0 <= k < ns ==> -VALUE_BOUND <= #[trigger] prior@[k] <= VALUE_BOUND,
                every@ == idents(na as int),
                every@.len() == na,
                forall|i: int| 0 <= i < na ==> (#[trigger] every@[i]) == i,
                s <= ns,
                delta >= 0,
                delta as int == max_abs_diff(prior@, self.values@, s as int),
                forall|u: int, a: int|
                    0 <= u < s && 0 <= a < na ==> #[trigger] self.q_values@[u]@[a] as int
                        == bellman_q(
                        transition_probs@[u]@[a]@,
                        rewards@[u]@[a] as int,
                        g0 as int,
                        prior@,
                    ),
                forall|u: int|
                    0 <= u < s ==> #[trigger] self.policy@[u] == argmax_over(
                        self.q_values@[u]@,
                        idents(na as int),
                        na as int,
                    ) && self.values@[u] == self.q_values@[u]@[self.policy@[u] as int],
            decreases ns - s,
        {
            let v = prior[s];
            let mut a: usize = 0;
            while a < na
                invariant
                    ns == self.num_states,
                    na == self.num_actions,
                    self.gamma == g0,
                    self.theta == t0,
                    self.wf(),
                    prob_matrix_wf(transition_probs@, ns as int, na as int),
                    reward_matrix_wf(rewards@, ns as int, na as int),
                    prior@ == old(self).values@,
                    prior@.len() == ns,
                    forall|k: int|
                        0 <= k < ns ==> -VALUE_BOUND <= #[trigger] prior@[k] <= VALUE_BOUND,
                    s < ns,
                    a <= na,
                    delta >= 0,
                    delta as int == max_abs_diff(prior@, self.values@, s as int),
                    forall|b: int|
                        0 <= b < a ==> #[trigger] self.q_values@[s as int]@[b] as int == bellman_q(
                            transition_probs@[s as int]@[b]@,
                            rewards@[s as int]@[b] as int,
                            g0 as int,
                            prior@,
                        ),
                    forall|u: int, b: int|
                        0 <= u < s && 0 <= b < na ==> #[trigger] self.q_values@[u]@[b] as int
                            == bellman_q(
                            transition_probs@[u]@[b]@,
                            rewards@[u]@[b] as int,
                            g0 as int,
                            prior@,
                        ),
                    forall|u: int|
                        0 <= u < s ==> #[trigger] self.policy@[u] == argmax_over(
                            self.q_values@[u]@,
                            idents(na as int),
                            na as int,
                        ) && self.values@[u] == self.q_values@[u]@[self.policy@[u] as int],
                decreases na - a,
            {
                let qv = bellman_backup(
                    &transition_probs[s][a],
                    rewards[s][a],
                    self.gamma,
                    &prior,
                );
                self.q_values[s][a] = qv;
                a = a + 1;
            }
            let best = greedy_action(&self.q_values[s], every.as_slice());
            let maxq = self.q_values[s][best];
            let ghost values_before = self.values@;
            self.values[s] = maxq;
            self.policy[s] = best;
            proof {
                lemma_max_abs_diff_ext(prior@, values_before, self.values@, s as int);
            }
            let diff = if v >= maxq {
                v - maxq
            } else {
                maxq - v
            };
            if diff > delta {
                delta = diff;
            }
            s = s + 1;
        }
        delta
    }

    /// Runs sweeps until the largest value change falls below the threshold
    /// or the iteration cap is reached; afterward each state's value is the
    /// maximum of its backups and its recorded action a first-seen maximizer.
    pub fn value_iteration(
        &mut self,
        transition_probs: &[Vec<Vec<i64>>],
        rewards: &[Vec<i64>],
    )
        requires
            old(self).wf(),
            prob_matrix_wf(
                transition_probs@,
                old(self).n_states(),
                old(self).n_actions(),
            ),
            reward_matrix_wf(rewards@, old(self).n_states(), old(self).n_actions()),
        ensures
            final(self).wf(),
            final(self).n_states() == old(self).n_states(),
            final(self).n_actions() == old(self).n_actions(),
            final(self).gamma_spec() == old(self).gamma_spec(),
            final(self).theta_spec() == old(self).theta_spec(),
            final(self).policy_consistent(),
            exists|prior: Seq<i64>, k: int|
                #[trigger] sweep_rel(
                    transition_probs@,
                    rewards@,
                    final(self).gamma_spec(),
                    prior,
                    *final(self),
                ) && #[trigger] within_cap(k) && (max_abs_diff(
                    prior,
                    final(self).values_seq(),
                    final(self).n_states(),
                ) < final(self).theta_spec() || k == VI_MAX_ITER),
    {
        let mut iterations: usize = 0;
        let mut done = false;
        let ghost mut last_prior: Seq<i64> = Seq::empty();
        while !done && iterations < VI_MAX_ITER
            invariant
                self.wf(),
                self.num_states == old(self).num_states,
                self.num_actions == old(self).num_actions,
                self.gamma == old(self).gamma,
                self.theta == old(self).theta,
                prob_matrix_wf(transition_probs@, self.num_states as int, self.num_actions as int),
                reward_matrix_wf(rewards@, self.num_states as int, self.num_actions as int),
                iterations >= 1 ==> self.policy_consistent(),
                iterations >= 1 ==> sweep_rel(
                    transition_probs@,
                    rewards@,
                    self.gamma as int,
                    last_prior,
                    *self,
                ),
                done ==> iterations >= 1 && max_abs_diff(
                    last_prior,
                    self.values@,
                    self.num_states as int,
                ) < self.theta,
                iterations <= VI_MAX_ITER,
            decreases VI_MAX_ITER - iterations,
        {
            proof {
                last_prior = self.values@;
            }
            let delta = self.sweep(transition_probs, rewards);
            if delta < self.theta {
                done = true;
            }
            iterations = iterations + 1;
        }
        proof {
            assert(iterations >= 1);
            assert(sweep_rel(
                transition_probs@,
                rewards@,
                self.gamma as int,
                last_prior,
                *self,
            ) && within_cap(iterations as int) && (max_abs_diff(
                last_prior,
                self.values_seq(),
                self.n_states(),
            ) < self.theta_spec() || iterations as int == VI_MAX_ITER));
        }
    }
}

impl RLAlgorithm for ValueIteration {
    closed spec fn wf(&self) -> bool {
        &&& self.num_states >= 1
        &&& self.num_actions >= 1
        &&& 0 <= self.gamma < SCALE
        &&& 0 <= self.theta
        &&& self.values@.len() == self.num_states
        &&& forall|s: int|
            0 <= s < self.num_states ==> -VALUE_BOUND <= #[trigger] self.values@[s] <= VALUE_BOUND
        &&& self.policy@.len() == self.num_states
        &&& forall|s: int|
            0 <= s < self.num_states ==> ((#[trigger] self.policy@[s]) as int) < self.num_actions
        &&& grid_wf(self.q_values@, self.num_states as int, self.num_actions as int)
    }

    closed spec fn n_states(&self) -> int {
        self.num_states as int
    }

    closed spec fn n_actions(&self) -> int {
        self.num_actions as int
    }

    closed spec fn fits(&self, ns: int, na: int) -> bool {
        ns >= 1 && na >= 1
    }

    closed spec fn best_spec(&self, state: int, avail: Seq<usize>) -> usize {
        greedy_spec(self.q_values@[state]@, avail)
    }

    /// Rebinding to an environment of other dimensions reinitializes the
    /// planner from scratch: values, backups and policy restart at zero with
    /// the new dimensions, so previous learning is discarded rather than
    /// silently reinterpreted. Each episode is then an evaluation run: the
    /// greedy action among the available ones is taken until the episode
    /// ends, accumulating score deltas.
    fn train<E: Environment>(&mut self, env: &mut E, max_episodes: usize) -> (rewards: Vec<i64>)
        ensures
            final(self).n_states() == old(env).states(),
            final(self).n_actions() == old(env).actions(),
            final(self).gamma_spec() == old(self).gamma_spec(),
            final(self).theta_spec() == old(self).theta_spec(),
            (old(env).states() != old(self).n_states() || old(env).actions() != old(
                self,
            ).n_actions()) ==> {
                &&& forall|s: int|
                    0 <= s < final(self).n_states() ==> #[trigger] final(self).values_at(s) == 0
                &&& forall|s: int|
                    0 <= s < final(self).n_states() ==> #[trigger] final(self).policy_at(s) == 0
                &&& forall|s: int, a: int|
                    0 <= s < final(self).n_states() && 0 <= a < final(self).n_actions()
                        ==> #[trigger] final(self).q_at(s, a) == 0
            },
    {
        let ns = env.num_states();
        let na = env.num_actions();
        if ns != self.num_states || na != self.num_actions {
            self.num_states = ns;
            self.num_actions = na;
            self.values = crate::qtable::filled_row(ns, 0);
            self.policy = zero_policy(ns);
            self.q_values = zero_grid(ns, na);
        }
        let mut rewards: Vec<i64> = Vec::new();
        let ghost g0 = self.gamma;
        let ghost t0 = self.theta;
        let ghost v0 = self.values@;
        let ghost p0 = self.policy@;
        let ghost q0 = self.q_values@;
        let mut ep: usize = 0;
        while ep < max_episodes
            invariant
                self.wf(),
                env.inv(),
                ns as int == env.states(),
                na as int == env.actions(),
                ns as int == self.n_states(),
                na as int == self.n_actions(),
                self.gamma == g0,
                self.theta == t0,
                self.values@ == v0,
                self.policy@ == p0,
                self.q_values@ == q0,
                rewards@.len() == ep,
                ep <= max_episodes,
                forall|i: int|
                    0 <= i < rewards@.len() ==> -TRAIN_TOTAL_BOUND <= #[trigger] rewards@[i]
                        <= TRAIN_TOTAL_BOUND,
            decreases max_episodes - ep,
        {
            env.reset();
            let mut total: i64 = 0;
            let mut over = env.is_game_over();
            let mut steps: usize = 0;
            while !over && steps < EPISODE_STEP_CAP
                invariant
                    self.wf(),
                    env.inv(),
                    ns as int == env.states(),
                    na as int == env.actions(),
                    ns as int == self.n_states(),
                    na as int == self.n_actions(),
                    self.gamma == g0,
                    self.theta == t0,
                    self.values@ == v0,
                    self.policy@ == p0,
                    self.q_values@ == q0,
                    over == env.over(),
                    steps <= EPISODE_STEP_CAP,
                    -2_000_000_000 * (steps as int) <= total <= 2_000_000_000 * (steps as int),
                decreases EPISODE_STEP_CAP - steps,
            {
                let s = env.state_id();
                let aa = env.available_actions();
                let a = greedy_action(&self.q_values[s], aa.as_slice());
                let before = env.score();
                env.step(a);
                let r = env.score() - before;
                total = total + r;
                over = env.is_game_over();
                steps = steps + 1;
            }
            rewards.push(total);
            ep = ep + 1;
        }
        rewards
    }

    fn get_best_action(&self, state: usize, available_actions: &[usize]) -> (a: usize) {
        greedy_action(&self.q_values[state], available_actions)
    }
}

} // verus!
