//! Policy iteration over a fully specified model: repeated alternation of
//! policy evaluation (sweeps of the expectation backup for the current
//! policy until the largest per-state change falls below the threshold) and
//! greedy policy improvement, until the policy is stable or an iteration cap
//! is reached (a silent approximation, not a failure).

use vstd::prelude::*;
use crate::algorithm::{RLAlgorithm, TRAIN_TOTAL_BOUND};
use crate::bellman::{bellman_backup, bellman_q};
use crate::env::{contains_action, prob_matrix_wf, reward_matrix_wf, run_policy, Environment};
use crate::fixed::{lemma_max_abs_diff_ext, max_abs_diff, SCALE, VALUE_BOUND};
use crate::qtable::{copy_values, filled_row, zero_policy};

verus! {

/// Sweep bound for one policy evaluation.
pub const PI_EVAL_CAP: usize = 1000;

/// Bound on evaluation-improvement rounds.
pub const PI_ROUND_CAP: usize = 100;

/// Whether a sweep count lies within the evaluation loop's bound.
pub open spec fn within_eval_cap(k: int) -> bool {
    1 <= k <= PI_EVAL_CAP
}

/// One evaluation sweep's image: starting from the `prior` values, each
/// state's value is the expectation backup of the current policy's action.
pub open spec fn eval_rel(
    tp: Seq<Vec<Vec<i64>>>,
    rw: Seq<Vec<i64>>,
    gamma: int,
    policy: Seq<usize>,
    prior: Seq<i64>,
    post: Seq<i64>,
) -> bool {
    &&& post.len() == prior.len()
    &&& policy.len() == prior.len()
    &&& forall|s: int|
        0 <= s < post.len() ==> #[trigger] post[s] as int == action_value(
            tp,
            rw,
            gamma,
            prior,
            s,
            policy[s] as int,
        )
}

/// The backed-up value of acting `a` in `s` under the model and the given
/// state values.
pub open spec fn action_value(
    tp: Seq<Vec<Vec<i64>>>,
    rw: Seq<Vec<i64>>,
    gamma: int,
    v: Seq<i64>,
    s: int,
    a: int,
) -> int {
    bellman_q(tp[s]@[a]@, rw[s]@[a] as int, gamma, v)
}

pub struct PolicyIteration {
    num_states: usize,
    num_actions: usize,
    gamma: i64,
    theta: i64,
    policy: Vec<usize>,
    value: Vec<i64>,
}

impl PolicyIteration {
    /// The current deterministic policy.
    pub closed spec fn policy_at(&self, s: int) -> usize {
        self.policy@[s]
    }

    /// The current state values.
    pub closed spec fn values_seq(&self) -> Seq<i64> {
        self.value@
    }

    /// Discount, in `[0, 1)`.
    pub closed spec fn gamma_spec(&self) -> int {
        self.gamma as int
    }

    /// Convergence threshold.
    pub closed spec fn theta_spec(&self) -> int {
        self.theta as int
    }

    /// A planner starting from the all-zero policy and values. The discount
    /// must lie strictly below one: that keeps every value within the
    /// representable bound.
    pub fn new(num_states: usize, num_actions: usize, gamma: i64, theta: i64) -> (r:
        PolicyIteration)
        requires
            num_states >= 1,
            num_actions >= 1,
            0 <= gamma < SCALE,
            0 <= theta,
        ensures
            r.wf(),
            forall|ns: int, na: int|
                ns >= 1 && na >= 1 ==> #[trigger] r.fits(ns, na),
            r.n_states() == num_states,
            r.n_actions() == num_actions,
            r.gamma_spec() == gamma,
            r.theta_spec() == theta,
    {
        let policy = zero_policy(num_states);
        PolicyIteration {
            num_states,
            num_actions,
            gamma,
            theta,
            policy,
            value: filled_row(num_states, 0),
        }
    }

    /// Rebuilds a planner from serialized parts, accepting exactly the valid
    /// ones: a policy over a positive action count, one bounded value per
    /// state, and a discount and threshold in range.
    pub fn from_parts(
        num_actions: usize,
        policy: Vec<usize>,
        value: Vec<i64>,
        gamma: i64,
        theta: i64,
    ) -> (r: Option<PolicyIteration>)
        ensures
            r is Some <==> (policy@.len() >= 1 && policy@.len() == value@.len() && num_actions >= 1
                && (forall|s: int|
                0 <= s < policy@.len() ==> ((#[trigger] policy@[s]) as int) < num_actions) && (
            forall|s: int|
                0 <= s < value@.len() ==> -VALUE_BOUND <= #[trigger] value@[s] <= VALUE_BOUND) && 0
                <= gamma < SCALE && 0 <= theta),
            r is Some ==> {
                &&& r.unwrap().wf()
                &&& r.unwrap().n_states() == policy@.len()
                &&& r.unwrap().n_actions() == num_actions
                &&& r.unwrap().gamma_spec() == gamma
                &&& r.unwrap().theta_spec() == theta
                &&& forall|s: int|
                    0 <= s < policy@.len() ==> #[trigger] r.unwrap().policy_at(s) == policy@[s]
                &&& r.unwrap().values_seq() == value@
            },
    {
        if policy.len() == 0 || policy.len() != value.len() || num_actions == 0 {
            return None;
        }
        if !(0 <= gamma && gamma < SCALE) {
            return None;
        }
        if theta < 0 {
            return None;
        }
        let mut s: usize = 0;
        while s < policy.len()
            invariant
                s <= policy@.len(),
                policy@.len() >= 1,
                policy@.len() == value@.len(),
                num_actions >= 1,
                0 <= gamma < SCALE,
                0 <= theta,
                forall|u: int|
                    0 <= u < s ==> ((#[trigger] policy@[u]) as int) < num_actions,
                forall|u: int| 0 <= u < s ==> -VALUE_BOUND <= #[trigger] value@[u] <= VALUE_BOUND,
            decreases policy@.len() - s,
        {
            if policy[s] >= num_actions {
                return None;
            }
            let v = value[s];
            if v < -VALUE_BOUND || v > VALUE_BOUND {
                return None;
            }
            s = s + 1;
        }
        let num_states = policy.len();
        Some(PolicyIteration { num_states, num_actions, gamma, theta, policy, value })
    }

    /// The current deterministic policy.
    pub fn get_policy(&self) -> (r: &Vec<usize>)
        requires
            self.wf(),
        ensures
            r@.len() == self.n_states(),
            forall|s: int| 0 <= s < r@.len() ==> (#[trigger] r@[s]) == self.policy_at(s),
    {
        &self.policy
    }

    /// The current state values.
    pub fn get_values(&self) -> (r: &[i64])
        requires
            self.wf(),
        ensures
            r@.len() == self.n_states(),
            r@ == self.values_seq(),
    {
        self.value.as_slice()
    }

    /// What `get_best_action` picks, in public terms: the stored policy's
    /// action when it is among the listed ones, else the action listed first.
    pub proof fn lemma_best_action_characterization(&self, state: int, avail: Seq<usize>)
        requires
            self.wf(),
            0 <= state < self.n_states(),
        ensures
            self.best_spec(state, avail) == if avail.contains(self.policy_at(state)) {
                self.policy_at(state)
            } else {
                avail[0]
            },
            (self.policy_at(state) as int) < self.n_actions(),
    {
    }

    /// Policy evaluation: sweeps of the expectation backup for the current
    /// policy, each computed from a snapshot of the values, until the largest
    /// per-state change falls below the threshold or the sweep cap is
    /// reached. Only the values change; the final values are the image of one
    /// exact sweep.
    fn evaluate_policy(&mut self, tp: &Vec<Vec<Vec<i64>>>, rw: &Vec<Vec<i64>>)
        requires
            old(self).wf(),
            prob_matrix_wf(tp@, old(self).num_states as int, old(self).num_actions as int),
            reward_matrix_wf(rw@, old(self).num_states as int, old(self).num_actions as int),
        ensures
            final(self).wf(),
            final(self).num_states == old(self).num_states,
            final(self).num_actions == old(self).num_actions,
            final(self).gamma == old(self).gamma,
            final(self).theta == old(self).theta,
            final(self).policy@ == old(self).policy@,
            exists|prior: Seq<i64>, k: int|
                #[trigger] eval_rel(
                    tp@,
                    rw@,
                    old(self).gamma as int,
                    old(self).policy@,
                    prior,
                    final(self).value@,
                ) && #[trigger] within_eval_cap(k) && (max_abs_diff(
                    prior,
                    final(self).value@,
                    old(self).num_states as int,
                ) < old(self).theta || k == PI_EVAL_CAP),
    {
        let ns = self.num_states;
        let na = self.num_actions;
        let ghost g0 = self.gamma;
        let ghost t0 = self.theta;
        let ghost p0 = self.policy@;
        let mut sweeps: usize = 0;
        let mut done = false;
        let ghost mut last_prior: Seq<i64> = Seq::empty();
        while !done && sweeps < PI_EVAL_CAP
            invariant
                ns == self.num_states,
                na == self.num_actions,
                self.gamma == g0,
                self.theta == t0,
                self.policy@ == p0,
                self.wf(),
                prob_matrix_wf(tp@, ns as int, na as int),
                reward_matrix_wf(rw@, ns as int, na as int),
                sweeps >= 1 ==> eval_rel(tp@, rw@, g0 as int, p0, last_prior, self.value@),
                done ==> sweeps >= 1 && max_abs_diff(last_prior, self.value@, ns as int) < t0,
                sweeps <= PI_EVAL_CAP,
            decreases PI_EVAL_CAP - sweeps,
        {
            let prior = copy_values(&self.value);
            proof {
                last_prior = self.value@;
            }
            let mut delta: i64 = 0;
            let mut s: usize = 0;
            while s < ns
                invariant
                    ns == self.num_states,
                    na == self.num_actions,
                    self.gamma == g0,
                    self.theta == t0,
                    self.policy@ == p0,
                    self.wf(),
                    prob_matrix_wf(tp@, ns as int, na as int),
                    reward_matrix_wf(rw@, ns as int, na as int),
                    prior@ == last_prior,
                    prior@.len() == ns,
                    forall|k: int|
                        0 <= k < ns ==> -VALUE_BOUND <= #[trigger] prior@[k] <= VALUE_BOUND,
                    s <= ns,
                    delta >= 0,
                    delta as int == max_abs_diff(prior@, self.value@, s as int),
                    forall|u: int|
                        0 <= u < s ==> #[trigger] self.value@[u] as int == action_value(
                            tp@,
                            rw@,
                            g0 as int,
                            prior@,
                            u,
                            p0[u] as int,
                        ),
                decreases ns - s,
            {
                let old_value = prior[s];
                let act = self.policy[s];
                let new_value = bellman_backup(&tp[s][act], rw[s][act], self.gamma, &prior);
                let ghost values_before = self.value@;
                self.value[s] = new_value;
                proof {
                    lemma_max_abs_diff_ext(prior@, values_before, self.value@, s as int);
                }
                let diff = if old_value >= new_value {
                    old_value - new_value
                } else {
                    new_value - old_value
                };
                if diff > delta {
                    delta = diff;
                }
                s = s + 1;
            }
            if delta < self.theta {
                done = true;
            }
            sweeps = sweeps + 1;
        }
        proof {
            assert(sweeps >= 1);
            assert(eval_rel(tp@, rw@, g0 as int, p0, last_prior, self.value@)
                && within_eval_cap(sweeps as int) && (max_abs_diff(
                last_prior,
                self.value@,
                ns as int,
            ) < t0 || sweeps as int == PI_EVAL_CAP));
        }
    }

    /// Policy improvement: every state's action becomes the first-seen
    /// maximizer of the backed-up action values under the current state
    /// values. Returns whether no action changed.
    fn improve_policy(&mut self, tp: &Vec<Vec<Vec<i64>>>, rw: &Vec<Vec<i64>>) -> (stable: bool)
        requires
            old(self).wf(),
            prob_matrix_wf(tp@, old(self).num_states as int, old(self).num_actions as int),
            reward_matrix_wf(rw@, old(self).num_states as int, old(self).num_actions as int),
        ensures
            final(self).wf(),
            final(self).num_states == old(self).num_states,
            final(self).num_actions == old(self).num_actions,
            final(self).gamma == old(self).gamma,
            final(self).theta == old(self).theta,
            final(self).value@ == old(self).value@,
            stable ==> final(self).policy@ == old(self).policy@,
            forall|s: int, a: int|
                0 <= s < old(self).num_states && 0 <= a < old(self).num_actions
                    ==> #[trigger] action_value(
                    tp@,
                    rw@,
                    old(self).gamma as int,
                    old(self).value@,
                    s,
                    a,
                ) <= action_value(
                    tp@,
                    rw@,
                    old(self).gamma as int,
                    old(self).value@,
                    s,
                    final(self).policy@[s] as int,
                ),
            forall|s: int, a: int|
                0 <= s < old(self).num_states && 0 <= a < final(self).policy@[s]
                    ==> #[trigger] action_value(
                    tp@,
                    rw@,
                    old(self).gamma as int,
                    old(self).value@,
                    s,
                    a,
                ) < action_value(
                    tp@,
                    rw@,
                    old(self).gamma as int,
                    old(self).value@,
                    s,
                    final(self).policy@[s] as int,
                ),
    {
        let ns = self.num_states;
        let na = self.num_actions;
        let ghost g0 = self.gamma;
        let ghost t0 = self.theta;
        let ghost v0 = self.value@;
        let ghost p0 = self.policy@;
        let mut stable = true;
        let mut s: usize = 0;
        while s < ns
            invariant
                ns == self.num_states,
                na == self.num_actions,
                self.gamma == g0,
                self.theta == t0,
                self.value@ == v0,
                self.wf(),
                prob_matrix_wf(tp@, ns as int, na as int),
                reward_matrix_wf(rw@, ns as int, na as int),
                s <= ns,
                self.policy@.len() == p0.len(),
                forall|u: int| s <= u < ns ==> #[trigger] self.policy@[u] == p0[u],
                stable ==> self.policy@ == p0,
                forall|u: int, a: int|
                    0 <= u < s && 0 <= a < na ==> #[trigger] action_value(
                        tp@,
                        rw@,
                        g0 as int,
                        v0,
                        u,
                        a,
                    ) <= action_value(tp@, rw@, g0 as int, v0, u, self.policy@[u] as int),
                forall|u: int, a: int|
                    0 <= u < s && 0 <= a < self.policy@[u] ==> #[trigger] action_value(
                        tp@,
                        rw@,
                        g0 as int,
                        v0,
                        u,
                        a,
                    ) < action_value(tp@, rw@, g0 as int, v0, u, self.policy@[u] as int),
            decreases ns - s,
        {
            let old_action = self.policy[s];
            let mut best: usize = 0;
            let mut bestv = bellman_backup(&tp[s][0], rw[s][0], self.gamma, &self.value);
            let mut a: usize = 1;
            while a < na
                invariant
                    ns == self.num_states,
                    na == self.num_actions,
                    self.gamma == g0,
                    self.value@ == v0,
                    self.wf(),
                    prob_matrix_wf(tp@, ns as int, na as int),
                    reward_matrix_wf(rw@, ns as int, na as int),
                    s < ns,
                    1 <= a <= na,
                    (best as int) < a,
                    bestv as int == action_value(tp@, rw@, g0 as int, v0, s as int, best as int),
                    forall|b: int|
                        0 <= b < a ==> #[trigger] action_value(tp@, rw@, g0 as int, v0, s as int, b)
                            <= bestv,
                    forall|b: int|
                        0 <= b < best ==> #[trigger] action_value(
                            tp@,
                            rw@,
                            g0 as int,
                            v0,
                            s as int,
                            b,
                        ) < bestv,
                decreases na - a,
            {
                let v = bellman_backup(&tp[s][a], rw[s][a], self.gamma, &self.value);
                if v > bestv {
                    best = a;
                    bestv = v;
                }
                a = a + 1;
            }
            if best != old_action {
                stable = false;
            }
            let ghost before = self.policy@;
            self.policy[s] = best;
            proof {
                if best == p0[s as int] && before == p0 {
                    assert(self.policy@ =~= p0);
                }
            }
            s = s + 1;
        }
        stable
    }

    /// Alternates evaluation and improvement until the policy is stable or
    /// the round cap is reached; afterward every state's action maximizes
    /// the backed-up action values under the final state values.
    pub fn policy_iteration(&mut self, tp: &Vec<Vec<Vec<i64>>>, rw: &Vec<Vec<i64>>)
        requires
            old(self).wf(),
            prob_matrix_wf(tp@, old(self).n_states(), old(self).n_actions()),
            reward_matrix_wf(rw@, old(self).n_states(), old(self).n_actions()),
        ensures
            final(self).wf(),
            final(self).n_states() == old(self).n_states(),
            final(self).n_actions() == old(self).n_actions(),
            final(self).gamma_spec() == old(self).gamma_spec(),
            final(self).theta_spec() == old(self).theta_spec(),
            forall|s: int, a: int|
                0 <= s < old(self).n_states() && 0 <= a < old(self).n_actions()
                    ==> #[trigger] action_value(
                    tp@,
                    rw@,
                    final(self).gamma_spec(),
                    final(self).values_seq(),
                    s,
                    a,
                ) <= action_value(
                    tp@,
                    rw@,
                    final(self).gamma_spec(),
                    final(self).values_seq(),
                    s,
                    final(self).policy_at(s) as int,
                ),
            forall|s: int, a: int|
                0 <= s < old(self).n_states() && 0 <= a < final(self).policy_at(s)
                    ==> #[trigger] action_value(
                    tp@,
                    rw@,
                    final(self).gamma_spec(),
                    final(self).values_seq(),
                    s,
                    a,
                ) < action_value(
                    tp@,
                    rw@,
                    final(self).gamma_spec(),
                    final(self).values_seq(),
                    s,
                    final(self).policy_at(s) as int,
                ),
            exists|pol: Seq<usize>, prior: Seq<i64>, k: int|
                #[trigger] eval_rel(
                    tp@,
                    rw@,
                    final(self).gamma_spec(),
                    pol,
                    prior,
                    final(self).values_seq(),
                ) && #[trigger] within_eval_cap(k) && (max_abs_diff(
                    prior,
                    final(self).values_seq(),
                    old(self).n_states(),
                ) < final(self).theta_spec() || k == PI_EVAL_CAP),
    {
        let ns = self.num_states;
        let na = self.num_actions;
        let ghost g0 = self.gamma;
        let ghost t0 = self.theta;
        let mut rounds: usize = 0;
        let mut stable = false;
        while !stable && rounds < PI_ROUND_CAP
            invariant
                ns == self.num_states,
                na == self.num_actions,
                self.gamma == g0,
                self.theta == t0,
                self.wf(),
                prob_matrix_wf(tp@, ns as int, na as int),
                reward_matrix_wf(rw@, ns as int, na as int),
                rounds <= PI_ROUND_CAP,
                rounds >= 1 ==> exists|pol: Seq<usize>, prior: Seq<i64>, k: int|
                    #[trigger] eval_rel(tp@, rw@, g0 as int, pol, prior, self.value@)
                        && #[trigger] within_eval_cap(k) && (max_abs_diff(
                        prior,
                        self.value@,
                        ns as int,
                    ) < t0 || k == PI_EVAL_CAP),
                rounds >= 1 ==> forall|s: int, a: int|
                    0 <= s < ns && 0 <= a < na ==> #[trigger] action_value(
                        tp@,
                        rw@,
                        g0 as int,
                        self.value@,
                        s,
                        a,
                    ) <= action_value(tp@, rw@, g0 as int, self.value@, s, self.policy@[s] as int),
                rounds >= 1 ==> forall|s: int, a: int|
                    0 <= s < ns && 0 <= a < self.policy@[s] ==> #[trigger] action_value(
                        tp@,
                        rw@,
                        g0 as int,
                        self.value@,
                        s,
                        a,
                    ) < action_value(tp@, rw@, g0 as int, self.value@, s, self.policy@[s] as int),
                stable ==> rounds >= 1,
            decreases PI_ROUND_CAP - rounds,
        {
            self.evaluate_policy(tp, rw);
            stable = self.improve_policy(tp, rw);
            rounds = rounds + 1;
        }
        proof {
            assert(rounds >= 1);
            let (pol, prior, k) = choose|pol: Seq<usize>, prior: Seq<i64>, k: int|
                eval_rel(tp@, rw@, g0 as int, pol, prior, self.value@) && within_eval_cap(k) && (
                max_abs_diff(prior, self.value@, ns as int) < t0 || k == PI_EVAL_CAP);
            assert(eval_rel(tp@, rw@, self.gamma_spec(), pol, prior, self.values_seq())
                && within_eval_cap(k) && (max_abs_diff(prior, self.values_seq(), ns as int)
                < self.theta_spec() || k == PI_EVAL_CAP));
        }
    }
}

impl Default for PolicyIteration {
    /// A one-state, one-action planner with a discount of nine tenths and a
    /// threshold of one millionth.
    fn default() -> (r: PolicyIteration)
        ensures
            r.wf(),
            r.n_states() == 1,
            r.n_actions() == 1,
    {
        PolicyIteration::new(1, 1, 900_000, 1)
    }
}

impl RLAlgorithm for PolicyIteration {
    closed spec fn wf(&self) -> bool {
        &&& self.num_states >= 1
        &&& self.num_actions >= 1
        &&& 0 <= self.gamma < SCALE
        &&& 0 <= self.theta
        &&& self.value@.len() == self.num_states
        &&& forall|s: int|
            0 <= s < self.num_states ==> -VALUE_BOUND <= #[trigger] self.value@[s] <= VALUE_BOUND
        &&& self.policy@.len() == self.num_states
        &&& forall|s: int|
            0 <= s < self.num_states ==> ((#[trigger] self.policy@[s]) as int) < self.num_actions
    }

    closed spec fn n_states(&self) -> int {
        self.num_states as int
    }

    closed spec fn n_actions(&self) -> int {
        self.num_actions as int
    }

    closed spec fn fits(&self, ns: int, na: int) -> bool {
        ns >= 1 && na >= 1
    }

    closed spec fn best_spec(&self, state: int, avail: Seq<usize>) -> usize {
        if avail.contains(self.policy@[state]) {
            self.policy@[state]
        } else {
            avail[0]
        }
    }

    /// Rebinding to an environment of other dimensions reinitializes the
    /// planner from scratch: values and policy restart at zero with the new
    /// dimensions before any planning, so previous learning is discarded
    /// rather than silently reinterpreted. Each episode then replans from
    /// the environment's model and rolls the policy out, accumulating score
    /// deltas.
    fn train<E: Environment>(&mut self, env: &mut E, max_episodes: usize) -> (rewards: Vec<i64>)
        ensures
            final(self).n_states() == old(env).states(),
            final(self).n_actions() == old(env).actions(),
            final(self).gamma_spec() == old(self).gamma_spec(),
            final(self).theta_spec() == old(self).theta_spec(),
            (max_episodes == 0 && (old(env).states() != old(self).n_states() || old(
                env,
            ).actions() != old(self).n_actions())) ==> {
                &&& forall|s: int|
                    0 <= s < final(self).n_states() ==> #[trigger] final(self).values_seq()[s]
                        == 0
                &&& forall|s: int|
                    0 <= s < final(self).n_states() ==> #[trigger] final(self).policy_at(s) == 0
            },
    {
        let ns = env.num_states();
        let na = env.num_actions();
        if ns != self.num_states || na != self.num_actions {
            self.num_states = ns;
            self.num_actions = na;
            self.policy = zero_policy(ns);
            self.value = filled_row(ns, 0);
        }
        let mut rewards: Vec<i64> = Vec::new();
        let ghost g0 = self.gamma;
        let ghost t0 = self.theta;
        let ghost v0 = self.value@;
        let ghost p0 = self.policy@;
        let mut ep: usize = 0;
        while ep < max_episodes
            invariant
                self.wf(),
                env.inv(),
                ns as int == env.states(),
                na as int == env.actions(),
                ns as int == self.n_states(),
                na as int == self.n_actions(),
                self.gamma == g0,
                self.theta == t0,
                ep == 0 ==> self.value@ == v0 && self.policy@ == p0,
                rewards@.len() == ep,
                ep <= max_episodes,
                forall|i: int|
                    0 <= i < rewards@.len() ==> -TRAIN_TOTAL_BOUND <= #[trigger] rewards@[i]
                        <= TRAIN_TOTAL_BOUND,
            decreases max_episodes - ep,
        {
            let tp = env.transition_probabilities();
            let rw = env.reward_function();
            self.policy_iteration(&tp, &rw);
            let total = run_policy(env, self.policy.as_slice());
            rewards.push(total);
            ep = ep + 1;
        }
        rewards
    }

    /// The stored policy's action when it is among the available ones, else
    /// the first available action.
    fn get_best_action(&self, state: usize, available_actions: &[usize]) -> (a: usize) {
        let chosen = self.policy[state];
        if contains_action(available_actions, chosen) {
            chosen
        } else {
            available_actions[0]
        }
    }
}

} // verus!
