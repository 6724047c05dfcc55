//! The environment contract: a discrete simulator with integer state and
//! action identifiers, a bounded fixed-point score, and optional model
//! operations for the planning algorithms.

use vstd::prelude::*;
use crate::fixed::{sum_prefix, lemma_sum_prefix_bound, SCALE, SCORE_BOUND};

verus! {

/// Step bound for a policy rollout, guarding against non-terminating
/// environments.
pub const POLICY_RUN_CAP: usize = 1000;

/// Largest magnitude a rollout total may take: `POLICY_RUN_CAP` steps, each
/// with a reward of magnitude at most two scores.
pub const RUN_TOTAL_BOUND: i64 = 2_000_000_000_000;

/// A well-formed transition model: for every state and action, a row of
/// nonnegative probabilities over next states that sums to at most one.
/// Terminal states may carry all-zero rows.
pub open spec fn prob_matrix_wf(p: Seq<Vec<Vec<i64>>>, ns: int, na: int) -> bool {
    &&& p.len() == ns
    &&& forall|s: int| 0 <= s < ns ==> (#[trigger] p[s])@.len() == na
    &&& forall|s: int, a: int|
        0 <= s < ns && 0 <= a < na ==> (#[trigger] p[s]@[a])@.len() == ns
    &&& forall|s: int, a: int, t: int|
        0 <= s < ns && 0 <= a < na && 0 <= t < ns ==> 0 <= #[trigger] p[s]@[a]@[t] <= SCALE
    &&& forall|s: int, a: int|
        0 <= s < ns && 0 <= a < na ==> sum_prefix((#[trigger] p[s]@[a])@, ns) <= SCALE
}

/// A well-formed reward model: one bounded score per state and action.
pub open spec fn reward_matrix_wf(rw: Seq<Vec<i64>>, ns: int, na: int) -> bool {
    &&& rw.len() == ns
    &&& forall|s: int| 0 <= s < ns ==> (#[trigger] rw[s])@.len() == na
    &&& forall|s: int, a: int|
        0 <= s < ns && 0 <= a < na ==> -SCORE_BOUND <= #[trigger] rw[s]@[a] <= SCORE_BOUND
}

/// Whether an action list contains the given action.
pub fn contains_action(aa: &[usize], a: usize) -> (b: bool)
    ensures
        b == aa@.contains(a),
{
    let mut i: usize = 0;
    while i < aa.len()
        invariant
            i <= aa@.len(),
            forall|j: int| 0 <= j < i ==> aa@[j] != a,
        decreases aa@.len() - i,
    {
        if aa[i] == a {
            return true;
        }
        i = i + 1;
    }
    false
}

/// A discrete environment. States are identifiers in `[0, states())`, actions
/// identifiers in `[0, actions())`; not every action is legal in every state.
/// The score is a bounded fixed-point signal; algorithms read rewards as
/// score deltas across a step. Stepping requires a legal action in a
/// non-terminal state: illegal steps are precondition violations, so verified
/// callers never make them.
pub trait Environment: Sized {
    /// Internal well-formedness of the simulator state.
    spec fn inv(&self) -> bool;

    /// Number of states.
    spec fn states(&self) -> int;

    /// Number of actions.
    spec fn actions(&self) -> int;

    /// Whether the episode has ended.
    spec fn over(&self) -> bool;

    /// Whether an action is legal in the current state.
    spec fn action_ok(&self, a: int) -> bool;

    fn new() -> (e: Self)
        ensures
            e.inv();

    fn num_states(&self) -> (n: usize)
        requires
            self.inv(),
        ensures
            n as int == self.states(),
            1 <= n;

    fn num_actions(&self) -> (n: usize)
        requires
            self.inv(),
        ensures
            n as int == self.actions(),
            1 <= n;

    fn state_id(&self) -> (s: usize)
        requires
            self.inv(),
        ensures
            (s as int) < self.states(),
    ;

    fn reset(&mut self)
        requires
            old(self).inv(),
        ensures
            final(self).inv(),
            final(self).states() == old(self).states(),
            final(self).actions() == old(self).actions(),
    ;

    fn is_game_over(&self) -> (b: bool)
        requires
            self.inv(),
        ensures
            b == self.over(),
    ;

    /// The legal actions of the current state, without duplicates; the list
    /// is empty exactly when the episode has ended.
    fn available_actions(&self) -> (aa: Vec<usize>)
        requires
            self.inv(),
        ensures
            forall|i: int|
                0 <= i < aa@.len() ==> ((#[trigger] aa@[i]) as int) < self.actions()
                    && self.action_ok(aa@[i] as int),
            (aa@.len() == 0) == self.over(),
            aa@.len() <= self.actions(),
            forall|i: int, j: int| 0 <= i < j < aa@.len() ==> aa@[i] != aa@[j],
    ;

    fn score(&self) -> (sc: i64)
        requires
            self.inv(),
        ensures
            -SCORE_BOUND <= sc <= SCORE_BOUND,
    ;

    fn step(&mut self, action: usize)
        requires
            old(self).inv(),
            !old(self).over(),
            old(self).action_ok(action as int),
        ensures
            final(self).inv(),
            final(self).states() == old(self).states(),
            final(self).actions() == old(self).actions(),
    ;

    /// The transition model, for the planning algorithms. Environments
    /// without a usable model return the all-zero matrix.
    fn transition_probabilities(&self) -> (p: Vec<Vec<Vec<i64>>>)
        requires
            self.inv(),
        ensures
            prob_matrix_wf(p@, self.states(), self.actions()),
    ;

    /// The reward model, for the planning algorithms. Environments without a
    /// usable model return the all-zero matrix.
    fn reward_function(&self) -> (rw: Vec<Vec<i64>>)
        requires
            self.inv(),
        ensures
            reward_matrix_wf(rw@, self.states(), self.actions()),
    ;

}

/// Runs a deterministic policy from a fresh reset, accumulating score deltas,
/// until the episode ends, the policy proposes an unavailable action, or the
/// step bound is reached.
pub fn run_policy<E: Environment>(env: &mut E, policy: &[usize]) -> (total: i64)
    requires
        old(env).inv(),
        policy@.len() >= old(env).states(),
        forall|i: int|
            0 <= i < policy@.len() ==> ((#[trigger] policy@[i]) as int) < old(env).actions(),
    ensures
        final(env).inv(),
        final(env).states() == old(env).states(),
        final(env).actions() == old(env).actions(),
        -RUN_TOTAL_BOUND <= total <= RUN_TOTAL_BOUND,
{
    env.reset();
    let ghost ns = env.states();
    let ghost na = env.actions();
    let mut total: i64 = 0;
    let mut steps: usize = 0;
    let mut done = false;
    while steps < POLICY_RUN_CAP && !done
        invariant
            env.inv(),
            env.states() == ns,
            env.actions() == na,
            policy@.len() >= ns,
            forall|i: int| 0 <= i < policy@.len() ==> ((#[trigger] policy@[i]) as int) < na,
            steps <= POLICY_RUN_CAP,
            -2_000_000_000 * (steps as int) <= total <= 2_000_000_000 * (steps as int),
        decreases POLICY_RUN_CAP - steps,
    {
        if env.is_game_over() {
            done = true;
        } else {
            let aa = env.available_actions();
            let s = env.state_id();
            let a = policy[s];
            if !contains_action(aa.as_slice(), a) {
                done = true;
            } else {
                let before = env.score();
                env.step(a);
                let after = env.score();
                total = total + (after - before);
            }
        }
        steps = steps + 1;
    }
    total
}

/// The all-zero transition model, for environments without a usable model.
pub fn zero_prob_matrix(ns: usize, na: usize) -> (p: Vec<Vec<Vec<i64>>>)
    ensures
        prob_matrix_wf(p@, ns as int, na as int),
{
    let mut p: Vec<Vec<Vec<i64>>> = Vec::new();
    let mut s: usize = 0;
    while s < ns
        invariant
            s <= ns,
            p@.len() == s,
            forall|t: int| 0 <= t < s ==> (#[trigger] p@[t])@.len() == na,
            forall|t: int, a: int|
                0 <= t < s && 0 <= a < na ==> (#[trigger] p@[t]@[a])@.len() == ns,
            forall|t: int, a: int, u: int|
                0 <= t < s && 0 <= a < na && 0 <= u < ns ==> #[trigger] p@[t]@[a]@[u] == 0,
            forall|t: int, a: int|
                0 <= t < s && 0 <= a < na ==> sum_prefix((#[trigger] p@[t]@[a])@, ns as int) == 0,
        decreases ns - s,
    {
        let mut row: Vec<Vec<i64>> = Vec::new();
        let mut a: usize = 0;
        while a < na
            invariant
                a <= na,
                row@.len() == a,
                forall|b: int| 0 <= b < a ==> (#[trigger] row@[b])@.len() == ns,
                forall|b: int, u: int|
                    0 <= b < a && 0 <= u < ns ==> #[trigger] row@[b]@[u] == 0,
                forall|b: int|
                    0 <= b < a ==> sum_prefix((#[trigger] row@[b])@, ns as int) == 0,
            decreases na - a,
        {
            let inner = crate::qtable::filled_row(ns, 0);
            proof {
                lemma_sum_prefix_bound(inner@, ns as int, 0);
            }
            row.push(inner);
            a = a + 1;
        }
        p.push(row);
        s = s + 1;
    }
    p
}

/// The all-zero reward model, for environments without a usable model.
pub fn zero_reward_matrix(ns: usize, na: usize) -> (rw: Vec<Vec<i64>>)
    ensures
        reward_matrix_wf(rw@, ns as int, na as int),
        forall|s: int, a: int| 0 <= s < ns && 0 <= a < na ==> #[trigger] rw@[s]@[a] == 0,
{
    let mut rw: Vec<Vec<i64>> = Vec::new();
    let mut s: usize = 0;
    while s < ns
        invariant
            s <= ns,
            rw@.len() == s,
            forall|t: int| 0 <= t < s ==> (#[trigger] rw@[t])@.len() == na,
            forall|t: int, a: int| 0 <= t < s && 0 <= a < na ==> #[trigger] rw@[t]@[a] == 0,
        decreases ns - s,
    {
        rw.push(crate::qtable::filled_row(na, 0));
        s = s + 1;
    }
    rw
}

} // verus!
