//! On-policy first-visit Monte-Carlo control. Episodes are generated under
//! the current epsilon-soft policy; each episode's discounted rewards are
//! computed backward, and at the first visit of every state-action pair the
//! return is recorded and the estimate reset to the truncating arithmetic
//! mean of everything recorded for that pair so far.

use vstd::prelude::*;
use crate::algorithm::{RLAlgorithm, EPISODE_STEP_CAP, TRAIN_TOTAL_BOUND};
use crate::env::Environment;
use crate::fixed::{
    fx_mul, lemma_sum_prefix_bound, lemma_sum_prefix_push, lemma_td_target_bounded,
    lemma_tdiv_le, return_to_go, sum_prefix, tdiv, tdiv_i128, REWARD_BOUND, SCALE, VALUE_BOUND,
};
use crate::qtable::{
    all_actions, epsilon_greedy, filled_row, greedy_action, greedy_spec, grid_wf, idents,
    zero_grid,
};
use crate::rng::Prng;

verus! {

/// The truncating arithmetic mean of a non-empty sequence.
pub open spec fn mean_of(s: Seq<i64>) -> int {
    tdiv(sum_prefix(s, s.len() as int), s.len() as int)
}

/// The condition under which recorded first-visit histories are accepted on
/// loading: at least one state and one action, rectangular rows, rates in
/// range, and every recorded return within the representable bound.
pub open spec fn mc_parts_valid(history: Seq<Vec<Vec<i64>>>, epsilon: int, gamma: int) -> bool {
    &&& history.len() >= 1
    &&& history[0]@.len() >= 1
    &&& 0 <= epsilon <= SCALE
    &&& 0 <= gamma < SCALE
    &&& forall|s: int|
        0 <= s < history.len() ==> (#[trigger] history[s])@.len() == history[0]@.len()
    &&& forall|s: int, a: int|
        0 <= s < history.len() && 0 <= a < history[0]@.len() ==> forall|k: int|
            0 <= k < (#[trigger] history[s]@[a])@.len() ==> -VALUE_BOUND
                <= #[trigger] history[s]@[a]@[k] <= VALUE_BOUND
}

/// Whether step `t` is the first visit of the pair `(s, a)` in a trace.
pub open spec fn is_first_visit(
    states: Seq<usize>,
    acts: Seq<usize>,
    s: int,
    a: int,
    t: int,
) -> bool {
    &&& 0 <= t < states.len()
    &&& states[t] == s && acts[t] == a
    &&& forall|k: int| 0 <= k < t ==> !(states[k] == s && acts[k] == a)
}

pub struct MonteCarloControl {
    num_states: usize,
    num_actions: usize,
    epsilon: i64,
    gamma: i64,
    q_values: Vec<Vec<i64>>,
    history: Vec<Vec<Vec<i64>>>,
    policy: Vec<Vec<i64>>,
}

impl MonteCarloControl {
    /// The estimate for a state-action pair.
    pub closed spec fn q_at(&self, s: int, a: int) -> int {
        self.q_values@[s]@[a] as int
    }

    /// The first-visit discounted rewards recorded so far for a state-action pair.
    pub closed spec fn returns_at(&self, s: int, a: int) -> Seq<i64> {
        self.history@[s]@[a]@
    }

    /// The materialized epsilon-soft policy probability of an action.
    pub closed spec fn policy_at(&self, s: int, a: int) -> int {
        self.policy@[s]@[a] as int
    }

    /// Exploration probability, in `[0, 1]`.
    pub closed spec fn epsilon_spec(&self) -> int {
        self.epsilon as int
    }

    /// Discount, in `[0, 1)`.
    pub closed spec fn gamma_spec(&self) -> int {
        self.gamma as int
    }

    /// A learner with zero estimates, nothing recorded, and the uniform
    /// policy. The discount must lie strictly below one: that keeps every
    /// estimate within the representable value bound.
    pub fn new(num_states: usize, num_actions: usize, epsilon: i64, gamma: i64) -> (r:
        MonteCarloControl)
        requires
            num_states >= 1,
            num_actions >= 1,
            0 <= epsilon <= SCALE,
            0 <= gamma < SCALE,
        ensures
            r.wf(),
            r.fits(num_states as int, num_actions as int),
            r.n_states() == num_states,
            r.n_actions() == num_actions,
            r.epsilon_spec() == epsilon,
            r.gamma_spec() == gamma,
            forall|s: int, a: int|
                0 <= s < num_states && 0 <= a < num_actions ==> #[trigger] r.q_at(s, a) == 0
                    && r.returns_at(s, a).len() == 0,
    {
        let mut history: Vec<Vec<Vec<i64>>> = Vec::new();
        let mut s: usize = 0;
        while s < num_states
            invariant
                s <= num_states,
                history@.len() == s,
                forall|u: int| 0 <= u < s ==> (#[trigger] history@[u])@.len() == num_actions,
                forall|u: int, a: int|
                    0 <= u < s && 0 <= a < num_actions ==> (#[trigger] history@[u]@[a])@.len()
                        == 0,
            decreases num_states - s,
        {
            let mut row: Vec<Vec<i64>> = Vec::new();
            let mut a: usize = 0;
            while a < num_actions
                invariant
                    a <= num_actions,
                    row@.len() == a,
                    forall|b: int| 0 <= b < a ==> (#[trigger] row@[b])@.len() == 0,
                decreases num_actions - a,
            {
                row.push(Vec::new());
                a = a + 1;
            }
            history.push(row);
            s = s + 1;
        }
        let uniform = tdiv_rate(SCALE, num_actions);
        let mut policy: Vec<Vec<i64>> = Vec::new();
        let mut s2: usize = 0;
        while s2 < num_states
            invariant
                s2 <= num_states,
                policy@.len() == s2,
                0 <= uniform <= SCALE,
                forall|u: int| 0 <= u < s2 ==> (#[trigger] policy@[u])@.len() == num_actions,
                forall|u: int, a: int|
                    0 <= u < s2 && 0 <= a < num_actions ==> 0 <= #[trigger] policy@[u]@[a]
                        <= SCALE,
            decreases num_states - s2,
        {
            policy.push(filled_row(num_actions, uniform));
            s2 = s2 + 1;
        }
        MonteCarloControl {
            num_states,
            num_actions,
            epsilon,
            gamma,
            q_values: zero_grid(num_states, num_actions),
            history,
            policy,
        }
    }

    /// The current estimates, one row per state.
    pub fn get_q_values(&self) -> (r: &Vec<Vec<i64>>)
        requires
            self.wf(),
        ensures
            r@.len() == self.n_states(),
            forall|s: int, a: int|
                0 <= s < r@.len() && 0 <= a < r@[s]@.len() ==> (#[trigger] r@[s]@[a]) as int
                    == self.q_at(s, a),
    {
        &self.q_values
    }

    /// One state's row of estimates.
    pub closed spec fn q_row(&self, s: int) -> Seq<i64> {
        self.q_values@[s]@
    }

    /// What `get_best_action` picks, in public terms: the greedy action over
    /// the listed ones, under this state's row of estimates.
    pub proof fn lemma_best_action_characterization(&self, state: int, avail: Seq<usize>)
        requires
            self.wf(),
            0 <= state < self.n_states(),
        ensures
            self.best_spec(state, avail) == greedy_spec(self.q_row(state), avail),
            self.q_row(state).len() == self.n_actions(),
            forall|a: int| 0 <= a < self.n_actions() ==> #[trigger] self.q_row(state)[a] as int
                == self.q_at(state, a),
    {
    }

    /// Epsilon-soft selection among the listed actions: a uniformly random
    /// one with probability epsilon, else the greedy one; always listed.
    pub fn select_action(&self, rng: &mut Prng, state: usize, avail: &[usize]) -> (a: usize)
        requires
            self.wf(),
            (state as int) < self.n_states(),
            1 <= avail@.len(),
            forall|i: int|
                0 <= i < avail@.len() ==> ((#[trigger] avail@[i]) as int) < self.n_actions(),
        ensures
            avail@.contains(a),
    {
        epsilon_greedy(rng, self.epsilon, &self.q_values[state], avail)
    }

    /// Processes one completed episode: computes the discounted returns to
    /// go backward, then, at the first visit of each state-action pair,
    /// records the return, resets the estimate to the running mean, and
    /// rebuilds that state's epsilon-soft distribution.
    pub fn process_episode(
        &mut self,
        states: &Vec<usize>,
        acts: &Vec<usize>,
        rews: &Vec<i64>,
    )
        requires
            old(self).wf(),
            states@.len() == rews@.len(),
            acts@.len() == rews@.len(),
            forall|t: int|
                0 <= t < states@.len() ==> ((#[trigger] states@[t]) as int) < old(
                    self,
                ).n_states(),
            forall|t: int|
                0 <= t < acts@.len() ==> ((#[trigger] acts@[t]) as int) < old(self).n_actions(),
            forall|t: int|
                0 <= t < rews@.len() ==> -REWARD_BOUND <= #[trigger] rews@[t] <= REWARD_BOUND,
        ensures
            final(self).wf(),
            final(self).n_states() == old(self).n_states(),
            final(self).n_actions() == old(self).n_actions(),
            final(self).epsilon_spec() == old(self).epsilon_spec(),
            final(self).gamma_spec() == old(self).gamma_spec(),
            forall|s: int, a: int, t: int|
                0 <= s < old(self).n_states() && 0 <= a < old(self).n_actions()
                    && #[trigger] is_first_visit(states@, acts@, s, a, t)
                    ==> final(self).returns_at(s, a) == old(self).returns_at(s, a).push(
                    (return_to_go(rews@, old(self).gamma_spec(), t)) as i64,
                ),
            forall|s: int, a: int|
                0 <= s < old(self).n_states() && 0 <= a < old(self).n_actions() && (forall|k: int|
                    0 <= k < states@.len() ==> !(states@[k] == s && #[trigger] acts@[k] == a))
                    ==> #[trigger] final(self).returns_at(s, a) == old(self).returns_at(s, a),
    {
        let ns = self.num_states;
        let na = self.num_actions;
        let n = rews.len();
        let ghost g0 = self.gamma as int;
        let mut togo: Vec<i64> = filled_row(n, 0);
        let mut t: usize = n;
        let mut g: i64 = 0;
        while t > 0
            invariant
                n == rews@.len(),
                togo@.len() == n,
                t <= n,
                -VALUE_BOUND <= g <= VALUE_BOUND,
                0 <= self.gamma < SCALE,
                g0 == self.gamma as int,
                g as int == return_to_go(rews@, g0, t as int),
                forall|k: int| 0 <= k < n ==> -REWARD_BOUND <= #[trigger] rews@[k] <= REWARD_BOUND,
                forall|k: int|
                    t <= k < n ==> (#[trigger] togo@[k]) as int == return_to_go(rews@, g0, k),
                forall|k: int| t <= k < n ==> -VALUE_BOUND <= #[trigger] togo@[k] <= VALUE_BOUND,
            decreases t,
        {
            t = t - 1;
            proof {
                lemma_td_target_bounded(rews@[t as int] as int, self.gamma as int, g as int);
            }
            g = rews[t] + fx_mul(self.gamma, g);
            togo[t] = g;
        }
        let mut visited: Vec<Vec<bool>> = Vec::new();
        let mut vs: usize = 0;
        while vs < ns
            invariant
                vs <= ns,
                visited@.len() == vs,
                forall|u: int| 0 <= u < vs ==> (#[trigger] visited@[u])@.len() == na,
                forall|u: int, a2: int|
                    0 <= u < vs && 0 <= a2 < na ==> !(#[trigger] visited@[u]@[a2]),
            decreases ns - vs,
        {
            let mut vrow: Vec<bool> = Vec::new();
            let mut va: usize = 0;
            while va < na
                invariant
                    va <= na,
                    vrow@.len() == va,
                    forall|b: int| 0 <= b < va ==> !(#[trigger] vrow@[b]),
                decreases na - va,
            {
                vrow.push(false);
                va = va + 1;
            }
            visited.push(vrow);
            vs = vs + 1;
        }
        let ghost h0 = self.history@;
        let mut u: usize = 0;
        while u < n
            invariant
                self.wf(),
                ns as int == self.n_states(),
                na as int == self.n_actions(),
                self.epsilon == old(self).epsilon,
                self.gamma == old(self).gamma,
                g0 == self.gamma as int,
                h0.len() == ns,
                forall|s2: int| 0 <= s2 < ns ==> (#[trigger] h0[s2])@.len() == na,
                u <= n,
                n == states@.len(),
                n == acts@.len(),
                n == rews@.len(),
                n == togo@.len(),
                visited@.len() == ns,
                forall|k: int| 0 <= k < ns ==> (#[trigger] visited@[k])@.len() == na,
                forall|k: int| 0 <= k < n ==> ((#[trigger] states@[k]) as int) < ns,
                forall|k: int| 0 <= k < n ==> ((#[trigger] acts@[k]) as int) < na,
                forall|k: int|
                    0 <= k < n ==> (#[trigger] togo@[k]) as int == return_to_go(rews@, g0, k),
                forall|k: int| 0 <= k < n ==> -VALUE_BOUND <= #[trigger] togo@[k] <= VALUE_BOUND,
                forall|s2: int, a2: int|
                    0 <= s2 < ns && 0 <= a2 < na ==> ((#[trigger] visited@[s2]@[a2]) <==> exists|
                        k: int,
                    |
                        0 <= k < u && states@[k] == s2 && acts@[k] == a2),
                forall|s2: int, a2: int, t2: int|
                    0 <= s2 < ns && 0 <= a2 < na && #[trigger] is_first_visit(
                        states@,
                        acts@,
                        s2,
                        a2,
                        t2,
                    ) && t2 < u ==> self.history@[s2]@[a2]@ == h0[s2]@[a2]@.push(
                        (return_to_go(rews@, g0, t2)) as i64,
                    ),
                forall|s2: int, a2: int|
                    0 <= s2 < ns && 0 <= a2 < na && (forall|k: int|
                        0 <= k < u ==> !(states@[k] == s2 && acts@[k] == a2))
                        ==> #[trigger] self.history@[s2]@[a2]@ == h0[s2]@[a2]@,
            decreases n - u,
        {
            let s = states[u];
            let a = acts[u];
            if !visited[s][a] {
                let ghost hb = self.history@;
                visited[s][a] = true;
                self.record_return(s, a, togo[u]);
                self.update_policy(s);
                proof {
                    assert(is_first_visit(states@, acts@, s as int, a as int, u as int));
                    assert(hb[s as int]@[a as int]@ == h0[s as int]@[a as int]@);
                    assert(self.history@[s as int]@[a as int]@ == hb[s as int]@[a as int]@.push(
                        togo@[u as int],
                    ));
                    assert forall|s2: int, a2: int, t2: int|
                        0 <= s2 < ns && 0 <= a2 < na && #[trigger] is_first_visit(
                            states@,
                            acts@,
                            s2,
                            a2,
                            t2,
                        ) && t2 < u + 1 implies self.history@[s2]@[a2]@ == h0[s2]@[a2]@.push(
                        (return_to_go(rews@, g0, t2)) as i64,
                    ) by {
                        if s2 == s as int && a2 == a as int {
                            assert(t2 == u as int);
                        } else {
                            assert((s2, a2) != (s as int, a as int));
                            assert(self.returns_at(s2, a2) == hb[s2]@[a2]@);
                        }
                    }
                    assert forall|s2: int, a2: int|
                        0 <= s2 < ns && 0 <= a2 < na && (forall|k: int|
                            0 <= k < u + 1 ==> !(states@[k] == s2 && acts@[k] == a2))
                        implies #[trigger] self.history@[s2]@[a2]@ == h0[s2]@[a2]@ by {
                        assert(!(states@[u as int] == s2 && acts@[u as int] == a2));
                        assert((s2, a2) != (s as int, a as int));
                        assert(self.returns_at(s2, a2) == hb[s2]@[a2]@);
                    }
                }
            } else {
                proof {
                    assert forall|s2: int, a2: int, t2: int|
                        0 <= s2 < ns && 0 <= a2 < na && #[trigger] is_first_visit(
                            states@,
                            acts@,
                            s2,
                            a2,
                            t2,
                        ) && t2 < u + 1 implies self.history@[s2]@[a2]@ == h0[s2]@[a2]@.push(
                        (return_to_go(rews@, g0, t2)) as i64,
                    ) by {
                        if t2 == u as int {
                            assert(s2 == s as int && a2 == a as int);
                            assert(visited@[s as int]@[a as int]);
                            assert(false);
                        }
                    }
                }
            }
            u = u + 1;
        }
    }

    /// The first-visit discounted rewards recorded so far for one pair.
    pub fn recorded_returns(&self, state: usize, action: usize) -> (r: &Vec<i64>)
        requires
            self.wf(),
            (state as int) < self.n_states(),
            (action as int) < self.n_actions(),
        ensures
            r@ == self.returns_at(state as int, action as int),
    {
        &self.history[state][action]
    }

    /// Rebuilds a learner from its recorded first-visit returns, accepting
    /// exactly the valid parts: a non-empty rectangular record with bounded
    /// entries and rates in range. Estimates and the epsilon-soft
    /// distributions are recomputed from the record, so the rebuilt learner's
    /// estimates are again the running means.
    pub fn from_parts(history: Vec<Vec<Vec<i64>>>, epsilon: i64, gamma: i64) -> (r: Option<
        MonteCarloControl,
    >)
        ensures
            r is Some <==> mc_parts_valid(history@, epsilon as int, gamma as int),
            r is Some ==> r.unwrap().wf(),
            r is Some ==> r.unwrap().epsilon_spec() == epsilon && r.unwrap().gamma_spec() == gamma,
            r is Some ==> r.unwrap().n_states() == history@.len(),
            r is Some ==> r.unwrap().n_actions() == history@[0]@.len(),
            r is Some ==> forall|s: int, a: int|
                0 <= s < history@.len() && 0 <= a < history@[0]@.len()
                    ==> #[trigger] r.unwrap().returns_at(s, a) == history@[s]@[a]@,
            r is Some ==> forall|s: int, a: int|
                0 <= s < history@.len() && 0 <= a < history@[0]@.len() ==> #[trigger] r.unwrap().q_at(
                    s,
                    a,
                ) == (if history@[s]@[a]@.len() == 0 {
                    0int
                } else {
                    mean_of(history@[s]@[a]@)
                }),
    {
        if history.len() == 0 {
            return None;
        }
        if history[0].len() == 0 {
            return None;
        }
        if !(0 <= epsilon && epsilon <= SCALE) {
            return None;
        }
        if !(0 <= gamma && gamma < SCALE) {
            return None;
        }
        let ns = history.len();
        let na = history[0].len();
        let mut mc = MonteCarloControl::new(ns, na, epsilon, gamma);
        proof {
            assert forall|s2: int, a2: int| 0 <= s2 < ns && 0 <= a2 < na implies #[trigger] mc
                .returns_at(s2, a2) == Seq::<i64>::empty() by {
                assert(mc.q_at(s2, a2) == 0);
                assert(mc.returns_at(s2, a2) =~= Seq::<i64>::empty());
            }
        }
        let mut s: usize = 0;
        while s < ns
            invariant
                mc.wf(),
                mc.n_states() == ns,
                mc.n_actions() == na,
                mc.epsilon_spec() == epsilon,
                mc.gamma_spec() == gamma,
                s <= ns,
                ns == history@.len(),
                na == history@[0]@.len(),
                0 <= epsilon <= SCALE,
                0 <= gamma < SCALE,
                forall|s2: int| 0 <= s2 < s ==> (#[trigger] history@[s2])@.len() == na,
                forall|s2: int, a2: int|
                    0 <= s2 < s && 0 <= a2 < na ==> forall|k2: int|
                        0 <= k2 < (#[trigger] history@[s2]@[a2])@.len() ==> -VALUE_BOUND
                            <= #[trigger] history@[s2]@[a2]@[k2] <= VALUE_BOUND,
                forall|s2: int, a2: int|
                    0 <= s2 < ns && 0 <= a2 < na ==> #[trigger] mc.returns_at(s2, a2) == (if s2
                        < s {
                        history@[s2]@[a2]@
                    } else {
                        Seq::<i64>::empty()
                    }),
            decreases ns - s,
        {
            if history[s].len() != na {
                return None;
            }
            let mut a: usize = 0;
            while a < na
                invariant
                    mc.wf(),
                    mc.n_states() == ns,
                    mc.n_actions() == na,
                    mc.epsilon_spec() == epsilon,
                    mc.gamma_spec() == gamma,
                    s < ns,
                    a <= na,
                    ns == history@.len(),
                    na == history@[0]@.len(),
                    history@[s as int]@.len() == na,
                    forall|s2: int| 0 <= s2 < s ==> (#[trigger] history@[s2])@.len() == na,
                    forall|s2: int, a2: int|
                        0 <= s2 < s && 0 <= a2 < na ==> forall|k2: int|
                            0 <= k2 < (#[trigger] history@[s2]@[a2])@.len() ==> -VALUE_BOUND
                                <= #[trigger] history@[s2]@[a2]@[k2] <= VALUE_BOUND,
                    forall|a2: int|
                        0 <= a2 < a ==> forall|k2: int|
                            0 <= k2 < (#[trigger] history@[s as int]@[a2])@.len() ==> -VALUE_BOUND
                                <= #[trigger] history@[s as int]@[a2]@[k2] <= VALUE_BOUND,
                    forall|s2: int, a2: int|
                        0 <= s2 < ns && 0 <= a2 < na ==> #[trigger] mc.returns_at(s2, a2) == (if s2
                            < s || (s2 == s && a2 < a) {
                            history@[s2]@[a2]@
                        } else {
                            Seq::<i64>::empty()
                        }),
                decreases na - a,
            {
                let m = history[s][a].len();
                proof {
                    assert(mc.returns_at(s as int, a as int) =~= history@[s as int]@[
                        a as int
                    ]@.subrange(0, 0));
                }
                let mut k: usize = 0;
                while k < m
                    invariant
                        mc.wf(),
                        mc.n_states() == ns,
                        mc.n_actions() == na,
                        mc.epsilon_spec() == epsilon,
                        mc.gamma_spec() == gamma,
                        s < ns,
                        a < na,
                        k <= m,
                        ns == history@.len(),
                        na == history@[0]@.len(),
                        history@[s as int]@.len() == na,
                        m == history@[s as int]@[a as int]@.len(),
                        forall|s2: int| 0 <= s2 < s ==> (#[trigger] history@[s2])@.len() == na,
                        forall|s2: int, a2: int|
                            0 <= s2 < s && 0 <= a2 < na ==> forall|k2: int|
                                0 <= k2 < (#[trigger] history@[s2]@[a2])@.len() ==> -VALUE_BOUND
                                    <= #[trigger] history@[s2]@[a2]@[k2] <= VALUE_BOUND,
                        forall|a2: int|
                            0 <= a2 < a ==> forall|k2: int|
                                0 <= k2 < (#[trigger] history@[s as int]@[a2])@.len()
                                    ==> -VALUE_BOUND <= #[trigger] history@[s as int]@[a2]@[k2]
                                    <= VALUE_BOUND,
                        forall|k2: int|
                            0 <= k2 < k ==> -VALUE_BOUND
                                <= #[trigger] history@[s as int]@[a as int]@[k2] <= VALUE_BOUND,
                        mc.returns_at(s as int, a as int) == history@[s as int]@[
                            a as int
                        ]@.subrange(0, k as int),
                        forall|s2: int, a2: int|
                            0 <= s2 < ns && 0 <= a2 < na && (s2, a2) != (s as int, a as int)
                                ==> #[trigger] mc.returns_at(s2, a2) == (if s2 < s || (s2 == s
                                && a2 < a) {
                                history@[s2]@[a2]@
                            } else {
                                Seq::<i64>::empty()
                            }),
                    decreases m - k,
                {
                    let g = history[s][a][k];
                    if g < -VALUE_BOUND || g > VALUE_BOUND {
                        return None;
                    }
                    mc.record_return(s, a, g);
                    proof {
                        assert(mc.returns_at(s as int, a as int) =~= history@[s as int]@[
                            a as int
                        ]@.subrange(0, k + 1));
                    }
                    k = k + 1;
                }
                proof {
                    assert(mc.returns_at(s as int, a as int) =~= history@[s as int]@[a as int]@);
                }
                let ghost hq = mc.history@;
                proof {
                    assert forall|s2: int, a2: int| 0 <= s2 < ns && 0 <= a2 < na implies #[trigger]
                    hq[s2]@[a2]@ == (if s2 < s || (s2 == s && a2 < a + 1) {
                        history@[s2]@[a2]@
                    } else {
                        Seq::<i64>::empty()
                    }) by {
                        assert(mc.returns_at(s2, a2) == hq[s2]@[a2]@);
                    }
                }
                mc.update_policy(s);
                proof {
                    assert(mc.history@ == hq);
                    assert forall|s2: int, a2: int| 0 <= s2 < ns && 0 <= a2 < na implies #[trigger]
                    mc.returns_at(s2, a2) == (if s2 < s || (s2 == s && a2 < a + 1) {
                        history@[s2]@[a2]@
                    } else {
                        Seq::<i64>::empty()
                    }) by {
                        assert(mc.returns_at(s2, a2) == hq[s2]@[a2]@);
                    }
                }
                a = a + 1;
            }
            s = s + 1;
        }
        proof {
            assert forall|s2: int, a2: int| 0 <= s2 < ns && 0 <= a2 < na implies #[trigger] mc.q_at(
                s2,
                a2,
            ) == (if history@[s2]@[a2]@.len() == 0 {
                0int
            } else {
                mean_of(history@[s2]@[a2]@)
            }) by {
                assert(mc.returns_at(s2, a2) == history@[s2]@[a2]@);
                assert((mc.q_values@[s2]@[a2]) as int == (if mc.history@[s2]@[a2]@.len() == 0 {
                    0int
                } else {
                    mean_of(mc.history@[s2]@[a2]@)
                }));
            }
        }
        Some(mc)
    }

    /// The greedy action for every state, over all actions.
    pub fn get_policy(&self) -> (p: Vec<usize>)
        requires
            self.wf(),
        ensures
            p@.len() == self.n_states(),
            forall|s: int| 0 <= s < p@.len() ==> ((#[trigger] p@[s]) as int) < self.n_actions(),
    {
        let every = all_actions(self.num_actions);
        let mut p: Vec<usize> = Vec::new();
        let mut s: usize = 0;
        while s < self.num_states
            invariant
                self.wf(),
                s <= self.num_states,
                p@.len() == s,
                every@.len() == self.num_actions,
                forall|i: int| 0 <= i < every@.len() ==> (#[trigger] every@[i]) == i,
                self.num_states as int == self.n_states(),
                self.num_actions as int == self.n_actions(),
                forall|u: int| 0 <= u < s ==> ((#[trigger] p@[u]) as int) < self.n_actions(),
            decreases self.num_states - s,
        {
            p.push(greedy_action(&self.q_values[s], every.as_slice()));
            s = s + 1;
        }
        p
    }

    /// Records a first-visit return for the pair and resets the pair's
    /// estimate to the truncating mean of everything recorded for it. No other
    /// pair changes.
    fn record_return(&mut self, s: usize, a: usize, g: i64)
        requires
            old(self).wf(),
            (s as int) < old(self).n_states(),
            (a as int) < old(self).n_actions(),
            -VALUE_BOUND <= g <= VALUE_BOUND,
        ensures
            final(self).wf(),
            final(self).n_states() == old(self).n_states(),
            final(self).n_actions() == old(self).n_actions(),
            final(self).epsilon == old(self).epsilon,
            final(self).gamma == old(self).gamma,
            final(self).policy@ == old(self).policy@,
            final(self).returns_at(s as int, a as int) == old(self).returns_at(
                s as int,
                a as int,
            ).push(g),
            final(self).q_at(s as int, a as int) == mean_of(
                final(self).returns_at(s as int, a as int),
            ),
            forall|s2: int, a2: int|
                0 <= s2 < old(self).n_states() && 0 <= a2 < old(self).n_actions() && (s2, a2) != (
                s as int,
                a as int,
                ) ==> final(self).q_at(s2, a2) == old(self).q_at(s2, a2) && final(self).returns_at(
                    s2,
                    a2,
                ) == old(self).returns_at(s2, a2),
            forall|s2: int, a2: int|
                0 <= s2 < old(self).n_states() && 0 <= a2 < old(self).n_actions() && (s2, a2) != (
                s as int,
                a as int,
                ) ==> #[trigger] final(self).history@[s2]@[a2]@ == old(self).history@[s2]@[a2]@,
    {
        proof {
            lemma_sum_prefix_push(self.history@[s as int]@[a as int]@, g);
            lemma_sum_prefix_bound(
                self.history@[s as int]@[a as int]@.push(g),
                self.history@[s as int]@[a as int]@.len() as int + 1,
                VALUE_BOUND as int,
            );
        }
        self.history[s][a].push(g);
        let mean = mean_of_row(&self.history[s][a]);
        self.q_values[s][a] = mean;
    }

    /// Rebuilds the epsilon-soft distribution of one state from its
    /// estimates: the greedy action (over all actions, ties to the lowest
    /// index) gets the remaining mass, every action keeps `epsilon`'s share.
    fn update_policy(&mut self, state: usize)
        requires
            old(self).wf(),
            (state as int) < old(self).n_states(),
        ensures
            final(self).wf(),
            final(self).n_states() == old(self).n_states(),
            final(self).n_actions() == old(self).n_actions(),
            final(self).epsilon == old(self).epsilon,
            final(self).gamma == old(self).gamma,
            final(self).q_values@ == old(self).q_values@,
            final(self).history@ == old(self).history@,
            forall|s2: int|
                0 <= s2 < old(self).n_states() && s2 != state ==> #[trigger] final(self).policy@[
                    s2
                ]@ == old(self).policy@[s2]@,
            forall|a: int|
                0 <= a < old(self).n_actions() ==> ((#[trigger] final(self).policy@[state as int]@[
                a]) as int) == ({
                    let share = tdiv(old(self).epsilon as int, old(self).n_actions());
                    if a == greedy_spec(
                        old(self).q_values@[state as int]@,
                        idents(old(self).n_actions()),
                    ) as int {
                        SCALE - old(self).epsilon + share
                    } else {
                        share
                    }
                }),
    {
        let every = all_actions(self.num_actions);
        let best = greedy_action(&self.q_values[state], every.as_slice());
        let epsilon_share = tdiv_rate(self.epsilon, self.num_actions);
        proof {
            crate::fixed::lemma_tdiv_bounds(self.epsilon as int, self.num_actions as int);
        }
        let greedy_mass = SCALE - self.epsilon + epsilon_share;
        let mut row: Vec<i64> = filled_row(self.num_actions, epsilon_share);
        row[best] = greedy_mass;
        self.policy[state] = row;
    }
}

/// The truncating mean of a non-empty row of bounded values.
fn mean_of_row(row: &Vec<i64>) -> (m: i64)
    requires
        row@.len() >= 1,
        forall|k: int| 0 <= k < row@.len() ==> -VALUE_BOUND <= #[trigger] row@[k] <= VALUE_BOUND,
    ensures
        m as int == mean_of(row@),
        -VALUE_BOUND <= m <= VALUE_BOUND,
{
    let n = row.len();
    let mut sum: i128 = 0;
    let mut i: usize = 0;
    while i < n
        invariant
            n == row@.len(),
            i <= n,
            forall|k: int| 0 <= k < n ==> -VALUE_BOUND <= #[trigger] row@[k] <= VALUE_BOUND,
            sum as int == sum_prefix(row@, i as int),
            -(i as int) * (VALUE_BOUND as int) <= sum as int,
            sum as int <= (i as int) * (VALUE_BOUND as int),
        decreases n - i,
    {
        sum = sum + (row[i] as i128);
        i = i + 1;
    }
    proof {
        lemma_tdiv_le(sum as int, VALUE_BOUND as int, n as int);
    }
    tdiv_i128(sum, n as i128) as i64
}

/// A rate divided by a positive count, truncating.
fn tdiv_rate(rate: i64, count: usize) -> (r: i64)
    requires
        0 <= rate <= SCALE,
        count >= 1,
    ensures
        r as int == tdiv(rate as int, count as int),
        0 <= r <= rate,
{
    proof {
        crate::fixed::lemma_tdiv_bounds(rate as int, count as int);
    }
    ((rate as u64) / (count as u64)) as i64
}

/// The estimate for a pair with recorded history is exactly the truncating
/// arithmetic mean of all the first-visit history recorded for that pair.
pub proof fn lemma_q_is_mean_of_returns(mc: MonteCarloControl, s: int, a: int)
    requires
        mc.wf(),
        0 <= s < mc.n_states(),
        0 <= a < mc.n_actions(),
        mc.returns_at(s, a).len() > 0,
    ensures
        mc.q_at(s, a) == mean_of(mc.returns_at(s, a)),
{
}

impl RLAlgorithm for MonteCarloControl {
    closed spec fn wf(&self) -> bool {
        &&& grid_wf(self.q_values@, self.num_states as int, self.num_actions as int)
        &&& self.num_states >= 1
        &&& self.num_actions >= 1
        &&& 0 <= self.epsilon <= SCALE
        &&& 0 <= self.gamma < SCALE
        &&& self.history@.len() == self.num_states
        &&& forall|s: int|
            0 <= s < self.num_states ==> (#[trigger] self.history@[s])@.len() == self.num_actions
        &&& forall|s: int, a: int|
            0 <= s < self.num_states && 0 <= a < self.num_actions ==> forall|k: int|
                0 <= k < (#[trigger] self.history@[s]@[a])@.len() ==> -VALUE_BOUND
                    <= #[trigger] self.history@[s]@[a]@[k] <= VALUE_BOUND
        &&& forall|s: int, a: int|
            0 <= s < self.num_states && 0 <= a < self.num_actions ==> ((
            #[trigger] self.q_values@[s]@[a]) as int) == if self.history@[s]@[a]@.len() == 0 {
                0int
            } else {
                mean_of(self.history@[s]@[a]@)
            }
        &&& self.policy@.len() == self.num_states
        &&& forall|s: int|
            0 <= s < self.num_states ==> (#[trigger] self.policy@[s])@.len() == self.num_actions
        &&& forall|s: int, a: int|
            0 <= s < self.num_states && 0 <= a < self.num_actions ==> 0
                <= #[trigger] self.policy@[s]@[a] <= SCALE
    }

    closed spec fn n_states(&self) -> int {
        self.num_states as int
    }

    closed spec fn n_actions(&self) -> int {
        self.num_actions as int
    }

    closed spec fn fits(&self, ns: int, na: int) -> bool {
        ns == self.n_states() && na == self.n_actions()
    }

    closed spec fn best_spec(&self, state: int, avail: Seq<usize>) -> usize {
        greedy_spec(self.q_values@[state]@, avail)
    }

    /// Each episode is generated under the epsilon-soft policy; its
    /// discounted history are processed at first visits, resetting estimates
    /// to running means and rebuilding the visited states' distributions.
    fn train<E: Environment>(&mut self, env: &mut E, max_episodes: usize) -> (rewards: Vec<i64>) {
        let mut rng = Prng::from_seed(42);
        let mut rewards: Vec<i64> = Vec::new();
        let ns = env.num_states();
        let na = env.num_actions();
        let mut ep: usize = 0;
        while ep < max_episodes
            invariant
                self.wf(),
                env.inv(),
                ns as int == env.states(),
                na as int == env.actions(),
                ns as int == self.n_states(),
                na as int == self.n_actions(),
                rewards@.len() == ep,
                ep <= max_episodes,
                forall|i: int|
                    0 <= i < rewards@.len() ==> -TRAIN_TOTAL_BOUND <= #[trigger] rewards@[i]
                        <= TRAIN_TOTAL_BOUND,
            decreases max_episodes - ep,
        {
            env.reset();
            let mut states: Vec<usize> = Vec::new();
            let mut acts: Vec<usize> = Vec::new();
            let mut rews: Vec<i64> = Vec::new();
            let mut total: i64 = 0;
            let mut over = env.is_game_over();
            let mut steps: usize = 0;
            while !over && steps < EPISODE_STEP_CAP
                invariant
                    self.wf(),
                    env.inv(),
                    ns as int == env.states(),
                    na as int == env.actions(),
                    ns as int == self.n_states(),
                    na as int == self.n_actions(),
                    over == env.over(),
                    steps <= EPISODE_STEP_CAP,
                    states@.len() == steps,
                    acts@.len() == steps,
                    rews@.len() == steps,
                    forall|t: int| 0 <= t < steps ==> ((#[trigger] states@[t]) as int) < ns,
                    forall|t: int| 0 <= t < steps ==> ((#[trigger] acts@[t]) as int) < na,
                    forall|t: int|
                        0 <= t < steps ==> -2_000_000_000 <= #[trigger] rews@[t] <= 2_000_000_000,
                    -2_000_000_000 * (steps as int) <= total <= 2_000_000_000 * (steps as int),
                decreases EPISODE_STEP_CAP - steps,
            {
                let s = env.state_id();
                let aa = env.available_actions();
                let a = epsilon_greedy(&mut rng, self.epsilon, &self.q_values[s], aa.as_slice());
                let before = env.score();
                env.step(a);
                let r = env.score() - before;
                total = total + r;
                states.push(s);
                acts.push(a);
                rews.push(r);
                over = env.is_game_over();
                steps = steps + 1;
            }
            // Penalize an episode that ran into the step bound.
            if steps == EPISODE_STEP_CAP && rews.len() >= 1 {
                let last = rews.len() - 1;
                let r0 = rews[last];
                rews[last] = r0 - SCALE;
                total = total - SCALE;
            }
            rewards.push(total);
            self.process_episode(&states, &acts, &rews);
            ep = ep + 1;
        }
        rewards
    }

    fn get_best_action(&self, state: usize, available_actions: &[usize]) -> (a: usize) {
        greedy_action(&self.q_values[state], available_actions)
    }
}

} // verus!
