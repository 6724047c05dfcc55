//! On-policy temporal-difference control with linear function approximation.
//! A state-action pair maps to a binary feature vector (two hashed indicator
//! features — a deliberately crude scheme, not principled tile coding); the
//! approximate value is the inner product of the weights with the features,
//! and updates move only the weights of the active features. The gradient is
//! taken with respect to the current prediction only, never the bootstrap:
//! that is what makes the method semi-gradient. Weights saturate at the
//! representable bound, the fixed-point analogue of floating-point overflow.

use vstd::prelude::*;
use crate::algorithm::{RLAlgorithm, TRAIN_TOTAL_BOUND};
use crate::env::Environment;
use crate::fixed::{clamp_spec, clamp_value, fmul, fx_mul, REWARD_BOUND, SCALE, VALUE_BOUND};
use crate::rng::Prng;

verus! {

/// Step bound per episode.
pub const SG_STEP_CAP: usize = 25;

/// The first active feature index of a state-action pair.
pub open spec fn feature_one(state: int, action: int, nf: int) -> int {
    (state * action) % nf
}

/// The second active feature index of a state-action pair.
pub open spec fn feature_two(state: int, nf: int) -> int {
    state % nf
}

/// The approximate value: the sum of the weights of the active features
/// (one weight when both features hash to the same index).
pub open spec fn approx_q(w: Seq<i64>, state: int, action: int) -> int {
    let i = feature_one(state, action, w.len() as int);
    let j = feature_two(state, w.len() as int);
    if i == j {
        w[i] as int
    } else {
        w[i] + w[j]
    }
}

/// The first-seen position of the maximum of a sequence of values.
pub open spec fn pos_argmax(vals: Seq<int>, n: int) -> int
    decreases n,
{
    if n <= 1 {
        0
    } else {
        let b = pos_argmax(vals, n - 1);
        if vals[n - 1] > vals[b] {
            n - 1
        } else {
            b
        }
    }
}

/// The approximate values of the listed actions, in list order.
pub open spec fn approx_row(w: Seq<i64>, state: int, avail: Seq<usize>) -> Seq<int> {
    Seq::new(avail.len(), |i: int| approx_q(w, state, avail[i] as int))
}

pub struct SemiGradientSarsa {
    weights: Vec<i64>,
    num_features: usize,
    alpha: i64,
    epsilon: i64,
    gamma: i64,
}

impl SemiGradientSarsa {
    /// The weight vector.
    pub closed spec fn weights_seq(&self) -> Seq<i64> {
        self.weights@
    }

    /// The feature-vector length.
    pub closed spec fn features_spec(&self) -> int {
        self.num_features as int
    }

    /// Learning rate, in `[0, 1]`.
    pub closed spec fn alpha_spec(&self) -> int {
        self.alpha as int
    }

    /// Exploration probability, in `[0, 1]`.
    pub closed spec fn epsilon_spec(&self) -> int {
        self.epsilon as int
    }

    /// Discount, in `[0, 1)`.
    pub closed spec fn gamma_spec(&self) -> int {
        self.gamma as int
    }

    /// What `get_best_action` picks, in public terms: the listed action whose
    /// approximate value is largest, ties to the action listed first.
    pub proof fn lemma_best_action_characterization(&self, state: int, avail: Seq<usize>)
        requires
            self.wf(),
        ensures
            self.best_spec(state, avail) == avail[pos_argmax(
                approx_row(self.weights_seq(), state, avail),
                avail.len() as int,
            )],
    {
    }

    /// A zero-weight learner over the given number of features. The discount
    /// must lie strictly below one.
    pub fn new(num_features: usize, alpha: i64, epsilon: i64, gamma: i64) -> (r: SemiGradientSarsa)
        requires
            num_features >= 1,
            0 <= alpha <= SCALE,
            0 <= epsilon <= SCALE,
            0 <= gamma < SCALE,
        ensures
            r.wf(),
            forall|ns: int, na: int| #[trigger] r.fits(ns, na),
            r.features_spec() == num_features,
            r.weights_seq().len() == num_features,
            r.alpha_spec() == alpha,
            r.epsilon_spec() == epsilon,
            r.gamma_spec() == gamma,
            forall|i: int| 0 <= i < num_features ==> #[trigger] r.weights_seq()[i] == 0,
    {
        SemiGradientSarsa {
            weights: crate::qtable::filled_row(num_features, 0),
            num_features,
            alpha,
            epsilon,
            gamma,
        }
    }

    /// The weight vector.
    pub fn get_weights(&self) -> (r: &Vec<i64>)
        ensures
            r@ == self.weights_seq(),
    {
        &self.weights
    }

    /// Rebuilds a learner from serialized parts, accepting exactly the valid
    /// ones: a non-empty bounded weight vector and rates in range.
    pub fn from_parts(weights: Vec<i64>, alpha: i64, epsilon: i64, gamma: i64) -> (r: Option<
        SemiGradientSarsa,
    >)
        ensures
            r is Some <==> (weights@.len() >= 1 && (forall|i: int|
                0 <= i < weights@.len() ==> -VALUE_BOUND <= #[trigger] weights@[i] <= VALUE_BOUND)
                && 0 <= alpha <= SCALE && 0 <= epsilon <= SCALE && 0 <= gamma < SCALE),
            r is Some ==> {
                &&& r.unwrap().wf()
                &&& (forall|ns: int, na: int| #[trigger] r.unwrap().fits(ns, na))
                &&& r.unwrap().weights_seq() == weights@
                &&& r.unwrap().features_spec() == weights@.len()
                &&& r.unwrap().alpha_spec() == alpha
                &&& r.unwrap().epsilon_spec() == epsilon
                &&& r.unwrap().gamma_spec() == gamma
            },
    {
        if !crate::qtable::check_row(&weights) {
            return None;
        }
        if !(0 <= alpha && alpha <= SCALE) {
            return None;
        }
        if !(0 <= epsilon && epsilon <= SCALE) {
            return None;
        }
        if !(0 <= gamma && gamma < SCALE) {
            return None;
        }
        let num_features = weights.len();
        Some(SemiGradientSarsa { weights, num_features, alpha, epsilon, gamma })
    }

    /// The binary feature vector of a state-action pair: ones at the two
    /// active indices, zeroes elsewhere.
    pub fn compute_features(&self, state: usize, action: usize) -> (f: Vec<i64>)
        requires
            self.wf(),
        ensures
            f@.len() == self.features_spec(),
            forall|i: int|
                0 <= i < f@.len() ==> #[trigger] f@[i] == (if i == feature_one(
                    state as int,
                    action as int,
                    self.features_spec(),
                ) || i == feature_two(state as int, self.features_spec()) {
                    1int
                } else {
                    0int
                }),
    {
        let mut f = crate::qtable::filled_row(self.num_features, 0);
        let i = self.feature_one_exec(state, action);
        let j = self.feature_two_exec(state);
        f[i] = 1;
        f[j] = 1;
        f
    }

    /// The first active feature index, computed without overflow.
    fn feature_one_exec(&self, state: usize, action: usize) -> (i: usize)
        requires
            self.wf(),
        ensures
            i as int == feature_one(state as int, action as int, self.features_spec()),
            i < self.features_spec(),
    {
        proof {
            assert((state as int) * (action as int) <= 0xffff_ffff_ffff_ffff
                * 0xffff_ffff_ffff_ffff) by (nonlinear_arith)
                requires
                    0 <= state <= 0xffff_ffff_ffff_ffff,
                    0 <= action <= 0xffff_ffff_ffff_ffff,
            ;
        }
        let p: u128 = (state as u128) * (action as u128);
        let nf = self.num_features as u128;
        (p % nf) as usize
    }

    /// The second active feature index.
    fn feature_two_exec(&self, state: usize) -> (j: usize)
        requires
            self.wf(),
        ensures
            j as int == feature_two(state as int, self.features_spec()),
            j < self.features_spec(),
    {
        state % self.num_features
    }

    /// The approximate value of a state-action pair.
    pub fn approximate_q_value(&self, state: usize, action: usize) -> (q: i64)
        requires
            self.wf(),
        ensures
            q as int == approx_q(self.weights_seq(), state as int, action as int),
            -2 * VALUE_BOUND <= q <= 2 * VALUE_BOUND,
    {
        let i = self.feature_one_exec(state, action);
        let j = self.feature_two_exec(state);
        if i == j {
            self.weights[i]
        } else {
            self.weights[i] + self.weights[j]
        }
    }

    /// Moves the weights of the pair's active features a fraction `alpha`
    /// along the error, saturating at the representable bound; every other
    /// weight is untouched.
    fn update_weights(&mut self, state: usize, action: usize, td_error: i64)
        requires
            old(self).wf(),
            -6 * VALUE_BOUND <= td_error <= 6 * VALUE_BOUND,
        ensures
            final(self).wf(),
            final(self).features_spec() == old(self).features_spec(),
            final(self).alpha == old(self).alpha,
            final(self).epsilon == old(self).epsilon,
            final(self).gamma == old(self).gamma,
            forall|i: int|
                0 <= i < old(self).features_spec() ==> #[trigger] final(self).weights_seq()[i]
                    == (if i == feature_one(
                    state as int,
                    action as int,
                    old(self).features_spec(),
                ) || i == feature_two(state as int, old(self).features_spec()) {
                    clamp_spec(
                        old(self).weights_seq()[i] + fmul(old(self).alpha as int, td_error as int),
                    )
                } else {
                    old(self).weights_seq()[i] as int
                }),
    {
        let step = fx_mul(self.alpha, td_error);
        let i = self.feature_one_exec(state, action);
        let j = self.feature_two_exec(state);
        let wi = clamp_value(self.weights[i] + step);
        self.weights[i] = wi;
        if j != i {
            let wj = clamp_value(self.weights[j] + step);
            self.weights[j] = wj;
        }
    }
}

impl RLAlgorithm for SemiGradientSarsa {
    closed spec fn wf(&self) -> bool {
        &&& self.weights@.len() == self.num_features
        &&& self.num_features >= 1
        &&& forall|i: int|
            0 <= i < self.num_features ==> -VALUE_BOUND <= #[trigger] self.weights@[i]
                <= VALUE_BOUND
        &&& 0 <= self.alpha <= SCALE
        &&& 0 <= self.epsilon <= SCALE
        &&& 0 <= self.gamma < SCALE
    }

    closed spec fn n_states(&self) -> int {
        usize::MAX as int
    }

    closed spec fn n_actions(&self) -> int {
        usize::MAX as int
    }

    closed spec fn fits(&self, ns: int, na: int) -> bool {
        true
    }

    closed spec fn best_spec(&self, state: int, avail: Seq<usize>) -> usize {
        avail[pos_argmax(approx_row(self.weights@, state, avail), avail.len() as int)]
    }

    /// On-policy updates along the episode: each step's error is the reward
    /// plus the discounted approximate value of the next selected pair (bare
    /// reward on a terminal step) minus the current approximate value, and
    /// only the active features' weights move.
    fn train<E: Environment>(&mut self, env: &mut E, max_episodes: usize) -> (rewards: Vec<i64>)
        ensures
            final(self).features_spec() == old(self).features_spec(),
    {
        let mut rng = Prng::from_seed(42);
        let mut rewards: Vec<i64> = Vec::new();
        let ghost ns = env.states();
        let ghost na = env.actions();
        let mut ep: usize = 0;
        while ep < max_episodes
            invariant
                self.wf(),
                env.inv(),
                env.states() == ns,
                env.actions() == na,
                self.num_features == old(self).num_features,
                rewards@.len() == ep,
                ep <= max_episodes,
                forall|i: int|
                    0 <= i < rewards@.len() ==> -TRAIN_TOTAL_BOUND <= #[trigger] rewards@[i]
                        <= TRAIN_TOTAL_BOUND,
            decreases max_episodes - ep,
        {
            env.reset();
            let mut total: i64 = 0;
            let mut s = env.state_id();
            let mut over = env.is_game_over();
            if !over {
                let aa = env.available_actions();
                let mut act = self.select_action(&mut rng, s, aa.as_slice());
                let mut steps: usize = 0;
                while !over && steps < SG_STEP_CAP
                    invariant
                        self.wf(),
                        env.inv(),
                        env.states() == ns,
                        env.actions() == na,
                        self.num_features == old(self).num_features,
                        over == env.over(),
                        !over ==> env.action_ok(act as int),
                        steps <= SG_STEP_CAP,
                        -2_000_000_000 * (steps as int) <= total <= 2_000_000_000 * (steps as int),
                    decreases SG_STEP_CAP - steps,
                {
                    let prev_state = s;
                    let prev_action = act;
                    let before = env.score();
                    env.step(act);
                    let r = env.score() - before;
                    total = total + r;
                    s = env.state_id();
                    over = env.is_game_over();
                    if over {
                        self.observe(prev_state, prev_action, r, s, 0, true);
                    } else {
                        let aa_next = env.available_actions();
                        let act_next = self.select_action(&mut rng, s, aa_next.as_slice());
                        self.observe(prev_state, prev_action, r, s, act_next, false);
                        act = act_next;
                    }
                    steps = steps + 1;
                }
            }
            rewards.push(total);
            ep = ep + 1;
        }
        rewards
    }

    fn get_best_action(&self, state: usize, available_actions: &[usize]) -> (a: usize) {
        let n = available_actions.len();
        let mut best_pos: usize = 0;
        let mut best_val = self.approximate_q_value(state, available_actions[0]);
        let mut i: usize = 1;
        while i < n
            invariant
                self.wf(),
                1 <= i <= n,
                n == available_actions@.len(),
                (best_pos as int) < i,
                best_pos as int == pos_argmax(
                    approx_row(self.weights@, state as int, available_actions@),
                    i as int,
                ),
                best_val as int == approx_q(
                    self.weights@,
                    state as int,
                    available_actions@[best_pos as int] as int,
                ),
            decreases n - i,
        {
            let v = self.approximate_q_value(state, available_actions[i]);
            if v > best_val {
                best_pos = i;
                best_val = v;
            }
            i = i + 1;
        }
        let a = available_actions[best_pos];
        proof {
            assert(available_actions@[best_pos as int] == a);
        }
        a
    }
}

impl SemiGradientSarsa {
    /// Learns from one observed transition: the error is the reward plus the
    /// discounted approximate value of the next selected pair (bare reward on
    /// a terminal step) minus the current approximate value, and only the
    /// taken pair's active features move, saturating at the representable
    /// bound.
    pub fn observe(
        &mut self,
        s: usize,
        a: usize,
        r: i64,
        s_next: usize,
        next_action: usize,
        terminal: bool,
    )
        requires
            old(self).wf(),
            -REWARD_BOUND <= r <= REWARD_BOUND,
        ensures
            final(self).wf(),
            final(self).features_spec() == old(self).features_spec(),
            final(self).alpha_spec() == old(self).alpha_spec(),
            final(self).epsilon_spec() == old(self).epsilon_spec(),
            final(self).gamma_spec() == old(self).gamma_spec(),
            forall|i: int|
                0 <= i < old(self).features_spec() ==> #[trigger] final(self).weights_seq()[i]
                    == ({
                    let w0 = old(self).weights_seq();
                    let td = r + (if terminal {
                        0int
                    } else {
                        fmul(old(self).gamma_spec(), approx_q(w0, s_next as int, next_action as int))
                    }) - approx_q(w0, s as int, a as int);
                    if i == feature_one(s as int, a as int, old(self).features_spec()) || i
                        == feature_two(s as int, old(self).features_spec()) {
                        clamp_spec(w0[i] + fmul(old(self).alpha_spec(), td))
                    } else {
                        w0[i] as int
                    }
                }),
    {
        let current_q = self.approximate_q_value(s, a);
        let td_error = if terminal {
            r - current_q
        } else {
            let next_q = self.approximate_q_value(s_next, next_action);
            r + fx_mul(self.gamma, next_q) - current_q
        };
        self.update_weights(s, a, td_error);
    }

    /// Epsilon-greedy selection over the approximate values.
    pub fn select_action(&self, rng: &mut Prng, state: usize, avail: &[usize]) -> (a: usize)
        requires
            self.wf(),
            avail@.len() >= 1,
        ensures
            avail@.contains(a),
    {
        if rng.chance(self.epsilon) {
            let pick = rng.below(avail.len());
            avail[pick]
        } else {
            let a = self.get_best_action_inner(state, avail);
            a
        }
    }

    /// The greedy action over the approximate values of the listed actions.
    fn get_best_action_inner(&self, state: usize, avail: &[usize]) -> (a: usize)
        requires
            self.wf(),
            avail@.len() >= 1,
        ensures
            avail@.contains(a),
    {
        let n = avail.len();
        let mut best_pos: usize = 0;
        let mut best_val = self.approximate_q_value(state, avail[0]);
        let mut i: usize = 1;
        while i < n
            invariant
                self.wf(),
                1 <= i <= n,
                n == avail@.len(),
                (best_pos as int) < i,
                best_val as int == approx_q(
                    self.weights@,
                    state as int,
                    avail@[best_pos as int] as int,
                ),
            decreases n - i,
        {
            let v = self.approximate_q_value(state, avail[i]);
            if v > best_val {
                best_pos = i;
                best_val = v;
            }
            i = i + 1;
        }
        let a = avail[best_pos];
        proof {
            assert(avail@[best_pos as int] == a);
        }
        a
    }
}

} // verus!
