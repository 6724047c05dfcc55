//! Policy-gradient control. Each state carries one logit per action; action
//! probabilities are a softmax over the logits, stabilized by subtracting the
//! row maximum before exponentiating. The exponential is approximated in
//! fixed point by a clamped compound-interest iterate, stated exactly as a
//! specification function. After each full episode, every visited state's
//! logits move along the softmax score function, scaled by the learning rate,
//! the elapsed discount, and the return to go; logits saturate at the
//! representable bound.

use vstd::prelude::*;
use crate::algorithm::{RLAlgorithm, EPISODE_STEP_CAP, TRAIN_TOTAL_BOUND};
use crate::env::Environment;
use crate::fixed::{
    clamp_spec, clamp_value, fmul, fx_mul, lemma_td_target_bounded, lemma_tdiv_le, return_to_go,
    sum_prefix, tdiv, REWARD_BOUND, SCALE, VALUE_BOUND,
};
use crate::qtable::{all_actions, best_value, grid_wf, idents, max_over, rows_of, zero_grid};
use crate::rng::Prng;

verus! {

/// Ten successive squarings of a fixed-point number, rescaling each time.
pub open spec fn squash(t: int, k: nat) -> int
    decreases k,
{
    if k == 0 {
        t
    } else {
        squash(tdiv(t * t, SCALE as int), (k - 1) as nat)
    }
}

/// One policy-gradient step on a table of logit rows: the visited state's
/// row moves along the softmax score function of the taken action, scaled by
/// `factor` and clamped entrywise; every other row is unchanged.
pub open spec fn logit_step(rows: Seq<Seq<i64>>, s: int, taken: int, factor: int) -> Seq<Seq<i64>> {
    rows.update(
        s,
        Seq::new(
            rows[s].len(),
            |b: int|
                (clamp_spec(
                    rows[s][b] + fmul(
                        (if b == taken {
                            SCALE as int
                        } else {
                            0int
                        }) - prob_of(rows[s], b),
                        factor,
                    ),
                )) as i64,
        ),
    )
}

/// The discount accumulated over the first `t` steps of an episode.
pub open spec fn gpow_spec(gamma: int, t: int) -> int
    decreases t,
{
    if t <= 0 {
        SCALE as int
    } else {
        fmul(gamma, gpow_spec(gamma, t - 1))
    }
}

/// The table of logits after replaying the first `n` steps of an episode in
/// order: step `t` moves the logits of `states[t]` along the score function
/// of `acts[t]`, scaled by the learning rate, the discount accumulated up to
/// `t`, and the return to go at `t`.
pub open spec fn policy_gradient_fold(
    rows: Seq<Seq<i64>>,
    states: Seq<usize>,
    acts: Seq<usize>,
    rews: Seq<i64>,
    alpha: int,
    gamma: int,
    n: int,
) -> Seq<Seq<i64>>
    decreases n,
{
    if n <= 0 {
        rows
    } else {
        let prev = policy_gradient_fold(rows, states, acts, rews, alpha, gamma, n - 1);
        let t = n - 1;
        let factor = fmul(alpha, fmul(gpow_spec(gamma, t), return_to_go(rews, gamma, t)));
        logit_step(prev, states[t] as int, acts[t] as int, factor)
    }
}

/// The fixed-point weight of a non-positive logit difference: a compound-
/// interest approximation of its exponential, in `[0, 1]`, equal to one at
/// zero.
pub open spec fn exp_weight(x: int) -> int {
    let t0 = SCALE + tdiv(x, 1024);
    squash(
        if t0 < 0 {
            0int
        } else {
            t0
        },
        10,
    )
}

/// Squaring with rescaling keeps a fixed-point number in `[0, 1]` and fixes
/// one.
proof fn lemma_squash_bounds(t: int, k: nat)
    requires
        0 <= t <= SCALE,
    ensures
        0 <= squash(t, k) <= SCALE,
        t == SCALE ==> squash(t, k) == SCALE,
    decreases k,
{
    if k > 0 {
        assert(0 <= t * t <= SCALE * SCALE) by (nonlinear_arith)
            requires
                0 <= t <= SCALE,
        ;
        lemma_tdiv_le(t * t, SCALE as int, SCALE as int);
        if t == SCALE {
            vstd::arithmetic::div_mod::lemma_div_by_multiple(SCALE as int, SCALE as int);
            assert(tdiv(t * t, SCALE as int) == SCALE);
        }
        lemma_squash_bounds(tdiv(t * t, SCALE as int), (k - 1) as nat);
    }
}

/// The weight of a non-positive difference lies in `[0, 1]` and equals one
/// exactly at zero.
pub proof fn lemma_exp_weight_bounds(x: int)
    requires
        x <= 0,
    ensures
        0 <= exp_weight(x) <= SCALE,
        x == 0 ==> exp_weight(x) == SCALE,
    decreases 0int,
{
    crate::fixed::lemma_tdiv_bounds(x, 1024);
    let t0 = SCALE + tdiv(x, 1024);
    if t0 < 0 {
        lemma_squash_bounds(0, 10);
    } else {
        lemma_squash_bounds(t0, 10);
    }
}

/// The sum of the weights of the first `n` logits of a row, relative to `m`.
pub open spec fn weight_sum(row: Seq<i64>, m: int, n: int) -> int
    decreases n,
{
    if n <= 0 {
        0
    } else {
        weight_sum(row, m, n - 1) + exp_weight(row[n - 1] - m)
    }
}

/// With `m` an upper bound of the row, the weight sum is nonnegative, at most
/// `n`, at least each of its terms, and at least one when `m` is attained.
proof fn lemma_weight_sum_bounds(row: Seq<i64>, m: int, n: int)
    requires
        0 <= n <= row.len(),
        forall|i: int| 0 <= i < n ==> #[trigger] row[i] <= m,
    ensures
        0 <= weight_sum(row, m, n) <= n * (SCALE as int),
        forall|k: int|
            0 <= k < n ==> #[trigger] exp_weight(row[k] - m) <= weight_sum(row, m, n),
        forall|k: int| 0 <= k < n && row[k] == m ==> weight_sum(row, m, n) >= SCALE,
    decreases n,
{
    if n > 0 {
        lemma_weight_sum_bounds(row, m, n - 1);
        lemma_exp_weight_bounds(row[n - 1] - m);
        assert((n - 1) * (SCALE as int) + SCALE == n * (SCALE as int)) by (nonlinear_arith);
    }
}

/// The softmax probability of action `a` under a row of logits.
pub open spec fn prob_of(row: Seq<i64>, a: int) -> int {
    let m = max_over(row, idents(row.len() as int), row.len() as int);
    tdiv(exp_weight(row[a] - m) * SCALE, weight_sum(row, m, row.len() as int))
}

/// The weight of a non-positive logit difference.
fn exp_weight_exec(x: i64) -> (w: i64)
    requires
        i64::MIN < x <= 0,
    ensures
        w as int == exp_weight(x as int),
        0 <= w <= SCALE,
        x == 0 ==> w == SCALE,
{
    proof {
        lemma_exp_weight_bounds(x as int);
        crate::fixed::lemma_tdiv_bounds(x as int, 1024);
    }
    let d = (((-x) as u64) / 1024u64) as i64;
    let t0 = SCALE - d;
    let mut t: i64 = if t0 < 0 {
        0
    } else {
        t0
    };
    let mut k: usize = 0;
    while k < 10
        invariant
            0 <= t <= SCALE,
            squash(t as int, (10 - k) as nat) == exp_weight(x as int),
            k <= 10,
        decreases 10 - k,
    {
        proof {
            assert(0 <= (t as int) * (t as int) <= (SCALE as int) * (SCALE as int))
                by (nonlinear_arith)
                requires
                    0 <= t <= SCALE,
            ;
            lemma_tdiv_le((t as int) * (t as int), SCALE as int, SCALE as int);
        }
        let tt = t * t;
        t = ((tt as u64) / (SCALE as u64)) as i64;
        k = k + 1;
    }
    t
}

/// The position a draw lands on under a cumulative walk over nonnegative
/// weights: the first whose cumulative weight exceeds the draw.
pub fn pick_by_weights(w: &Vec<i64>, draw: i64) -> (k: usize)
    requires
        1 <= w@.len() <= 1000,
        forall|i: int| 0 <= i < w@.len() ==> 0 <= #[trigger] w@[i] <= SCALE,
        0 <= draw < sum_prefix(w@, w@.len() as int),
    ensures
        (k as int) < w@.len(),
        sum_prefix(w@, k as int) <= draw,
        draw < sum_prefix(w@, k as int + 1),
{
    let n = w.len();
    proof {
        crate::fixed::lemma_sum_prefix_bound(w@, n as int, SCALE as int);
    }
    let mut cum: i64 = 0;
    let mut k: usize = 0;
    while k < n
        invariant
            n == w@.len(),
            n <= 1000,
            forall|i: int| 0 <= i < n ==> 0 <= #[trigger] w@[i] <= SCALE,
            draw <= 1_000_000_000,
            k <= n,
            cum as int == sum_prefix(w@, k as int),
            0 <= cum,
            cum <= draw,
            draw < sum_prefix(w@, n as int),
        decreases n - k,
    {
        proof {
            crate::fixed::lemma_sum_prefix_mono(w@, k as int + 1, n as int);
        }
        let c2 = cum + w[k];
        if draw < c2 {
            return k;
        }
        cum = c2;
        k = k + 1;
    }
    proof {
        assert(false);
    }
    0
}

pub struct Reinforce {
    policy: Vec<Vec<i64>>,
    alpha: i64,
    gamma: i64,
}

impl Reinforce {
    /// The logits, one row per state.
    pub closed spec fn logits(&self) -> Seq<Vec<i64>> {
        self.policy@
    }

    /// Learning rate, in `[0, 1]`.
    pub closed spec fn alpha_spec(&self) -> int {
        self.alpha as int
    }

    /// Discount, in `[0, 1)`.
    pub closed spec fn gamma_spec(&self) -> int {
        self.gamma as int
    }

    /// What `get_best_action` picks, in public terms: the listed action with
    /// the largest softmax probability under this state's logits, ties to the
    /// action listed first.
    pub proof fn lemma_best_action_characterization(&self, state: int, avail: Seq<usize>)
        requires
            self.wf(),
            0 <= state < self.n_states(),
        ensures
            self.best_spec(state, avail) == avail[crate::semi_gradient_sarsa::pos_argmax(
                Seq::new(avail.len(), |i: int| prob_of(self.logits()[state]@, avail[i] as int)),
                avail.len() as int,
            )],
            self.logits()[state]@.len() == self.n_actions(),
    {
    }

    /// A zero-logit learner. The discount must lie strictly below one; the
    /// action count is bounded so that weight sums stay representable.
    pub fn new(num_states: usize, num_actions: usize, alpha: i64, gamma: i64) -> (r: Reinforce)
        requires
            num_states >= 1,
            1 <= num_actions <= 1000,
            0 <= alpha <= SCALE,
            0 <= gamma < SCALE,
        ensures
            r.wf(),
            r.fits(num_states as int, num_actions as int),
            r.n_states() == num_states,
            r.n_actions() == num_actions,
            r.logits().len() == num_states,
            forall|s: int|
                0 <= s < num_states ==> (#[trigger] r.logits()[s])@.len() == num_actions,
            r.alpha_spec() == alpha,
            r.gamma_spec() == gamma,
            forall|s: int, a: int|
                0 <= s < num_states && 0 <= a < num_actions ==> #[trigger] r.logits()[s]@[a] == 0,
    {
        Reinforce { policy: zero_grid(num_states, num_actions), alpha, gamma }
    }

    /// The logits, one row per state.
    pub fn get_logits(&self) -> (r: &Vec<Vec<i64>>)
        ensures
            r@ == self.logits(),
    {
        &self.policy
    }

    /// Rebuilds a learner from serialized parts, accepting exactly the valid
    /// ones: a rectangular bounded logit table with a representable action
    /// count, and rates in range.
    pub fn from_parts(logits: Vec<Vec<i64>>, alpha: i64, gamma: i64) -> (r: Option<Reinforce>)
        ensures
            r is Some <==> (crate::qtable::grid_parts_valid(logits@) && logits@[0]@.len() <= 1000
                && 0 <= alpha <= SCALE && 0 <= gamma < SCALE),
            r is Some ==> {
                &&& r.unwrap().wf()
                &&& r.unwrap().n_states() == logits@.len()
                &&& r.unwrap().n_actions() == logits@[0]@.len()
                &&& r.unwrap().logits() == logits@
                &&& r.unwrap().alpha_spec() == alpha
                &&& r.unwrap().gamma_spec() == gamma
            },
    {
        if !crate::qtable::check_grid(&logits) {
            return None;
        }
        if logits[0].len() > 1000 {
            return None;
        }
        if !(0 <= alpha && alpha <= SCALE) {
            return None;
        }
        if !(0 <= gamma && gamma < SCALE) {
            return None;
        }
        Some(Reinforce { policy: logits, alpha, gamma })
    }

    /// The softmax probabilities of one row of logits, each in `[0, 1]`.
    fn softmax_row(row: &Vec<i64>) -> (p: Vec<i64>)
        requires
            1 <= row@.len() <= 1000,
            forall|i: int| 0 <= i < row@.len() ==> -VALUE_BOUND <= #[trigger] row@[i]
                <= VALUE_BOUND,
        ensures
            p@.len() == row@.len(),
            forall|a: int| 0 <= a < p@.len() ==> (#[trigger] p@[a]) as int == prob_of(row@, a),
            forall|a: int| 0 <= a < p@.len() ==> 0 <= #[trigger] p@[a] <= SCALE,
    {
        let n = row.len();
        let every = all_actions(n);
        let m = best_value(row, every.as_slice());
        proof {
            assert forall|k: int| 0 <= k < n implies #[trigger] row@[k] <= m by {
                assert(every@[k] == k);
                assert(row@[(every@[k]) as int] <= m);
            }
        }
        let ghost mm = m as int;
        let mut total: i64 = 0;
        let mut w: Vec<i64> = Vec::new();
        let mut i: usize = 0;
        while i < n
            invariant
                n == row@.len(),
                1 <= n <= 1000,
                i <= n,
                -VALUE_BOUND <= m <= VALUE_BOUND,
                mm == m as int,
                forall|k: int| 0 <= k < n ==> -VALUE_BOUND <= #[trigger] row@[k] <= VALUE_BOUND,
                forall|k: int| 0 <= k < n ==> #[trigger] row@[k] <= m,
                w@.len() == i,
                forall|k: int|
                    0 <= k < i ==> (#[trigger] w@[k]) as int == exp_weight(row@[k] - mm),
                forall|k: int| 0 <= k < i ==> 0 <= #[trigger] w@[k] <= SCALE,
                total as int == weight_sum(row@, mm, i as int),
                0 <= total <= (i as int) * (SCALE as int),
            decreases n - i,
        {
            let wi = exp_weight_exec(row[i] - m);
            w.push(wi);
            total = total + wi;
            i = i + 1;
        }
        proof {
            lemma_weight_sum_bounds(row@, mm, n as int);
            assert(exists|j: int| 0 <= j < n && row@[idents(n as int)[j] as int] == m);
            assert(exists|k: int| 0 <= k < n && row@[k] == m) by {
                let j = choose|j: int| 0 <= j < n && row@[idents(n as int)[j] as int] == m;
                assert(0 <= idents(n as int)[j] < n);
            }
            assert(total >= SCALE) by {
                let k = choose|k: int| 0 <= k < n && row@[k] == m;
                lemma_exp_weight_bounds(row@[k] - mm);
            }
        }
        let mut p: Vec<i64> = Vec::new();
        let mut a: usize = 0;
        while a < n
            invariant
                n == row@.len(),
                1 <= n <= 1000,
                a <= n,
                w@.len() == n,
                -VALUE_BOUND <= m <= VALUE_BOUND,
                mm == max_over(row@, idents(n as int), n as int),
                forall|k: int|
                    0 <= k < n ==> (#[trigger] w@[k]) as int == exp_weight(row@[k] - mm),
                forall|k: int| 0 <= k < n ==> 0 <= #[trigger] w@[k] <= SCALE,
                total as int == weight_sum(row@, mm, n as int),
                SCALE <= total,
                forall|k: int|
                    0 <= k < n ==> #[trigger] exp_weight(row@[k] - mm) <= total,
                p@.len() == a,
                forall|k: int| 0 <= k < a ==> (#[trigger] p@[k]) as int == prob_of(row@, k),
                forall|k: int| 0 <= k < a ==> 0 <= #[trigger] p@[k] <= SCALE,
            decreases n - a,
        {
            let wi = w[a];
            proof {
                assert((wi as int) * (SCALE as int) <= (total as int) * (SCALE as int))
                    by (nonlinear_arith)
                    requires
                        0 <= wi <= total,
                ;
                lemma_tdiv_le((wi as int) * (SCALE as int), SCALE as int, total as int);
            }
            let prob = (((wi * SCALE) as u64) / (total as u64)) as i64;
            p.push(prob);
            a = a + 1;
        }
        p
    }

    /// Moves one state's logits along the softmax score function: the taken
    /// action's logit gains, every other action's loses, in proportion to its
    /// probability and the given factor, saturating at the representable
    /// bound. No other state's logits change.
    fn update_logits(&mut self, s: usize, taken: usize, factor: i64, probs: &Vec<i64>)
        requires
            old(self).wf(),
            (s as int) < old(self).n_states(),
            probs@.len() == old(self).n_actions(),
            forall|k: int| 0 <= k < probs@.len() ==> 0 <= #[trigger] probs@[k] <= SCALE,
            -VALUE_BOUND <= factor <= VALUE_BOUND,
        ensures
            final(self).wf(),
            final(self).n_states() == old(self).n_states(),
            final(self).n_actions() == old(self).n_actions(),
            final(self).alpha_spec() == old(self).alpha_spec(),
            final(self).gamma_spec() == old(self).gamma_spec(),
            forall|s2: int|
                0 <= s2 < old(self).n_states() && s2 != s ==> #[trigger] final(self).logits()[s2]@
                    == old(self).logits()[s2]@,
            forall|a: int|
                0 <= a < old(self).n_actions() ==> ((#[trigger] final(self).logits()[s as int]@[
                a]) as int) == clamp_spec(
                    old(self).logits()[s as int]@[a] + fmul(
                        (if a == taken {
                            SCALE as int
                        } else {
                            0int
                        }) - probs@[a],
                        factor as int,
                    ),
                ),
    {
        let na = self.policy[0].len();
        let ghost p0 = self.policy@;
        let mut a: usize = 0;
        while a < na
            invariant
                self.wf(),
                na as int == self.n_actions(),
                p0.len() == self.policy@.len(),
                (s as int) < self.policy@.len(),
                p0[s as int]@.len() == na,
                self.alpha == old(self).alpha,
                self.gamma == old(self).gamma,
                a <= na,
                probs@.len() == na,
                forall|k: int| 0 <= k < na ==> 0 <= #[trigger] probs@[k] <= SCALE,
                -VALUE_BOUND <= factor <= VALUE_BOUND,
                forall|s2: int|
                    0 <= s2 < self.policy@.len() && s2 != s ==> #[trigger] self.policy@[s2]@ == p0[
                        s2
                    ]@,
                forall|b: int|
                    a <= b < na ==> #[trigger] self.policy@[s as int]@[b] == p0[s as int]@[b],
                forall|b: int|
                    0 <= b < a ==> ((#[trigger] self.policy@[s as int]@[b]) as int) == clamp_spec(
                        p0[s as int]@[b] + fmul(
                            (if b == taken {
                                SCALE as int
                            } else {
                                0int
                            }) - probs@[b],
                            factor as int,
                        ),
                    ),
            decreases na - a,
        {
            let indicator: i64 = if a == taken {
                SCALE
            } else {
                0
            };
            let grad = indicator - probs[a];
            let delta = fx_mul(grad, factor);
            let updated = clamp_value(self.policy[s][a] + delta);
            self.policy[s][a] = updated;
            a = a + 1;
        }
    }

    /// Processes one completed episode: computes the discounted returns to
    /// go backward, then moves each visited state's logits along the score
    /// function, scaled by the learning rate, the discount elapsed so far,
    /// and the return to go.
    pub fn process_episode(&mut self, states: &Vec<usize>, acts: &Vec<usize>, rews: &Vec<i64>)
        requires
            old(self).wf(),
            states@.len() == rews@.len(),
            acts@.len() == rews@.len(),
            forall|t: int|
                0 <= t < states@.len() ==> ((#[trigger] states@[t]) as int) < old(
                    self,
                ).n_states(),
            forall|t: int|
                0 <= t < acts@.len() ==> ((#[trigger] acts@[t]) as int) < old(self).n_actions(),
            forall|t: int|
                0 <= t < rews@.len() ==> -REWARD_BOUND <= #[trigger] rews@[t] <= REWARD_BOUND,
        ensures
            final(self).wf(),
            final(self).n_states() == old(self).n_states(),
            final(self).n_actions() == old(self).n_actions(),
            final(self).alpha_spec() == old(self).alpha_spec(),
            final(self).gamma_spec() == old(self).gamma_spec(),
            rows_of(final(self).logits()) == policy_gradient_fold(
                rows_of(old(self).logits()),
                states@,
                acts@,
                rews@,
                old(self).alpha_spec(),
                old(self).gamma_spec(),
                rews@.len() as int,
            ),
    {
        let ghost ns = self.n_states();
        let ghost na = self.n_actions();
        let ghost a0 = self.alpha as int;
        let ghost g0 = self.gamma as int;
        let ghost l0 = rows_of(self.logits());
        let n = rews.len();
        let mut togo: Vec<i64> = crate::qtable::filled_row(n, 0);
        let mut t: usize = n;
        let mut g: i64 = 0;
        while t > 0
            invariant
                n == rews@.len(),
                togo@.len() == n,
                t <= n,
                -VALUE_BOUND <= g <= VALUE_BOUND,
                0 <= self.gamma < SCALE,
                g0 == self.gamma as int,
                g as int == return_to_go(rews@, g0, t as int),
                forall|k: int| 0 <= k < n ==> -REWARD_BOUND <= #[trigger] rews@[k] <= REWARD_BOUND,
                forall|k: int|
                    t <= k < n ==> (#[trigger] togo@[k]) as int == return_to_go(rews@, g0, k),
                forall|k: int| t <= k < n ==> -VALUE_BOUND <= #[trigger] togo@[k] <= VALUE_BOUND,
            decreases t,
        {
            t = t - 1;
            proof {
                lemma_td_target_bounded(rews@[t as int] as int, self.gamma as int, g as int);
            }
            g = rews[t] + fx_mul(self.gamma, g);
            togo[t] = g;
        }
        let mut gpow: i64 = SCALE;
        let mut u: usize = 0;
        while u < n
            invariant
                self.wf(),
                ns == self.n_states(),
                na == self.n_actions(),
                self.alpha == old(self).alpha,
                self.gamma == old(self).gamma,
                a0 == self.alpha as int,
                g0 == self.gamma as int,
                u <= n,
                n == states@.len(),
                n == acts@.len(),
                n == rews@.len(),
                n == togo@.len(),
                0 <= gpow <= SCALE,
                gpow as int == gpow_spec(g0, u as int),
                rows_of(self.logits()) == policy_gradient_fold(
                    l0,
                    states@,
                    acts@,
                    rews@,
                    a0,
                    g0,
                    u as int,
                ),
                forall|k: int| 0 <= k < n ==> ((#[trigger] states@[k]) as int) < ns,
                forall|k: int| 0 <= k < n ==> ((#[trigger] acts@[k]) as int) < na,
                forall|k: int|
                    0 <= k < n ==> (#[trigger] togo@[k]) as int == return_to_go(rews@, g0, k),
                forall|k: int| 0 <= k < n ==> -VALUE_BOUND <= #[trigger] togo@[k] <= VALUE_BOUND,
            decreases n - u,
        {
            let s = states[u];
            let taken = acts[u];
            let ghost lpre = rows_of(self.logits());
            let factor = fx_mul(self.alpha, fx_mul(gpow, togo[u]));
            let probs = Reinforce::softmax_row(&self.policy[s]);
            self.update_logits(s, taken, factor, &probs);
            proof {
                assert(rows_of(self.logits()) =~~= logit_step(
                    lpre,
                    s as int,
                    taken as int,
                    factor as int,
                ));
            }
            gpow = fx_mul(self.gamma, gpow);
            u = u + 1;
        }
    }

    /// Samples an action among the listed ones, weighting each by the
    /// exponential of its logit relative to the listed maximum. Every listed
    /// action with the maximal logit has positive weight, so a draw always
    /// lands on a listed action.
    pub fn sample_action(&self, state: usize, avail: &[usize], rng: &mut Prng) -> (a: usize)
        requires
            self.wf(),
            (state as int) < self.n_states(),
            1 <= avail@.len() <= 1000,
            forall|i: int|
                0 <= i < avail@.len() ==> ((#[trigger] avail@[i]) as int) < self.n_actions(),
        ensures
            avail@.contains(a),
    {
        let row = &self.policy[state];
        let m = best_value(row, avail);
        let n = avail.len();
        let mut w: Vec<i64> = Vec::new();
        let mut total: i64 = 0;
        let mut i: usize = 0;
        while i < n
            invariant
                n == avail@.len(),
                n <= 1000,
                row@.len() == self.n_actions(),
                forall|k: int|
                    0 <= k < n ==> ((#[trigger] avail@[k]) as int) < row@.len(),
                forall|k: int|
                    0 <= k < n ==> #[trigger] row@[avail@[k] as int] <= m,
                -VALUE_BOUND <= m,
                forall|k: int|
                    0 <= k < row@.len() ==> -VALUE_BOUND <= #[trigger] row@[k] <= VALUE_BOUND,
                i <= n,
                w@.len() == i,
                forall|k: int| 0 <= k < i ==> 0 <= #[trigger] w@[k] <= SCALE,
                total as int == sum_prefix(w@, i as int),
                0 <= total <= (i as int) * (SCALE as int),
                exists|j: int| 0 <= j < n && row@[avail@[j] as int] == m,
                forall|k: int| 0 <= k < i && row@[avail@[k] as int] == m ==> total >= SCALE,
            decreases n - i,
        {
            let wi = exp_weight_exec(row[avail[i]] - m);
            proof {
                crate::fixed::lemma_sum_prefix_push(w@, wi);
            }
            w.push(wi);
            total = total + wi;
            i = i + 1;
        }
        proof {
            let j = choose|j: int| 0 <= j < n && row@[avail@[j] as int] == m;
            assert(total >= SCALE);
            assert(total <= 1_000_000_000);
        }
        let draw = rng.below(total as usize) as i64;
        let k = pick_by_weights(&w, draw);
        let a = avail[k];
        proof {
            assert(avail@[k as int] == a);
        }
        a
    }
}

impl RLAlgorithm for Reinforce {
    closed spec fn wf(&self) -> bool {
        &&& grid_wf(self.policy@, self.policy@.len() as int, self.n_actions())
        &&& self.policy@.len() >= 1
        &&& 1 <= self.n_actions() <= 1000
        &&& 0 <= self.alpha <= SCALE
        &&& 0 <= self.gamma < SCALE
    }

    closed spec fn n_states(&self) -> int {
        self.policy@.len() as int
    }

    closed spec fn n_actions(&self) -> int {
        if self.policy@.len() > 0 {
            self.policy@[0]@.len() as int
        } else {
            0
        }
    }

    closed spec fn fits(&self, ns: int, na: int) -> bool {
        ns == self.n_states() && na == self.n_actions()
    }

    closed spec fn best_spec(&self, state: int, avail: Seq<usize>) -> usize {
        avail[crate::semi_gradient_sarsa::pos_argmax(
            Seq::new(avail.len(), |i: int| prob_of(self.policy@[state]@, avail[i] as int)),
            avail.len() as int,
        )]
    }

    /// Each episode is sampled from the softmax policy over the available
    /// actions; afterward every step's state moves its logits along the score
    /// function, scaled by the learning rate, the discount elapsed so far,
    /// and the return to go, saturating at the representable bound.
    fn train<E: Environment>(&mut self, env: &mut E, max_episodes: usize) -> (rewards: Vec<i64>) {
        let mut rng = Prng::from_seed(42);
        let mut rewards: Vec<i64> = Vec::new();
        let ns = env.num_states();
        let na = env.num_actions();
        let mut ep: usize = 0;
        while ep < max_episodes
            invariant
                self.wf(),
                env.inv(),
                ns as int == env.states(),
                na as int == env.actions(),
                ns as int == self.n_states(),
                na as int == self.n_actions(),
                rewards@.len() == ep,
                ep <= max_episodes,
                forall|i: int|
                    0 <= i < rewards@.len() ==> -TRAIN_TOTAL_BOUND <= #[trigger] rewards@[i]
                        <= TRAIN_TOTAL_BOUND,
            decreases max_episodes - ep,
        {
            env.reset();
            let mut states: Vec<usize> = Vec::new();
            let mut acts: Vec<usize> = Vec::new();
            let mut rews: Vec<i64> = Vec::new();
            let mut total: i64 = 0;
            let mut over = env.is_game_over();
            let mut steps: usize = 0;
            while !over && steps < EPISODE_STEP_CAP
                invariant
                    self.wf(),
                    env.inv(),
                    ns as int == env.states(),
                    na as int == env.actions(),
                    ns as int == self.n_states(),
                    na as int == self.n_actions(),
                    over == env.over(),
                    steps <= EPISODE_STEP_CAP,
                    states@.len() == steps,
                    acts@.len() == steps,
                    rews@.len() == steps,
                    forall|t: int| 0 <= t < steps ==> ((#[trigger] states@[t]) as int) < ns,
                    forall|t: int| 0 <= t < steps ==> ((#[trigger] acts@[t]) as int) < na,
                    forall|t: int|
                        0 <= t < steps ==> -2_000_000_000 <= #[trigger] rews@[t] <= 2_000_000_000,
                    -2_000_000_000 * (steps as int) <= total <= 2_000_000_000 * (steps as int),
                decreases EPISODE_STEP_CAP - steps,
            {
                let s = env.state_id();
                let aa = env.available_actions();
                let a = self.sample_action(s, aa.as_slice(), &mut rng);
                let before = env.score();
                env.step(a);
                let r = env.score() - before;
                total = total + r;
                states.push(s);
                acts.push(a);
                rews.push(r);
                over = env.is_game_over();
                steps = steps + 1;
            }
            rewards.push(total);
            self.process_episode(&states, &acts, &rews);
            ep = ep + 1;
        }
        rewards
    }

    /// The listed action with the highest softmax probability, ties to the
    /// one listed first.
    fn get_best_action(&self, state: usize, available_actions: &[usize]) -> (a: usize) {
        let probs = Reinforce::softmax_row(&self.policy[state]);
        let n = available_actions.len();
        let mut best_pos: usize = 0;
        let mut best_val = probs[available_actions[0]];
        let mut i: usize = 1;
        while i < n
            invariant
                self.wf(),
                (state as int) < self.n_states(),
                1 <= i <= n,
                n == available_actions@.len(),
                probs@.len() == self.n_actions(),
                forall|k: int|
                    0 <= k < n ==> ((#[trigger] available_actions@[k]) as int) < self.n_actions(),
                forall|k: int|
                    0 <= k < probs@.len() ==> (#[trigger] probs@[k]) as int == prob_of(
                        self.policy@[state as int]@,
                        k,
                    ),
                (best_pos as int) < i,
                best_pos as int == crate::semi_gradient_sarsa::pos_argmax(
                    Seq::new(
                        available_actions@.len(),
                        |k: int| prob_of(self.policy@[state as int]@, available_actions@[k] as int),
                    ),
                    i as int,
                ),
                best_val as int == prob_of(
                    self.policy@[state as int]@,
                    available_actions@[best_pos as int] as int,
                ),
            decreases n - i,
        {
            let v = probs[available_actions[i]];
            if v > best_val {
                best_pos = i;
                best_val = v;
            }
            i = i + 1;
        }
        let a = available_actions[best_pos];
        proof {
            assert(available_actions@[best_pos as int] == a);
        }
        a
    }
}

} // verus!
