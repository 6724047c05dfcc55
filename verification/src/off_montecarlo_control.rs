//! Off-policy Monte-Carlo control with weighted importance sampling. The
//! behavior policy is epsilon-greedy with an upper-confidence exploration
//! bonus and a novelty bonus for states not yet visited this episode; the
//! target policy is pure greedy. Each episode is processed backward: an
//! importance weight is carried along, cumulative weights accumulate per
//! pair, and the backward pass stops as soon as the trace's action disagrees
//! with the current greedy target policy. Epsilon decays geometrically per
//! episode toward a floor.

use vstd::prelude::*;
use crate::algorithm::{RLAlgorithm, TRAIN_TOTAL_BOUND};
use crate::env::Environment;
use crate::fixed::{
    fmul, fx_mul, lemma_td_target_bounded, lemma_tdiv_le, tdiv, tdiv_i128, REWARD_BOUND, SCALE,
    VALUE_BOUND,
};
use crate::qtable::{
    all_actions, check_grid as grid_check, greedy_action, greedy_spec, grid_parts_valid, grid_wf,
    idents, rows_of, zero_grid, zero_policy,
};
use crate::rng::Prng;

verus! {

/// Step bound per generated episode.
pub const OFF_MC_STEP_CAP: usize = 100;

/// Importance weights saturate here; the ratio of a weight to a cumulative
/// weight is what the update uses, and that stays in `[0, 1]`.
pub const WEIGHT_CAP: i64 = 4_000_000_000_000_000;

/// Cumulative weights saturate here, far above any weight.
pub const CUMULATIVE_CAP: i128 = 0x1000_0000_0000_0000_0000_0000_0000;

/// The exploration probability's floor.
pub const EPSILON_FLOOR: i64 = 10_000;

/// The geometric factor epsilon shrinks by after each episode.
pub const EPSILON_DECAY: i64 = 995_000;

/// One episode's decay of the exploration probability toward its floor.
pub open spec fn decayed_once(e: int) -> int {
    let d = fmul(EPSILON_DECAY as int, e);
    if d > EPSILON_FLOOR {
        d
    } else {
        EPSILON_FLOOR as int
    }
}

/// The exploration probability after `n` episodes of decay.
pub open spec fn decayed(e: int, n: nat) -> int
    decreases n,
{
    if n == 0 {
        e
    } else {
        decayed_once(decayed(e, (n - 1) as nat))
    }
}

/// The cumulative weight after absorbing an importance weight, saturating.
pub open spec fn wis_cumulative(c_old: int, w: int) -> int {
    if c_old + w > CUMULATIVE_CAP {
        CUMULATIVE_CAP as int
    } else {
        c_old + w
    }
}

/// The estimate after one weighted-importance-sampling correction: it moves
/// by the fraction `w / c_new` of the error toward the return.
pub open spec fn wis_estimate(q_old: int, c_new: int, w: int, g: int) -> int {
    q_old + fmul(tdiv(w * (SCALE as int), c_new), g - q_old)
}

/// The importance weight after dividing by a behavior probability,
/// saturating.
pub open spec fn rescaled_weight(w: int, p: int) -> int {
    let grown = tdiv(w * (SCALE as int), p);
    if grown > WEIGHT_CAP {
        WEIGHT_CAP as int
    } else {
        grown
    }
}

/// The behavior policy's probability of an action, over a row of estimates:
/// the greedy action keeps everything but the exploration mass, which is
/// shared evenly over the listed actions; the result never falls below the
/// smallest representable probability.
pub open spec fn behavior_prob_spec(qrow: Seq<i64>, avail: Seq<usize>, epsilon: int, a: int) -> int {
    let share = tdiv(epsilon, avail.len() as int);
    let raw = if a == greedy_spec(qrow, avail) as int {
        SCALE - epsilon + share
    } else {
        share
    };
    if raw < 1 {
        1int
    } else {
        raw
    }
}

/// The cumulative-weight table's rows as plain sequences.
pub open spec fn c_rows_of(c: Seq<Vec<i128>>) -> Seq<Seq<i128>> {
    Seq::new(c.len(), |s: int| c[s]@)
}

/// The rolling state of a backward weighted-importance-sampling pass: the
/// estimates, the cumulative weights, the greedy target policy, the carried
/// importance weight, the return accumulated so far, and whether the pass
/// has stopped on a greedy disagreement.
pub struct WisPass {
    pub q: Seq<Seq<i64>>,
    pub c: Seq<Seq<i128>>,
    pub targets: Seq<usize>,
    pub w: int,
    pub g: int,
    pub stopped: bool,
}

/// One backward step of the pass at the visited pair `(s, a)`: once stopped,
/// nothing changes. Otherwise the return absorbs the reward, the pair's
/// cumulative weight absorbs the carried weight, the pair's estimate moves by
/// the weight's share of the error toward the return, the state's target
/// becomes greedy under the updated row, and the pass either stops (the trace
/// disagreed with the new target) or divides the weight by the behavior
/// probability of the action, saturating.
pub open spec fn wis_pass_step(
    pre: WisPass,
    s: int,
    a: int,
    rew: i64,
    avail: Seq<usize>,
    gamma: int,
    epsilon: int,
) -> WisPass {
    if pre.stopped {
        pre
    } else {
        let g2 = rew + fmul(gamma, pre.g);
        let c2 = wis_cumulative(pre.c[s][a] as int, pre.w);
        let q2 = wis_estimate(pre.q[s][a] as int, c2, pre.w, g2);
        let qs = pre.q.update(s, pre.q[s].update(a, q2 as i64));
        let cs = pre.c.update(s, pre.c[s].update(a, c2 as i128));
        let best = greedy_spec(qs[s], idents(qs[s].len() as int));
        let ts = pre.targets.update(s, best);
        if a != best as int {
            WisPass { q: qs, c: cs, targets: ts, w: pre.w, g: g2, stopped: true }
        } else {
            WisPass {
                q: qs,
                c: cs,
                targets: ts,
                w: rescaled_weight(pre.w, behavior_prob_spec(qs[s], avail, epsilon, a)),
                g: g2,
                stopped: false,
            }
        }
    }
}

/// The pass after processing the last `k` steps of an episode backward.
pub open spec fn wis_pass(
    init: WisPass,
    states: Seq<usize>,
    acts: Seq<usize>,
    rews: Seq<i64>,
    avails: Seq<Vec<usize>>,
    gamma: int,
    epsilon: int,
    k: int,
) -> WisPass
    decreases k,
{
    if k <= 0 {
        init
    } else {
        let prev = wis_pass(init, states, acts, rews, avails, gamma, epsilon, k - 1);
        let t = rews.len() - k;
        wis_pass_step(prev, states[t] as int, acts[t] as int, rews[t], avails[t]@, gamma, epsilon)
    }
}

/// A stopped pass absorbs every later step.
pub proof fn lemma_wis_pass_stopped(
    init: WisPass,
    states: Seq<usize>,
    acts: Seq<usize>,
    rews: Seq<i64>,
    avails: Seq<Vec<usize>>,
    gamma: int,
    epsilon: int,
    k1: int,
    k2: int,
)
    requires
        0 <= k1 <= k2,
        wis_pass(init, states, acts, rews, avails, gamma, epsilon, k1).stopped,
    ensures
        wis_pass(init, states, acts, rews, avails, gamma, epsilon, k2) == wis_pass(
            init,
            states,
            acts,
            rews,
            avails,
            gamma,
            epsilon,
            k1,
        ),
    decreases k2 - k1,
{
    if k2 > k1 {
        lemma_wis_pass_stopped(init, states, acts, rews, avails, gamma, epsilon, k1, k2 - 1);
    }
}

/// One weighted-importance-sampling update on plain values: the weight is
/// absorbed into the cumulative weight first, then the estimate moves by
/// `w / C` of the error toward the return, staying between the two.
pub fn wis_update(q_old: i64, c_old: i128, w: i64, g: i64) -> (r: (i64, i128))
    requires
        -VALUE_BOUND <= q_old <= VALUE_BOUND,
        0 <= c_old <= CUMULATIVE_CAP,
        1 <= w <= WEIGHT_CAP,
        -VALUE_BOUND <= g <= VALUE_BOUND,
    ensures
        r.1 as int == wis_cumulative(c_old as int, w as int),
        r.0 as int == wis_estimate(q_old as int, r.1 as int, w as int, g as int),
        -VALUE_BOUND <= r.0 <= VALUE_BOUND,
        w as int <= r.1 <= CUMULATIVE_CAP,
{
    let c_new: i128 = if c_old + (w as i128) > CUMULATIVE_CAP {
        CUMULATIVE_CAP
    } else {
        c_old + (w as i128)
    };
    let err: i64 = g - q_old;
    proof {
        assert((w as int) * (SCALE as int) <= (c_new as int) * (SCALE as int))
            by (nonlinear_arith)
            requires
                1 <= w,
                (w as int) <= c_new as int,
        ;
        assert((w as int) * (SCALE as int) <= 4_000_000_000_000_000 * 1_000_000)
            by (nonlinear_arith)
            requires
                1 <= w <= 4_000_000_000_000_000,
        ;
        lemma_tdiv_le((w as int) * (SCALE as int), SCALE as int, c_new as int);
        crate::fixed::lemma_tdiv_bounds((w as int) * (SCALE as int), c_new as int);
    }
    let ratio = tdiv_i128((w as i128) * (SCALE as i128), c_new) as i64;
    let step = fx_mul(ratio, err);
    (q_old + step, c_new)
}

/// An importance weight divided by a behavior probability, saturating; it
/// never shrinks, since probabilities are at most one.
pub fn rescale_weight(w: i64, p: i64) -> (r: i64)
    requires
        1 <= w <= WEIGHT_CAP,
        1 <= p <= SCALE,
    ensures
        r as int == rescaled_weight(w as int, p as int),
        w <= r <= WEIGHT_CAP,
{
    proof {
        assert((w as int) * (SCALE as int) <= (WEIGHT_CAP as int) * (SCALE as int))
            by (nonlinear_arith)
            requires
                1 <= w <= WEIGHT_CAP,
        ;
        assert((w as int) * (p as int) <= (w as int) * (SCALE as int)) by (nonlinear_arith)
            requires
                w >= 1,
                1 <= p <= SCALE,
        ;
        vstd::arithmetic::div_mod::lemma_div_is_ordered(
            (w as int) * (p as int),
            (w as int) * (SCALE as int),
            p as int,
        );
        vstd::arithmetic::div_mod::lemma_div_by_multiple(w as int, p as int);
    }
    let scaled: i128 = (w as i128) * (SCALE as i128);
    let grown = tdiv_i128(scaled, p as i128);
    if grown > (WEIGHT_CAP as i128) {
        WEIGHT_CAP
    } else {
        grown as i64
    }
}

/// The square root of a nonnegative number, rounded down.
fn isqrt(y: u64) -> (r: u64)
    ensures
        (r as int) * (r as int) <= y as int,
        (y as int) < (r as int + 1) * (r as int + 1),
        r < 4_294_967_296,
{
    let mut lo: u64 = 0;
    let mut hi: u64 = 4_294_967_296;
    proof {
        assert((y as int) < 4_294_967_296 * 4_294_967_296) by (nonlinear_arith)
            requires
                y <= 0xffff_ffff_ffff_ffff,
        ;
    }
    while lo + 1 < hi
        invariant
            lo < hi <= 4_294_967_296,
            (lo as int) * (lo as int) <= y as int,
            (y as int) < (hi as int) * (hi as int),
        decreases hi - lo,
    {
        let mid = lo + (hi - lo) / 2;
        proof {
            assert((mid as int) * (mid as int) < 4_294_967_296 * 4_294_967_296)
                by (nonlinear_arith)
                requires
                    mid < 4_294_967_296,
            ;
        }
        if mid * mid <= y {
            lo = mid;
        } else {
            hi = mid;
        }
    }
    lo
}

/// The position of the highest set bit, at most 63; zero for zero.
fn log2_floor(n: u64) -> (r: u64)
    ensures
        r <= 63,
{
    let mut r: u64 = 0;
    let mut v = n;
    while v >= 2 && r < 63
        invariant
            r <= 63,
        decreases v,
    {
        v = v / 2;
        r = r + 1;
    }
    r
}

/// The exploration bonus: the square root of twice a logarithmic measure of
/// the total visits over the pair's own visits, in fixed point. Unvisited
/// pairs get an unbounded bonus elsewhere; here the count is positive.
fn ucb_bonus(count: u64, total: u64) -> (b: i64)
    requires
        count >= 1,
    ensures
        0 <= b <= 10_000_000,
{
    let ln_total: u64 = log2_floor(total) * 693_147;
    let inner: u64 = 2 * ln_total;
    let per_visit: u64 = inner / count;
    proof {
        vstd::arithmetic::div_mod::lemma_div_nonincreasing(inner as int, count as int);
        assert(per_visit <= inner);
    }
    proof {
        assert(per_visit * (SCALE as u64) <= 87_336_522 * 1_000_000) by (nonlinear_arith)
            requires
                per_visit <= 87_336_522,
                SCALE == 1_000_000,
        ;
    }
    let scaled: u64 = per_visit * (SCALE as u64);
    let root = isqrt(scaled) as i64;
    proof {
        assert((root as int) * (root as int) <= 87_336_522_000_000);
        assert(root <= 10_000_000) by (nonlinear_arith)
            requires
                (root as int) * (root as int) <= 87_336_522_000_000,
                root >= 0,
        ;
    }
    root
}

pub struct OffPolicyMonteCarloControl {
    num_states: usize,
    num_actions: usize,
    q_values: Vec<Vec<i64>>,
    c_values: Vec<Vec<i128>>,
    policy: Vec<usize>,
    epsilon: i64,
    gamma: i64,
    min_epsilon: i64,
    epsilon_decay: i64,
    visit_counts: Vec<Vec<u64>>,
    episode_states: Vec<bool>,
    total_visits: u64,
}

impl OffPolicyMonteCarloControl {
    /// The estimate for a state-action pair.
    pub closed spec fn q_at(&self, s: int, a: int) -> int {
        self.q_values@[s]@[a] as int
    }

    /// The cumulative importance weight of a pair.
    pub closed spec fn c_at(&self, s: int, a: int) -> int {
        self.c_values@[s]@[a] as int
    }

    /// The current exploration probability.
    pub closed spec fn epsilon_spec(&self) -> int {
        self.epsilon as int
    }

    /// Discount, in `[0, 1)`.
    pub closed spec fn gamma_spec(&self) -> int {
        self.gamma as int
    }

    /// One state's row of estimates.
    pub closed spec fn q_row(&self, s: int) -> Seq<i64> {
        self.q_values@[s]@
    }

    /// How often a pair was visited under the behavior policy.
    pub closed spec fn visits(&self, s: int, a: int) -> int {
        self.visit_counts@[s]@[a] as int
    }

    /// The greedy target policy's stored action for a state.
    pub closed spec fn target_at(&self, s: int) -> usize {
        self.policy@[s]
    }

    /// One state's row of cumulative importance weights.
    pub closed spec fn c_row(&self, s: int) -> Seq<i128> {
        self.c_values@[s]@
    }

    /// The greedy target policy, one stored action per state.
    pub closed spec fn targets_seq(&self) -> Seq<usize> {
        self.policy@
    }

    /// What `get_best_action` picks, in public terms: the greedy action over
    /// the listed ones, under this state's row of estimates, ties to the
    /// action listed first.
    pub proof fn lemma_best_action_characterization(&self, state: int, avail: Seq<usize>)
        requires
            self.wf(),
            0 <= state < self.n_states(),
        ensures
            self.best_spec(state, avail) == greedy_spec(self.q_row(state), avail),
            self.q_row(state).len() == self.n_actions(),
            forall|a: int| 0 <= a < self.n_actions() ==> #[trigger] self.q_row(state)[a] as int
                == self.q_at(state, a),
    {
    }

    /// A zero-initialized learner with the all-zero target policy, a decay of
    /// `0.995` per episode, and an epsilon floor of `0.01`. The discount must
    /// lie strictly below one.
    pub fn new(num_states: usize, num_actions: usize, epsilon: i64, gamma: i64) -> (r:
        OffPolicyMonteCarloControl)
        requires
            num_states >= 1,
            num_actions >= 1,
            0 <= epsilon <= SCALE,
            0 <= gamma < SCALE,
        ensures
            r.wf(),
            r.fits(num_states as int, num_actions as int),
            r.n_states() == num_states,
            r.n_actions() == num_actions,
            r.epsilon_spec() == epsilon,
            r.gamma_spec() == gamma,
    {
        let mut c_values: Vec<Vec<i128>> = Vec::new();
        let mut s: usize = 0;
        while s < num_states
            invariant
                s <= num_states,
                c_values@.len() == s,
                forall|u: int| 0 <= u < s ==> (#[trigger] c_values@[u])@.len() == num_actions,
                forall|u: int, a: int|
                    0 <= u < s && 0 <= a < num_actions ==> #[trigger] c_values@[u]@[a] == 0,
            decreases num_states - s,
        {
            let mut row: Vec<i128> = Vec::new();
            let mut a: usize = 0;
            while a < num_actions
                invariant
                    a <= num_actions,
                    row@.len() == a,
                    forall|b: int| 0 <= b < a ==> #[trigger] row@[b] == 0,
                decreases num_actions - a,
            {
                row.push(0);
                a = a + 1;
            }
            c_values.push(row);
            s = s + 1;
        }
        let mut counts: Vec<Vec<u64>> = Vec::new();
        let mut s2: usize = 0;
        while s2 < num_states
            invariant
                s2 <= num_states,
                counts@.len() == s2,
                forall|u: int| 0 <= u < s2 ==> (#[trigger] counts@[u])@.len() == num_actions,
            decreases num_states - s2,
        {
            let mut row: Vec<u64> = Vec::new();
            let mut a: usize = 0;
            while a < num_actions
                invariant
                    a <= num_actions,
                    row@.len() == a,
                decreases num_actions - a,
            {
                row.push(0);
                a = a + 1;
            }
            counts.push(row);
            s2 = s2 + 1;
        }
        let mut episode_states: Vec<bool> = Vec::new();
        let mut s3: usize = 0;
        while s3 < num_states
            invariant
                s3 <= num_states,
                episode_states@.len() == s3,
            decreases num_states - s3,
        {
            episode_states.push(false);
            s3 = s3 + 1;
        }
        OffPolicyMonteCarloControl {
            num_states,
            num_actions,
            q_values: zero_grid(num_states, num_actions),
            c_values,
            policy: zero_policy(num_states),
            epsilon,
            gamma,
            min_epsilon: EPSILON_FLOOR,
            epsilon_decay: EPSILON_DECAY,
            visit_counts: counts,
            episode_states,
            total_visits: 0,
        }
    }

    /// The current estimates, one row per state.
    pub fn get_q_values(&self) -> (r: &Vec<Vec<i64>>)
        requires
            self.wf(),
        ensures
            r@.len() == self.n_states(),
            forall|s: int, a: int|
                0 <= s < r@.len() && 0 <= a < r@[s]@.len() ==> (#[trigger] r@[s]@[a]) as int
                    == self.q_at(s, a),
    {
        &self.q_values
    }

    /// Clears the per-episode scratch state: which states this episode has
    /// visited so far.
    pub fn begin_episode(&mut self)
        requires
            old(self).wf(),
        ensures
            final(self).wf(),
            final(self).n_states() == old(self).n_states(),
            final(self).n_actions() == old(self).n_actions(),
            final(self).epsilon_spec() == old(self).epsilon_spec(),
            final(self).gamma_spec() == old(self).gamma_spec(),
            forall|s: int, a: int|
                0 <= s < old(self).n_states() && 0 <= a < old(self).n_actions()
                    ==> #[trigger] final(self).q_at(s, a) == old(self).q_at(s, a)
                    && final(self).c_at(s, a) == old(self).c_at(s, a),
            forall|s: int|
                0 <= s < old(self).n_states() ==> #[trigger] final(self).target_at(s) == old(
                    self,
                ).target_at(s),
    {
        let ns = self.num_states;
        let mut cs: usize = 0;
        while cs < ns
            invariant
                self.wf(),
                ns as int == self.n_states(),
                self.num_actions == old(self).num_actions,
                self.epsilon == old(self).epsilon,
                self.gamma == old(self).gamma,
                self.q_values@ == old(self).q_values@,
                self.c_values@ == old(self).c_values@,
                self.policy@ == old(self).policy@,
                cs <= ns,
            decreases ns - cs,
        {
            self.episode_states[cs] = false;
            cs = cs + 1;
        }
    }

    /// One behavior-policy decision with its bookkeeping: the state is marked
    /// as visited this episode, an action among the listed ones is chosen,
    /// and its visit counters move. Always returns a listed action.
    pub fn choose_action(&mut self, rng: &mut Prng, state: usize, avail: &[usize]) -> (a: usize)
        requires
            old(self).wf(),
            (state as int) < old(self).n_states(),
            1 <= avail@.len(),
            forall|i: int|
                0 <= i < avail@.len() ==> ((#[trigger] avail@[i]) as int) < old(self).n_actions(),
        ensures
            final(self).wf(),
            final(self).n_states() == old(self).n_states(),
            final(self).n_actions() == old(self).n_actions(),
            final(self).epsilon_spec() == old(self).epsilon_spec(),
            final(self).gamma_spec() == old(self).gamma_spec(),
            forall|s: int, a2: int|
                0 <= s < old(self).n_states() && 0 <= a2 < old(self).n_actions()
                    ==> #[trigger] final(self).q_at(s, a2) == old(self).q_at(s, a2)
                    && final(self).c_at(s, a2) == old(self).c_at(s, a2),
            forall|s: int|
                0 <= s < old(self).n_states() ==> #[trigger] final(self).target_at(s) == old(
                    self,
                ).target_at(s),
            avail@.contains(a),
    {
        if !self.episode_states[state] {
            self.episode_states[state] = true;
        }
        let a = self.behavior_policy(rng, state, avail);
        self.record_visit(state, a);
        a
    }

    /// Rebuilds a learner from serialized parts, accepting exactly the valid
    /// ones: a rectangular bounded table of estimates and rates in range. The
    /// cumulative weights, visit counters, and greedy target policy restart
    /// from the estimates.
    pub fn from_parts(q_values: Vec<Vec<i64>>, epsilon: i64, gamma: i64) -> (r: Option<
        OffPolicyMonteCarloControl,
    >)
        ensures
            r is Some <==> (grid_parts_valid(q_values@) && 0 <= epsilon <= SCALE && 0 <= gamma
                < SCALE),
            r is Some ==> {
                &&& r.unwrap().wf()
                &&& r.unwrap().n_states() == q_values@.len()
                &&& r.unwrap().epsilon_spec() == epsilon
                &&& r.unwrap().gamma_spec() == gamma
                &&& forall|s: int, a: int|
                    0 <= s < q_values@.len() && 0 <= a < q_values@[0]@.len()
                        ==> #[trigger] r.unwrap().q_at(s, a) == q_values@[s]@[a]
            },
    {
        if !grid_check(&q_values) {
            return None;
        }
        if !(0 <= epsilon && epsilon <= SCALE) {
            return None;
        }
        if !(0 <= gamma && gamma < SCALE) {
            return None;
        }
        let ns = q_values.len();
        let na = q_values[0].len();
        let mut built = OffPolicyMonteCarloControl::new(ns, na, epsilon, gamma);
        built.q_values = q_values;
        // Re-derive the greedy target policy from the restored estimates.
        let every = all_actions(na);
        let mut s: usize = 0;
        while s < ns
            invariant
                built.wf(),
                built.n_states() == ns,
                built.n_actions() == na,
                built.epsilon_spec() == epsilon,
                built.gamma_spec() == gamma,
                built.q_values@ == q_values@,
                s <= ns,
                every@.len() == na,
                forall|i: int| 0 <= i < na ==> (#[trigger] every@[i]) == i,
            decreases ns - s,
        {
            let best = greedy_action(&built.q_values[s], every.as_slice());
            built.policy[s] = best;
            s = s + 1;
        }
        Some(built)
    }

    /// The behavior policy's probability of the given action: the greedy
    /// action over the listed ones keeps the remaining mass, every listed
    /// action gets epsilon's uniform share. Probabilities are floored at one
    /// unit so that importance weights stay finite.
    fn behavior_probability(&self, action: usize, state: usize, avail: &[usize]) -> (p: i64)
        requires
            self.wf(),
            (state as int) < self.n_states(),
            avail@.len() >= 1,
            forall|i: int|
                0 <= i < avail@.len() ==> ((#[trigger] avail@[i]) as int) < self.n_actions(),
        ensures
            1 <= p <= SCALE,
            p as int == ({
                let share = tdiv(self.epsilon as int, avail@.len() as int);
                let raw = if action == greedy_spec(self.q_values@[state as int]@, avail@) {
                    SCALE - self.epsilon + share
                } else {
                    share
                };
                if raw < 1 {
                    1int
                } else {
                    raw
                }
            }),
    {
        proof {
            crate::fixed::lemma_tdiv_bounds(self.epsilon as int, avail@.len() as int);
        }
        let share = ((self.epsilon as u64) / (avail.len() as u64)) as i64;
        let best = greedy_action(&self.q_values[state], avail);
        let raw = if action == best {
            SCALE - self.epsilon + share
        } else {
            share
        };
        if raw < 1 {
            1
        } else {
            raw
        }
    }

    /// The behavior policy: with probability epsilon, the listed action with
    /// the highest upper-confidence score (value plus exploration bonus plus
    /// a novelty bonus for states unvisited this episode); otherwise the
    /// greedy action. Either way one of the listed actions.
    fn behavior_policy(&self, rng: &mut Prng, state: usize, avail: &[usize]) -> (a: usize)
        requires
            self.wf(),
            (state as int) < self.n_states(),
            avail@.len() >= 1,
            forall|i: int|
                0 <= i < avail@.len() ==> ((#[trigger] avail@[i]) as int) < self.n_actions(),
        ensures
            avail@.contains(a),
    {
        if rng.chance(self.epsilon) {
            let novelty: i64 = if self.episode_states[state] {
                0
            } else {
                SCALE
            };
            let mut best_pos: usize = 0;
            let mut best_score = self.ucb_score(state, avail[0], novelty);
            let mut i: usize = 1;
            while i < avail.len()
                invariant
                    self.wf(),
                    (state as int) < self.n_states(),
                    0 <= novelty <= SCALE,
                    1 <= i <= avail@.len(),
                    (best_pos as int) < i,
                    forall|k: int|
                        0 <= k < avail@.len() ==> ((#[trigger] avail@[k]) as int)
                            < self.n_actions(),
                decreases avail@.len() - i,
            {
                let score = self.ucb_score(state, avail[i], novelty);
                if score > best_score {
                    best_pos = i;
                    best_score = score;
                }
                i = i + 1;
            }
            let a = avail[best_pos];
            proof {
                assert(avail@[best_pos as int] == a);
            }
            a
        } else {
            greedy_action(&self.q_values[state], avail)
        }
    }

    /// The upper-confidence score of one pair: its estimate plus the
    /// exploration bonus plus the novelty bonus; the largest representable
    /// score when the pair was never visited.
    fn ucb_score(&self, state: usize, action: usize, novelty: i64) -> (score: i64)
        requires
            self.wf(),
            (state as int) < self.n_states(),
            (action as int) < self.n_actions(),
            0 <= novelty <= SCALE,
        ensures
            self.visits(state as int, action as int) == 0 ==> score == i64::MAX,
            self.visits(state as int, action as int) > 0 ==> self.q_at(state as int, action as int)
                <= score as int <= self.q_at(state as int, action as int) + 11_000_000,
    {
        let count = self.visit_counts[state][action];
        if count == 0 {
            i64::MAX
        } else {
            let bonus = ucb_bonus(count, self.total_visits);
            let score = self.q_values[state][action] + bonus + novelty;
            proof {
                assert(0 <= bonus as int + novelty as int <= 11_000_000);
            }
            score
        }
    }

    /// Marks a visit of the pair, saturating at the counters' range.
    fn record_visit(&mut self, state: usize, action: usize)
        requires
            old(self).wf(),
            (state as int) < old(self).n_states(),
            (action as int) < old(self).n_actions(),
        ensures
            final(self).wf(),
            final(self).n_states() == old(self).n_states(),
            final(self).n_actions() == old(self).n_actions(),
            final(self).q_values@ == old(self).q_values@,
            final(self).c_values@ == old(self).c_values@,
            final(self).policy@ == old(self).policy@,
            final(self).epsilon == old(self).epsilon,
            final(self).gamma == old(self).gamma,
            final(self).min_epsilon == old(self).min_epsilon,
            final(self).epsilon_decay == old(self).epsilon_decay,
            final(self).episode_states@ == old(self).episode_states@,
    {
        let c = self.visit_counts[state][action];
        if c < u64::MAX {
            self.visit_counts[state][action] = c + 1;
        }
        if self.total_visits < u64::MAX {
            self.total_visits = self.total_visits + 1;
        }
    }
}

impl OffPolicyMonteCarloControl {
    /// Processes one completed episode backward with weighted importance
    /// sampling: returns accumulate, each step's pair absorbs the weight and
    /// moves by `w / C` of the error, the greedy target policy is re-derived
    /// at each visited state, and the pass stops at the first action that
    /// disagrees with it; the exploration probability then decays one step
    /// toward its floor.
    pub fn process_episode(
        &mut self,
        states: &Vec<usize>,
        acts: &Vec<usize>,
        rews: &Vec<i64>,
        avails: &Vec<Vec<usize>>,
    )
        requires
            old(self).wf(),
            states@.len() == rews@.len(),
            acts@.len() == rews@.len(),
            avails@.len() == rews@.len(),
            forall|t: int|
                0 <= t < states@.len() ==> ((#[trigger] states@[t]) as int) < old(
                    self,
                ).n_states(),
            forall|t: int|
                0 <= t < acts@.len() ==> ((#[trigger] acts@[t]) as int) < old(self).n_actions(),
            forall|t: int|
                0 <= t < rews@.len() ==> -REWARD_BOUND <= #[trigger] rews@[t] <= REWARD_BOUND,
            forall|t: int| 0 <= t < avails@.len() ==> 1 <= (#[trigger] avails@[t])@.len(),
            forall|t: int, i: int|
                0 <= t < avails@.len() && 0 <= i < avails@[t]@.len() ==> ((
                #[trigger] avails@[t]@[i]) as int) < old(self).n_actions(),
        ensures
            final(self).wf(),
            final(self).n_states() == old(self).n_states(),
            final(self).n_actions() == old(self).n_actions(),
            final(self).gamma_spec() == old(self).gamma_spec(),
            final(self).epsilon_spec() == decayed_once(old(self).epsilon_spec()),
            ({
                let start = (WisPass {
                    q: Seq::new(old(self).n_states() as nat, |s: int| old(self).q_row(s)),
                    c: Seq::new(old(self).n_states() as nat, |s: int| old(self).c_row(s)),
                    targets: old(self).targets_seq(),
                    w: SCALE as int,
                    g: 0,
                    stopped: false,
                });
                let fin = wis_pass(
                    start,
                    states@,
                    acts@,
                    rews@,
                    avails@,
                    old(self).gamma_spec(),
                    old(self).epsilon_spec(),
                    rews@.len() as int,
                );
                &&& Seq::new(old(self).n_states() as nat, |s: int| final(self).q_row(s)) == fin.q
                &&& Seq::new(old(self).n_states() as nat, |s: int| final(self).c_row(s)) == fin.c
                &&& final(self).targets_seq() == fin.targets
            }),
    {
        let ghost ns = self.n_states();
        let ghost na = self.n_actions();
        let every = all_actions(self.num_actions);
        let n = rews.len();
        let ghost g0 = self.gamma as int;
        let ghost e0 = self.epsilon as int;
        let ghost start = WisPass {
            q: rows_of(self.q_values@),
            c: c_rows_of(self.c_values@),
            targets: self.policy@,
            w: SCALE as int,
            g: 0,
            stopped: false,
        };
        let mut g: i64 = 0;
        let mut w: i64 = SCALE;
        let mut t: usize = n;
        let mut stopped = false;
        while t > 0 && !stopped
            invariant
                g0 == self.gamma as int,
                e0 == self.epsilon as int,
                wis_pass(start, states@, acts@, rews@, avails@, g0, e0, n - t) == (WisPass {
                    q: rows_of(self.q_values@),
                    c: c_rows_of(self.c_values@),
                    targets: self.policy@,
                    w: w as int,
                    g: g as int,
                    stopped: stopped,
                }),
                self.wf(),
                ns == self.n_states(),
                na == self.n_actions(),
                self.epsilon == old(self).epsilon,
                self.gamma == old(self).gamma,
                every@.len() == na,
                forall|i: int| 0 <= i < na ==> (#[trigger] every@[i]) == i,
                t <= n,
                n == states@.len(),
                n == acts@.len(),
                n == rews@.len(),
                n == avails@.len(),
                -VALUE_BOUND <= g <= VALUE_BOUND,
                1 <= w <= WEIGHT_CAP,
                forall|k: int| 0 <= k < n ==> ((#[trigger] states@[k]) as int) < ns,
                forall|k: int| 0 <= k < n ==> ((#[trigger] acts@[k]) as int) < na,
                forall|k: int|
                    0 <= k < n ==> -REWARD_BOUND <= #[trigger] rews@[k] <= REWARD_BOUND,
                forall|k: int| 0 <= k < n ==> 1 <= (#[trigger] avails@[k])@.len(),
                forall|k: int, i: int|
                    0 <= k < n && 0 <= i < avails@[k]@.len() ==> ((
                    #[trigger] avails@[k]@[i]) as int) < na,
            decreases t,
        {
            t = t - 1;
            let ghost prev = wis_pass(start, states@, acts@, rews@, avails@, g0, e0, n - t - 1);
            let s = states[t];
            let a = acts[t];
            proof {
                lemma_td_target_bounded(rews@[t as int] as int, self.gamma as int, g as int);
            }
            g = rews[t] + fx_mul(self.gamma, g);
            let updated = wis_update(self.q_values[s][a], self.c_values[s][a], w, g);
            self.q_values[s][a] = updated.0;
            self.c_values[s][a] = updated.1;
            proof {
                assert(rows_of(self.q_values@) =~~= prev.q.update(
                    s as int,
                    prev.q[s as int].update(a as int, updated.0),
                ));
                assert(c_rows_of(self.c_values@) =~~= prev.c.update(
                    s as int,
                    prev.c[s as int].update(a as int, updated.1),
                ));
            }
            // Re-derive the greedy target policy at this state.
            let best = greedy_action(&self.q_values[s], every.as_slice());
            self.policy[s] = best;
            if a != best {
                stopped = true;
            } else {
                let p = self.behavior_probability(a, s, avails[t].as_slice());
                w = rescale_weight(w, p);
            }
            proof {
                let next = wis_pass(start, states@, acts@, rews@, avails@, g0, e0, n - t);
                assert(every@ =~= idents(na));
                assert(next =~~= (WisPass {
                    q: rows_of(self.q_values@),
                    c: c_rows_of(self.c_values@),
                    targets: self.policy@,
                    w: w as int,
                    g: g as int,
                    stopped: stopped,
                }));
            }
        }
        proof {
            if t > 0 {
                lemma_wis_pass_stopped(
                    start,
                    states@,
                    acts@,
                    rews@,
                    avails@,
                    g0,
                    e0,
                    n - t,
                    n as int,
                );
            }
        }
        // Geometric epsilon decay toward the floor.
        let shrunk = fx_mul(self.epsilon_decay, self.epsilon);
        self.epsilon = if shrunk > self.min_epsilon {
            shrunk
        } else {
            self.min_epsilon
        };
        proof {
            let outside = WisPass {
                q: Seq::new(old(self).n_states() as nat, |s: int| old(self).q_row(s)),
                c: Seq::new(old(self).n_states() as nat, |s: int| old(self).c_row(s)),
                targets: old(self).targets_seq(),
                w: SCALE as int,
                g: 0,
                stopped: false,
            };
            assert(outside.q =~~= start.q);
            assert(outside.c =~~= start.c);
            assert(outside =~~= start);
            assert(Seq::new(ns as nat, |s: int| self.q_row(s)) =~~= rows_of(self.q_values@));
            assert(Seq::new(ns as nat, |s: int| self.c_row(s)) =~~= c_rows_of(self.c_values@));
        }
    }
}

impl RLAlgorithm for OffPolicyMonteCarloControl {
    closed spec fn wf(&self) -> bool {
        &&& grid_wf(self.q_values@, self.num_states as int, self.num_actions as int)
        &&& self.num_states >= 1
        &&& self.num_actions >= 1
        &&& self.c_values@.len() == self.num_states
        &&& forall|s: int|
            0 <= s < self.num_states ==> (#[trigger] self.c_values@[s])@.len() == self.num_actions
        &&& forall|s: int, a: int|
            0 <= s < self.num_states && 0 <= a < self.num_actions ==> 0
                <= #[trigger] self.c_values@[s]@[a] <= CUMULATIVE_CAP
        &&& self.policy@.len() == self.num_states
        &&& forall|s: int|
            0 <= s < self.num_states ==> ((#[trigger] self.policy@[s]) as int) < self.num_actions
        &&& 0 <= self.epsilon <= SCALE
        &&& 0 <= self.gamma < SCALE
        &&& self.min_epsilon == EPSILON_FLOOR
        &&& self.epsilon_decay == EPSILON_DECAY
        &&& self.visit_counts@.len() == self.num_states
        &&& forall|s: int|
            0 <= s < self.num_states ==> (#[trigger] self.visit_counts@[s])@.len()
                == self.num_actions
        &&& self.episode_states@.len() == self.num_states
    }

    closed spec fn n_states(&self) -> int {
        self.num_states as int
    }

    closed spec fn n_actions(&self) -> int {
        self.num_actions as int
    }

    closed spec fn fits(&self, ns: int, na: int) -> bool {
        ns == self.n_states() && na == self.n_actions()
    }

    closed spec fn best_spec(&self, state: int, avail: Seq<usize>) -> usize {
        greedy_spec(self.q_values@[state]@, avail)
    }

    /// Generates each episode under the behavior policy, with a novelty
    /// bonus added to rewards of newly visited states and a small penalty
    /// otherwise, then processes it backward with weighted importance
    /// sampling, stopping at the first action that disagrees with the greedy
    /// target policy; epsilon then decays toward its floor.
    fn train<E: Environment>(&mut self, env: &mut E, max_episodes: usize) -> (rewards: Vec<i64>)
        ensures
            final(self).epsilon_spec() == decayed(old(self).epsilon_spec(), max_episodes as nat),
    {
        let mut rng = Prng::from_seed(42);
        let mut rewards: Vec<i64> = Vec::new();
        let ns = env.num_states();
        let na = env.num_actions();
        let ghost e0 = self.epsilon as int;
        let every = all_actions(na);
        let mut ep: usize = 0;
        while ep < max_episodes
            invariant
                self.wf(),
                env.inv(),
                ns as int == env.states(),
                na as int == env.actions(),
                ns as int == self.n_states(),
                na as int == self.n_actions(),
                self.epsilon as int == decayed(e0, ep as nat),
                every@.len() == na,
                forall|i: int| 0 <= i < na ==> (#[trigger] every@[i]) == i,
                rewards@.len() == ep,
                ep <= max_episodes,
                forall|i: int|
                    0 <= i < rewards@.len() ==> -TRAIN_TOTAL_BOUND <= #[trigger] rewards@[i]
                        <= TRAIN_TOTAL_BOUND,
            decreases max_episodes - ep,
        {
            // Clear the per-episode scratch state.
            let mut cs: usize = 0;
            while cs < ns
                invariant
                    self.wf(),
                    ns as int == self.n_states(),
                    na as int == self.n_actions(),
                    self.epsilon as int == decayed(e0, ep as nat),
                    cs <= ns,
                decreases ns - cs,
            {
                self.episode_states[cs] = false;
                cs = cs + 1;
            }
            env.reset();
            let mut states: Vec<usize> = Vec::new();
            let mut acts: Vec<usize> = Vec::new();
            let mut rews: Vec<i64> = Vec::new();
            let mut avails: Vec<Vec<usize>> = Vec::new();
            let mut distinct: usize = 0;
            let mut total: i64 = 0;
            let mut over = env.is_game_over();
            let mut steps: usize = 0;
            while !over && steps < OFF_MC_STEP_CAP
                invariant
                    self.wf(),
                    env.inv(),
                    ns as int == env.states(),
                    na as int == env.actions(),
                    ns as int == self.n_states(),
                    na as int == self.n_actions(),
                    self.epsilon as int == decayed(e0, ep as nat),
                    over == env.over(),
                    steps <= OFF_MC_STEP_CAP,
                    distinct <= steps,
                    states@.len() == steps,
                    acts@.len() == steps,
                    rews@.len() == steps,
                    avails@.len() == steps,
                    forall|t: int| 0 <= t < steps ==> ((#[trigger] states@[t]) as int) < ns,
                    forall|t: int| 0 <= t < steps ==> ((#[trigger] acts@[t]) as int) < na,
                    forall|t: int|
                        0 <= t < steps ==> -2_200_000_000 <= #[trigger] rews@[t] <= 2_200_000_000,
                    forall|t: int|
                        0 <= t < steps ==> 1 <= (#[trigger] avails@[t])@.len(),
                    forall|t: int, i: int|
                        0 <= t < steps && 0 <= i < avails@[t]@.len() ==> ((
                        #[trigger] avails@[t]@[i]) as int) < na,
                    -2_200_000_000 * (steps as int) <= total <= 2_200_000_000 * (steps as int),
                decreases OFF_MC_STEP_CAP - steps,
            {
                let s = env.state_id();
                let aa = env.available_actions();
                if !self.episode_states[s] {
                    self.episode_states[s] = true;
                    distinct = distinct + 1;
                }
                let a = self.behavior_policy(&mut rng, s, aa.as_slice());
                self.record_visit(s, a);
                let before = env.score();
                env.step(a);
                let r = env.score() - before;
                over = env.is_game_over();
                // Shaping: a bonus while new states keep appearing, a small
                // penalty proportional to the revisits otherwise.
                let adjusted = if distinct > steps {
                    r + 100_000
                } else {
                    r - 100_000 * ((steps - distinct) as i64)
                };
                total = total + adjusted;
                states.push(s);
                acts.push(a);
                rews.push(adjusted);
                avails.push(aa);
                steps = steps + 1;
            }
            // Penalize an episode that ran into the step bound.
            if steps == OFF_MC_STEP_CAP && rews.len() >= 1 {
                let last = rews.len() - 1;
                let r0 = rews[last];
                rews[last] = r0 - SCALE;
                total = total - SCALE;
            }
            rewards.push(total);
            self.process_episode(&states, &acts, &rews, &avails);
            proof {
                assert(self.epsilon as int == decayed(e0, (ep + 1) as nat));
            }
            ep = ep + 1;
        }
        rewards
    }

    fn get_best_action(&self, state: usize, available_actions: &[usize]) -> (a: usize) {
        greedy_action(&self.q_values[state], available_actions)
    }
}

} // verus!
