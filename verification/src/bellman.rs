//! The expected one-step backup used by the planning algorithms: for a
//! state-action pair, the probability-weighted average of the immediate
//! reward plus the discounted value of each next state.

use vstd::prelude::*;
use crate::fixed::{
    fmul, fx_mul, lemma_sum_prefix_mono, lemma_td_target_bounded, lemma_tdiv_le, sum_prefix, tdiv,
    tdiv_i128, SCALE, SCORE_BOUND, VALUE_BOUND,
};

verus! {

/// The unscaled accumulator over the first `n` next states: each term is the
/// transition probability times the reward plus the discounted value.
pub open spec fn bellman_acc(p: Seq<i64>, r: int, gamma: int, v: Seq<i64>, n: int) -> int
    decreases n,
{
    if n <= 0 {
        0
    } else {
        bellman_acc(p, r, gamma, v, n - 1) + p[n - 1] * (r + fmul(gamma, v[n - 1] as int))
    }
}

/// The backed-up value of one state-action pair.
pub open spec fn bellman_q(p: Seq<i64>, r: int, gamma: int, v: Seq<i64>) -> int {
    tdiv(bellman_acc(p, r, gamma, v, p.len() as int), SCALE as int)
}

/// The accumulator over a subdistribution of bounded values stays within the
/// distribution's mass times the value bound.
proof fn lemma_bellman_acc_bound(p: Seq<i64>, r: int, gamma: int, v: Seq<i64>, n: int)
    requires
        0 <= n <= p.len(),
        p.len() == v.len(),
        forall|k: int| 0 <= k < p.len() ==> 0 <= #[trigger] p[k] <= SCALE,
        -SCORE_BOUND <= r <= SCORE_BOUND,
        0 <= gamma < SCALE,
        forall|k: int| 0 <= k < v.len() ==> -VALUE_BOUND <= #[trigger] v[k] <= VALUE_BOUND,
    ensures
        -(sum_prefix(p, n) * (VALUE_BOUND as int)) <= bellman_acc(p, r, gamma, v, n),
        bellman_acc(p, r, gamma, v, n) <= sum_prefix(p, n) * (VALUE_BOUND as int),
    decreases n,
{
    if n > 0 {
        lemma_bellman_acc_bound(p, r, gamma, v, n - 1);
        lemma_td_target_bounded(r, gamma, v[n - 1] as int);
        let x = r + fmul(gamma, v[n - 1] as int);
        assert(-(p[n - 1] * (VALUE_BOUND as int)) <= p[n - 1] * x <= p[n - 1] * (
        VALUE_BOUND as int)) by (nonlinear_arith)
            requires
                0 <= p[n - 1],
                -VALUE_BOUND <= x <= VALUE_BOUND,
        ;
    }
}

/// The expected one-step backup, computed exactly in a wide accumulator.
pub fn bellman_backup(prow: &Vec<i64>, r: i64, gamma: i64, values: &Vec<i64>) -> (q: i64)
    requires
        prow@.len() == values@.len(),
        forall|k: int| 0 <= k < prow@.len() ==> 0 <= #[trigger] prow@[k] <= SCALE,
        sum_prefix(prow@, prow@.len() as int) <= SCALE,
        -SCORE_BOUND <= r <= SCORE_BOUND,
        0 <= gamma < SCALE,
        forall|k: int| 0 <= k < values@.len() ==> -VALUE_BOUND <= #[trigger] values@[k]
            <= VALUE_BOUND,
    ensures
        q as int == bellman_q(prow@, r as int, gamma as int, values@),
        -VALUE_BOUND <= q <= VALUE_BOUND,
{
    let n = prow.len();
    let mut acc: i128 = 0;
    let mut t: usize = 0;
    while t < n
        invariant
            n == prow@.len(),
            n == values@.len(),
            t <= n,
            forall|k: int| 0 <= k < n ==> 0 <= #[trigger] prow@[k] <= SCALE,
            sum_prefix(prow@, n as int) <= SCALE,
            -SCORE_BOUND <= r <= SCORE_BOUND,
            0 <= gamma < SCALE,
            forall|k: int| 0 <= k < n ==> -VALUE_BOUND <= #[trigger] values@[k] <= VALUE_BOUND,
            acc as int == bellman_acc(prow@, r as int, gamma as int, values@, t as int),
            -(sum_prefix(prow@, t as int) * (VALUE_BOUND as int)) <= acc as int,
            acc as int <= sum_prefix(prow@, t as int) * (VALUE_BOUND as int),
            0 <= sum_prefix(prow@, t as int) <= SCALE,
        decreases n - t,
    {
        proof {
            lemma_td_target_bounded(r as int, gamma as int, values@[t as int] as int);
        }
        let x = r + fx_mul(gamma, values[t]);
        proof {
            assert(-(prow@[t as int] * (VALUE_BOUND as int)) <= prow@[t as int] * (x as int)
                <= prow@[t as int] * (VALUE_BOUND as int)) by (nonlinear_arith)
                requires
                    0 <= prow@[t as int],
                    -VALUE_BOUND <= x <= VALUE_BOUND,
            ;
            lemma_sum_prefix_mono(prow@, t as int + 1, n as int);
        }
        let term: i128 = (prow[t] as i128) * (x as i128);
        acc = acc + term;
        t = t + 1;
    }
    proof {
        lemma_tdiv_le(acc as int, VALUE_BOUND as int, SCALE as int);
    }
    tdiv_i128(acc, SCALE as i128) as i64
}

} // verus!
