//! Fixed-point arithmetic for the library.
//!
//! A real quantity is held as an `i64` carrying six decimal places: the value
//! `x` stands for the real number `x / SCALE`. Rates (learning rate, discount,
//! exploration probability) lie in `[0, SCALE]`; value estimates are kept
//! within `[-VALUE_BOUND, VALUE_BOUND]` by the algorithms' invariants.

use vstd::prelude::*;
use vstd::arithmetic::div_mod::{lemma_div_by_multiple, lemma_div_is_ordered, lemma_div_pos_is_pos};

verus! {

/// One, in fixed-point representation.
pub const SCALE: i64 = 1_000_000;

/// Largest magnitude an environment score may take.
pub const SCORE_BOUND: i64 = 1_000_000_000;

/// Largest magnitude a per-step reward may take: a score delta plus any
/// small shaping adjustment an algorithm applies.
pub const REWARD_BOUND: i64 = 4_000_000_000;

/// Largest magnitude a stored value estimate may take. It equals
/// `REWARD_BOUND * SCALE`, so that a reward plus a discounted bounded value
/// stays within the bound whenever the discount is strictly below one.
pub const VALUE_BOUND: i64 = 4_000_000_000_000_000;

/// Division rounding toward zero, as machine division does.
pub open spec fn tdiv(a: int, b: int) -> int {
    if a >= 0 {
        a / b
    } else {
        -((-a) / b)
    }
}

/// Fixed-point product: the product of two fixed-point numbers, rescaled.
pub open spec fn fmul(a: int, b: int) -> int {
    tdiv(a * b, SCALE as int)
}

/// One-step discounted target: reward plus discounted bootstrap value.
pub open spec fn td_target(r: int, gamma: int, m: int) -> int {
    r + fmul(gamma, m)
}

/// One temporal-difference update: move a fraction `alpha` toward the target.
pub open spec fn td_step(q: int, alpha: int, t: int) -> int {
    q + fmul(alpha, t - q)
}

/// The discounted return to go at step `t` of a trace of rewards:
/// `r_t + gamma * (r_{t+1} + gamma * (...))`, zero past the end.
pub open spec fn return_to_go(rews: Seq<i64>, gamma: int, t: int) -> int
    decreases rews.len() - t,
{
    if t < 0 || t >= rews.len() {
        0
    } else {
        rews[t] + fmul(gamma, return_to_go(rews, gamma, t + 1))
    }
}

/// Saturation of a value at the representable bound.
pub open spec fn clamp_spec(x: int) -> int {
    if x < -VALUE_BOUND {
        -VALUE_BOUND as int
    } else if x > VALUE_BOUND {
        VALUE_BOUND as int
    } else {
        x
    }
}

/// For `0 <= p <= m * d` with positive `d`, the quotient `p / d` is at most `m`.
proof fn lemma_div_le(p: int, m: int, d: int)
    requires
        0 <= p,
        p <= m * d,
        d >= 1,
        m >= 0,
    ensures
        0 <= p / d <= m,
{
    lemma_div_pos_is_pos(p, d);
    lemma_div_is_ordered(p, m * d, d);
    lemma_div_by_multiple(m, d);
}

/// Truncated division by a positive divisor never grows magnitude, and it
/// keeps sign.
pub proof fn lemma_tdiv_bounds(a: int, b: int)
    requires
        b >= 1,
    ensures
        a >= 0 ==> 0 <= tdiv(a, b) <= a,
        a < 0 ==> a <= tdiv(a, b) <= 0,
{
    if a >= 0 {
        assert(a <= a * b) by (nonlinear_arith)
            requires
                a >= 0,
                b >= 1,
        ;
        lemma_div_le(a, a, b);
    } else {
        assert(-a <= -a * b) by (nonlinear_arith)
            requires
                a < 0,
                b >= 1,
        ;
        lemma_div_le(-a, -a, b);
    }
}

/// A quotient `tdiv(p, d)` with `|p| <= m * d` has magnitude at most `m`.
pub proof fn lemma_tdiv_le(p: int, m: int, d: int)
    requires
        -(m * d) <= p <= m * d,
        d >= 1,
        m >= 0,
    ensures
        -m <= tdiv(p, d) <= m,
{
    if p >= 0 {
        lemma_div_le(p, m, d);
    } else {
        lemma_div_le(-p, m, d);
    }
}

/// Scaling a value by a rate of magnitude at most one never grows it.
pub proof fn lemma_fmul_rate_bound(a: int, x: int, bound: int)
    requires
        -SCALE <= a <= SCALE,
        -bound <= x <= bound,
        0 <= bound,
    ensures
        -bound <= fmul(a, x) <= bound,
{
    assert(-(bound * SCALE) <= a * x <= bound * SCALE) by (nonlinear_arith)
        requires
            -SCALE <= a <= SCALE,
            -bound <= x <= bound,
            0 <= bound,
    ;
    lemma_tdiv_le(a * x, bound, SCALE as int);
}

/// A discount strictly below one shrinks a bounded value by enough room to
/// absorb a bounded reward: the discounted target stays within `VALUE_BOUND`.
pub proof fn lemma_td_target_bounded(r: int, gamma: int, m: int)
    requires
        -REWARD_BOUND <= r <= REWARD_BOUND,
        0 <= gamma < SCALE,
        -VALUE_BOUND <= m <= VALUE_BOUND,
    ensures
        -VALUE_BOUND <= td_target(r, gamma, m) <= VALUE_BOUND,
{
    let room = (VALUE_BOUND - REWARD_BOUND) as int;
    assert(-(room * SCALE) <= gamma * m <= room * SCALE) by (nonlinear_arith)
        requires
            0 <= gamma <= SCALE - 1,
            -VALUE_BOUND <= m <= VALUE_BOUND,
            room == VALUE_BOUND - REWARD_BOUND,
            VALUE_BOUND == REWARD_BOUND * SCALE,
    ;
    lemma_tdiv_le(gamma * m, room, SCALE as int);
}

/// A temporal-difference step lands between the old value and the target.
pub proof fn lemma_td_step_between(q: int, alpha: int, t: int)
    requires
        0 <= alpha <= SCALE,
    ensures
        q <= t ==> q <= td_step(q, alpha, t) <= t,
        t <= q ==> t <= td_step(q, alpha, t) <= q,
{
    if q <= t {
        lemma_fmul_rate_bound(alpha, t - q, t - q);
        assert(0 <= alpha * (t - q)) by (nonlinear_arith)
            requires
                0 <= alpha,
                0 <= t - q,
        ;
        lemma_tdiv_bounds(alpha * (t - q), SCALE as int);
    } else {
        lemma_fmul_rate_bound(alpha, t - q, q - t);
        assert(alpha * (t - q) <= 0) by (nonlinear_arith)
            requires
                0 <= alpha,
                t - q <= 0,
        ;
        lemma_tdiv_bounds(alpha * (t - q), SCALE as int);
    }
}

/// The full update of a bounded estimate toward a bounded discounted target
/// stays within `VALUE_BOUND`.
pub proof fn lemma_td_update_bounded(q: int, alpha: int, r: int, gamma: int, m: int)
    requires
        0 <= alpha <= SCALE,
        0 <= gamma < SCALE,
        -REWARD_BOUND <= r <= REWARD_BOUND,
        -VALUE_BOUND <= q <= VALUE_BOUND,
        -VALUE_BOUND <= m <= VALUE_BOUND,
    ensures
        -VALUE_BOUND <= td_step(q, alpha, td_target(r, gamma, m)) <= VALUE_BOUND,
{
    lemma_td_target_bounded(r, gamma, m);
    lemma_td_step_between(q, alpha, td_target(r, gamma, m));
}

/// Fixed-point product of a rate of magnitude at most one with a value.
/// The result never exceeds the value's magnitude.
pub fn fx_mul(rate: i64, x: i64) -> (r: i64)
    requires
        -SCALE <= rate <= SCALE,
        x > i64::MIN,
    ensures
        r as int == fmul(rate as int, x as int),
        x >= 0 ==> -x <= r <= x,
        x < 0 ==> x <= r <= -x,
        rate >= 0 && x >= 0 ==> r >= 0,
        rate >= 0 && x <= 0 ==> r <= 0,
{
    proof {
        let bound = if x >= 0 { x as int } else { -(x as int) };
        lemma_fmul_rate_bound(rate as int, x as int, bound);
        if rate >= 0 {
            assert(x >= 0 ==> (rate as int) * (x as int) >= 0) by (nonlinear_arith)
                requires
                    rate >= 0,
            ;
            assert(x <= 0 ==> (rate as int) * (x as int) <= 0) by (nonlinear_arith)
                requires
                    rate >= 0,
            ;
            lemma_tdiv_bounds((rate as int) * (x as int), SCALE as int);
        }
        assert(-(SCALE as int) * 0x8000_0000_0000_0000 <= (rate as int) * (x as int) <= (
        SCALE as int) * 0x8000_0000_0000_0000) by (nonlinear_arith)
            requires
                -SCALE <= rate <= SCALE,
                -0x8000_0000_0000_0000 <= x as int <= 0x8000_0000_0000_0000,
        ;
    }
    let p: i128 = (rate as i128) * (x as i128);
    let q: i128 = if p >= 0 {
        proof {
            lemma_tdiv_bounds(p as int, SCALE as int);
        }
        ((p as u128) / (SCALE as u128)) as i128
    } else {
        proof {
            lemma_tdiv_bounds(-(p as int), SCALE as int);
        }
        -((((-p) as u128) / (SCALE as u128)) as i128)
    };
    q as i64
}

/// Truncated division of a wide accumulator by a positive divisor.
pub fn tdiv_i128(a: i128, b: i128) -> (r: i128)
    requires
        b >= 1,
        a > i128::MIN,
    ensures
        r as int == tdiv(a as int, b as int),
{
    if a >= 0 {
        proof {
            lemma_tdiv_bounds(a as int, b as int);
        }
        ((a as u128) / (b as u128)) as i128
    } else {
        proof {
            lemma_tdiv_bounds(-(a as int), b as int);
        }
        -((((-a) as u128) / (b as u128)) as i128)
    }
}

/// Saturation of a value at the representable bound.
pub fn clamp_value(x: i64) -> (r: i64)
    ensures
        r as int == clamp_spec(x as int),
        -VALUE_BOUND <= r <= VALUE_BOUND,
{
    if x < -VALUE_BOUND {
        -VALUE_BOUND
    } else if x > VALUE_BOUND {
        VALUE_BOUND
    } else {
        x
    }
}

/// Sum of the first `n` entries of a sequence of fixed-point values.
pub open spec fn sum_prefix(s: Seq<i64>, n: int) -> int
    decreases n,
{
    if n <= 0 {
        0
    } else {
        sum_prefix(s, n - 1) + s[n - 1]
    }
}

/// Two sequences that agree on a prefix have equal prefix sums.
pub proof fn lemma_sum_prefix_ext(s: Seq<i64>, t: Seq<i64>, n: int)
    requires
        forall|i: int| 0 <= i < n ==> #[trigger] s[i] == t[i],
    ensures
        sum_prefix(s, n) == sum_prefix(t, n),
    decreases n,
{
    if n > 0 {
        lemma_sum_prefix_ext(s, t, n - 1);
    }
}

/// Appending an entry extends the sum by that entry.
pub proof fn lemma_sum_prefix_push(s: Seq<i64>, x: i64)
    ensures
        sum_prefix(s.push(x), s.len() as int + 1) == sum_prefix(s, s.len() as int) + x,
{
    lemma_sum_prefix_ext(s.push(x), s, s.len() as int);
}

/// Replacing one entry shifts the sum by the difference.
pub proof fn lemma_sum_prefix_update(s: Seq<i64>, i: int, x: i64, n: int)
    requires
        0 <= i < n,
        n <= s.len(),
    ensures
        sum_prefix(s.update(i, x), n) == sum_prefix(s, n) - s[i] + x,
    decreases n,
{
    if i == n - 1 {
        lemma_sum_prefix_ext(s.update(i, x), s, n - 1);
    } else {
        lemma_sum_prefix_update(s, i, x, n - 1);
    }
}

/// A sum of nonnegative entries is nonnegative.
pub proof fn lemma_sum_prefix_nonneg(s: Seq<i64>, n: int)
    requires
        n <= s.len(),
        forall|k: int| 0 <= k < n ==> #[trigger] s[k] >= 0,
    ensures
        0 <= sum_prefix(s, n),
    decreases n,
{
    if n > 0 {
        lemma_sum_prefix_nonneg(s, n - 1);
    }
}

/// Prefix sums of nonnegative entries grow with the prefix.
pub proof fn lemma_sum_prefix_mono(s: Seq<i64>, i: int, n: int)
    requires
        0 <= i <= n <= s.len(),
        forall|k: int| 0 <= k < n ==> #[trigger] s[k] >= 0,
    ensures
        0 <= sum_prefix(s, i) <= sum_prefix(s, n),
    decreases n - i,
{
    if n > i {
        lemma_sum_prefix_mono(s, i, n - 1);
    } else {
        lemma_sum_prefix_nonneg(s, i);
    }
}

/// The largest magnitude of a pointwise difference over the first `n`
/// entries of two sequences.
pub open spec fn max_abs_diff(x: Seq<i64>, y: Seq<i64>, n: int) -> int
    decreases n,
{
    if n <= 0 {
        0
    } else {
        let d = if x[n - 1] >= y[n - 1] {
            x[n - 1] - y[n - 1]
        } else {
            y[n - 1] - x[n - 1]
        };
        let rest = max_abs_diff(x, y, n - 1);
        if d > rest {
            d
        } else {
            rest
        }
    }
}

/// Sequences that agree with others on a prefix have the same largest
/// pointwise difference there.
pub proof fn lemma_max_abs_diff_ext(x: Seq<i64>, y1: Seq<i64>, y2: Seq<i64>, n: int)
    requires
        forall|i: int| 0 <= i < n ==> #[trigger] y1[i] == y2[i],
    ensures
        max_abs_diff(x, y1, n) == max_abs_diff(x, y2, n),
    decreases n,
{
    if n > 0 {
        lemma_max_abs_diff_ext(x, y1, y2, n - 1);
    }
}

/// A sum of `n` entries, each of magnitude at most `m`, has magnitude at most `n * m`.
pub proof fn lemma_sum_prefix_bound(s: Seq<i64>, n: int, m: int)
    requires
        0 <= n <= s.len(),
        0 <= m,
        forall|i: int| 0 <= i < n ==> -m <= #[trigger] s[i] <= m,
    ensures
        -(n * m) <= sum_prefix(s, n) <= n * m,
    decreases n,
{
    if n > 0 {
        lemma_sum_prefix_bound(s, n - 1, m);
        assert((n - 1) * m + m == n * m) by (nonlinear_arith);
    }
}

} // verus!
