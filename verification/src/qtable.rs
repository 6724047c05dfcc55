//! Dense state-action value tables, greedy action selection over a restricted
//! action list, and the shared temporal-difference update.

use vstd::prelude::*;
use crate::fixed::{
    fx_mul, lemma_td_update_bounded, td_step, td_target, REWARD_BOUND, SCALE, VALUE_BOUND,
};

verus! {

/// A well-formed value table: `ns` rows of `na` bounded entries.
/// A table of rows as plain sequences of entries.
pub open spec fn rows_of(q: Seq<Vec<i64>>) -> Seq<Seq<i64>> {
    Seq::new(q.len(), |s: int| q[s]@)
}

pub open spec fn grid_wf(q: Seq<Vec<i64>>, ns: int, na: int) -> bool {
    &&& q.len() == ns
    &&& forall|s: int| 0 <= s < ns ==> (#[trigger] q[s])@.len() == na
    &&& forall|s: int, a: int|
        0 <= s < ns && 0 <= a < na ==> -VALUE_BOUND <= #[trigger] q[s]@[a] <= VALUE_BOUND
}

/// A row of `n` copies of a value.
pub fn filled_row(n: usize, v: i64) -> (r: Vec<i64>)
    ensures
        r@.len() == n,
        forall|i: int| 0 <= i < n ==> r@[i] == v,
{
    let mut r: Vec<i64> = Vec::new();
    let mut i: usize = 0;
    while i < n
        invariant
            i <= n,
            r@.len() == i,
            forall|j: int| 0 <= j < i ==> r@[j] == v,
        decreases n - i,
    {
        r.push(v);
        i = i + 1;
    }
    r
}

/// A fresh table of zeroes with the given dimensions.
pub fn zero_grid(ns: usize, na: usize) -> (q: Vec<Vec<i64>>)
    ensures
        grid_wf(q@, ns as int, na as int),
        forall|s: int, a: int| 0 <= s < ns && 0 <= a < na ==> #[trigger] q@[s]@[a] == 0,
{
    let mut q: Vec<Vec<i64>> = Vec::new();
    let mut s: usize = 0;
    while s < ns
        invariant
            s <= ns,
            q@.len() == s,
            forall|t: int| 0 <= t < s ==> (#[trigger] q@[t])@.len() == na,
            forall|t: int, a: int| 0 <= t < s && 0 <= a < na ==> #[trigger] q@[t]@[a] == 0,
        decreases ns - s,
    {
        q.push(filled_row(na, 0));
        s = s + 1;
    }
    q
}

/// Largest entry of `row` over the first `n` listed actions.
pub open spec fn max_over(row: Seq<i64>, avail: Seq<usize>, n: int) -> int
    decreases n,
{
    if n <= 1 {
        row[avail[0] as int] as int
    } else {
        let m = max_over(row, avail, n - 1);
        if row[avail[n - 1] as int] > m {
            row[avail[n - 1] as int] as int
        } else {
            m
        }
    }
}

/// First-seen action maximizing `row` over the first `n` listed actions.
pub open spec fn argmax_over(row: Seq<i64>, avail: Seq<usize>, n: int) -> usize
    decreases n,
{
    if n <= 1 {
        avail[0]
    } else {
        let b = argmax_over(row, avail, n - 1);
        if row[avail[n - 1] as int] > row[b as int] {
            avail[n - 1]
        } else {
            b
        }
    }
}

/// The greedy action over a whole action list.
pub open spec fn greedy_spec(row: Seq<i64>, avail: Seq<usize>) -> usize {
    argmax_over(row, avail, avail.len() as int)
}

/// The greedy action is one of the listed actions, attains the maximum, and
/// no listed action exceeds the maximum.
pub proof fn lemma_argmax_over(row: Seq<i64>, avail: Seq<usize>, n: int)
    requires
        1 <= n <= avail.len(),
        forall|i: int| 0 <= i < avail.len() ==> (#[trigger] avail[i]) < row.len(),
    ensures
        exists|j: int| 0 <= j < n && avail[j] == argmax_over(row, avail, n),
        row[argmax_over(row, avail, n) as int] == max_over(row, avail, n),
        forall|i: int| 0 <= i < n ==> row[(#[trigger] avail[i]) as int] <= max_over(row, avail, n),
    decreases n,
{
    if n > 1 {
        lemma_argmax_over(row, avail, n - 1);
    } else {
        assert(avail[0] == argmax_over(row, avail, n));
    }
}

/// The greedy action over the listed actions, breaking ties in favor of the
/// action listed first.
pub fn greedy_action(row: &Vec<i64>, avail: &[usize]) -> (a: usize)
    requires
        avail@.len() >= 1,
        forall|i: int| 0 <= i < avail@.len() ==> (#[trigger] avail@[i]) < row@.len(),
    ensures
        a == greedy_spec(row@, avail@),
        avail@.contains(a),
        (a as int) < row@.len(),
{
    let mut best: usize = avail[0];
    let mut i: usize = 1;
    while i < avail.len()
        invariant
            1 <= i <= avail@.len(),
            forall|k: int| 0 <= k < avail@.len() ==> (#[trigger] avail@[k]) < row@.len(),
            best == argmax_over(row@, avail@, i as int),
            (best as int) < row@.len(),
        decreases avail@.len() - i,
    {
        let cand = avail[i];
        if row[cand] > row[best] {
            best = cand;
        }
        i = i + 1;
    }
    proof {
        lemma_argmax_over(row@, avail@, avail@.len() as int);
    }
    best
}

/// The largest value of `row` over the listed actions.
pub fn best_value(row: &Vec<i64>, avail: &[usize]) -> (m: i64)
    requires
        avail@.len() >= 1,
        forall|i: int| 0 <= i < avail@.len() ==> (#[trigger] avail@[i]) < row@.len(),
    ensures
        m as int == max_over(row@, avail@, avail@.len() as int),
        exists|j: int| 0 <= j < avail@.len() && row@[avail@[j] as int] == m,
        forall|i: int|
            0 <= i < avail@.len() ==> row@[(#[trigger] avail@[i]) as int] <= m,
{
    let a = greedy_action(row, avail);
    proof {
        lemma_argmax_over(row@, avail@, avail@.len() as int);
    }
    row[a]
}

/// The sequence `0, 1, ..., n - 1` of all action indices.
pub open spec fn idents(n: int) -> Seq<usize> {
    Seq::new(n as nat, |i: int| i as usize)
}

/// The list of every action index below `n`.
pub fn all_actions(n: usize) -> (aa: Vec<usize>)
    ensures
        aa@.len() == n,
        forall|i: int| 0 <= i < n ==> (#[trigger] aa@[i]) == i,
        aa@ == idents(n as int),
{
    let mut aa: Vec<usize> = Vec::new();
    let mut i: usize = 0;
    while i < n
        invariant
            i <= n,
            aa@.len() == i,
            forall|j: int| 0 <= j < i ==> (#[trigger] aa@[j]) == j,
        decreases n - i,
    {
        aa.push(i);
        i = i + 1;
    }
    proof {
        assert(aa@ =~= idents(n as int));
    }
    aa
}

/// A policy of all-zero actions.
pub fn zero_policy(ns: usize) -> (p: Vec<usize>)
    ensures
        p@.len() == ns,
        forall|s: int| 0 <= s < ns ==> (#[trigger] p@[s]) == 0,
{
    let mut p: Vec<usize> = Vec::new();
    let mut s: usize = 0;
    while s < ns
        invariant
            s <= ns,
            p@.len() == s,
            forall|u: int| 0 <= u < s ==> (#[trigger] p@[u]) == 0,
        decreases ns - s,
    {
        p.push(0);
        s = s + 1;
    }
    p
}

/// A plain copy of a value vector.
pub fn copy_values(v: &Vec<i64>) -> (r: Vec<i64>)
    ensures
        r@ == v@,
{
    let mut r: Vec<i64> = Vec::new();
    let mut i: usize = 0;
    while i < v.len()
        invariant
            i <= v@.len(),
            r@.len() == i,
            forall|k: int| 0 <= k < i ==> #[trigger] r@[k] == v@[k],
        decreases v@.len() - i,
    {
        r.push(v[i]);
        i = i + 1;
    }
    proof {
        assert(r@ =~= v@);
    }
    r
}

/// Whether a table is a valid serialized image: at least one state and one
/// action, rectangular rows, entries within the value bound.
pub open spec fn grid_parts_valid(q: Seq<Vec<i64>>) -> bool {
    &&& q.len() >= 1
    &&& q[0]@.len() >= 1
    &&& grid_wf(q, q.len() as int, q[0]@.len() as int)
}

/// Checks a serialized table, accepting exactly the valid ones.
pub fn check_grid(q: &Vec<Vec<i64>>) -> (ok: bool)
    ensures
        ok == grid_parts_valid(q@),
{
    if q.len() == 0 {
        return false;
    }
    if q[0].len() == 0 {
        return false;
    }
    let na = q[0].len();
    let mut s: usize = 0;
    while s < q.len()
        invariant
            s <= q@.len(),
            q@.len() >= 1,
            na == q@[0]@.len(),
            forall|u: int| 0 <= u < s ==> (#[trigger] q@[u])@.len() == na,
            forall|u: int, a: int|
                0 <= u < s && 0 <= a < na ==> -VALUE_BOUND <= #[trigger] q@[u]@[a] <= VALUE_BOUND,
        decreases q@.len() - s,
    {
        if q[s].len() != na {
            return false;
        }
        let mut a: usize = 0;
        while a < na
            invariant
                a <= na,
                s < q@.len(),
                q@[s as int]@.len() == na,
                forall|b: int|
                    0 <= b < a ==> -VALUE_BOUND <= #[trigger] q@[s as int]@[b] <= VALUE_BOUND,
            decreases na - a,
        {
            let v = q[s][a];
            if v < -VALUE_BOUND || v > VALUE_BOUND {
                return false;
            }
            a = a + 1;
        }
        s = s + 1;
    }
    true
}

/// Checks a serialized vector of bounded values, accepting exactly the valid
/// ones: at least one entry, each within the value bound.
pub fn check_row(w: &Vec<i64>) -> (ok: bool)
    ensures
        ok == (w@.len() >= 1 && forall|i: int|
            0 <= i < w@.len() ==> -VALUE_BOUND <= #[trigger] w@[i] <= VALUE_BOUND),
{
    if w.len() == 0 {
        return false;
    }
    let mut i: usize = 0;
    while i < w.len()
        invariant
            i <= w@.len(),
            forall|k: int| 0 <= k < i ==> -VALUE_BOUND <= #[trigger] w@[k] <= VALUE_BOUND,
        decreases w@.len() - i,
    {
        let v = w[i];
        if v < -VALUE_BOUND || v > VALUE_BOUND {
            return false;
        }
        i = i + 1;
    }
    true
}

/// Epsilon-greedy selection: with probability `epsilon / SCALE` a uniformly
/// random listed action, otherwise the greedy one. Either way the result is
/// one of the listed actions.
pub fn epsilon_greedy(
    rng: &mut crate::rng::Prng,
    epsilon: i64,
    row: &Vec<i64>,
    avail: &[usize],
) -> (a: usize)
    requires
        avail@.len() >= 1,
        forall|i: int| 0 <= i < avail@.len() ==> (#[trigger] avail@[i]) < row@.len(),
    ensures
        avail@.contains(a),
        (a as int) < row@.len(),
{
    if rng.chance(epsilon) {
        let pick = rng.below(avail.len());
        avail[pick]
    } else {
        greedy_action(row, avail)
    }
}

/// The temporal-difference update shared by the value-based algorithms:
/// moves `q[s][a]` a fraction `alpha` toward `r + gamma * m`, leaving every
/// other entry unchanged and keeping the table well formed.
pub fn apply_td_update(
    q: &mut Vec<Vec<i64>>,
    ns: usize,
    na: usize,
    s: usize,
    a: usize,
    alpha: i64,
    gamma: i64,
    r: i64,
    m: i64,
)
    requires
        grid_wf(old(q)@, ns as int, na as int),
        s < ns,
        a < na,
        0 <= alpha <= SCALE,
        0 <= gamma < SCALE,
        -REWARD_BOUND <= r <= REWARD_BOUND,
        -VALUE_BOUND <= m <= VALUE_BOUND,
    ensures
        grid_wf(final(q)@, ns as int, na as int),
        final(q)@[s as int]@[a as int] as int == td_step(
            old(q)@[s as int]@[a as int] as int,
            alpha as int,
            td_target(r as int, gamma as int, m as int),
        ),
        forall|s2: int| 0 <= s2 < ns && s2 != s ==> #[trigger] final(q)@[s2]@ == old(q)@[s2]@,
        forall|a2: int|
            0 <= a2 < na && a2 != a ==> #[trigger] final(q)@[s as int]@[a2] == old(q)@[s as int]@[
            a2],
{
    let target = r + fx_mul(gamma, m);
    let qsa = q[s][a];
    let step = fx_mul(alpha, target - qsa);
    let newv = qsa + step;
    proof {
        lemma_td_update_bounded(qsa as int, alpha as int, r as int, gamma as int, m as int);
    }
    q[s][a] = newv;
}

} // verus!
