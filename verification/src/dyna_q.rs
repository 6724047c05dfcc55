//! Model-based acceleration of off-policy temporal-difference control. Each
//! real step is learned from directly and recorded in a deterministic
//! transition cache; `planning_steps` further updates then replay uniformly
//! sampled cached transitions, bootstrapping over all actions of the cached
//! next state.

use vstd::prelude::*;
use crate::algorithm::{RLAlgorithm, EPISODE_STEP_CAP, TRAIN_TOTAL_BOUND};
use crate::env::Environment;
use crate::fixed::{REWARD_BOUND, SCALE};
use crate::q_learning::q_learning_update;
use crate::qtable::{
    all_actions, apply_td_update, best_value, check_grid, epsilon_greedy, greedy_action,
    greedy_spec, grid_parts_valid, grid_wf, idents, max_over, zero_grid,
};
use crate::rng::Prng;

verus! {

/// The value this algorithm writes for one transition, real or replayed: the
/// stored estimate moves a fraction `alpha` toward the reward plus the
/// discounted bootstrap `m`.
pub open spec fn dyna_q_update(qsa: int, alpha: int, gamma: int, r: int, m: int) -> int {
    qsa + crate::fixed::fmul(alpha, r + crate::fixed::fmul(gamma, m) - qsa)
}

/// The update rule applied to a real transition is plain off-policy
/// temporal-difference learning's rule: with `planning_steps == 0` no other
/// update ever runs, so over any shared experience sequence the two
/// algorithms' tables evolve identically.
pub proof fn lemma_zero_planning_matches_q_learning(
    qsa: int,
    alpha: int,
    gamma: int,
    r: int,
    m: int,
)
    ensures
        dyna_q_update(qsa, alpha, gamma, r, m) == q_learning_update(qsa, alpha, gamma, r, m),
{
}

/// What one replayed update may do: some cached pair `(s, a)` (the `i`-th
/// remembered one) has its entry moved by the update rule toward its cached
/// reward and next state, bootstrapping over all actions of that next state;
/// everything else in the table is untouched.
pub open spec fn planned_update(pre: DynaQ, post: DynaQ, i: int) -> bool {
    let s = pre.cached()[i].0 as int;
    let a = pre.cached()[i].1 as int;
    let entry = pre.model_at(s * pre.n_actions() + a);
    &&& entry is Some
    &&& post.table()[s]@[a] as int == dyna_q_update(
        pre.table()[s]@[a] as int,
        pre.alpha_spec(),
        pre.gamma_spec(),
        entry.unwrap().0 as int,
        max_over(
            pre.table()[entry.unwrap().1 as int]@,
            idents(pre.n_actions()),
            pre.n_actions(),
        ),
    )
    &&& forall|s2: int|
        0 <= s2 < pre.n_states() && s2 != s ==> #[trigger] post.table()[s2]@ == pre.table()[s2]@
    &&& forall|a2: int|
        0 <= a2 < pre.n_actions() && a2 != a ==> #[trigger] post.table()[s]@[a2]
            == pre.table()[s]@[a2]
}

/// The real-step image of an observation: the observed pair's entry moves by
/// the update rule, bootstrapping over the listed actions of the observed
/// next state (zero when none is listed); the transition is cached under its
/// pair; no other table entry changes, and the dimensions and rates hold.
pub open spec fn observed_once(
    pre: DynaQ,
    post: DynaQ,
    s: int,
    a: int,
    r: i64,
    s_next: usize,
    next_avail: Seq<usize>,
) -> bool {
    &&& post.table()[s]@[a] as int == dyna_q_update(
        pre.table()[s]@[a] as int,
        pre.alpha_spec(),
        pre.gamma_spec(),
        r as int,
        if next_avail.len() == 0 {
            0int
        } else {
            max_over(pre.table()[s_next as int]@, next_avail, next_avail.len() as int)
        },
    )
    &&& forall|s2: int|
        0 <= s2 < pre.n_states() && s2 != s ==> #[trigger] post.table()[s2]@ == pre.table()[s2]@
    &&& forall|a2: int|
        0 <= a2 < pre.n_actions() && a2 != a ==> #[trigger] post.table()[s]@[a2]
            == pre.table()[s]@[a2]
    &&& post.model_at(s * pre.n_actions() + a) == Some((r, s_next))
    &&& post.n_states() == pre.n_states()
    &&& post.n_actions() == pre.n_actions()
    &&& post.alpha_spec() == pre.alpha_spec()
    &&& post.gamma_spec() == pre.gamma_spec()
}

/// What one planning pass may do to the table: nothing when no pair is
/// cached, otherwise one replayed update of some cached pair. The cache, the
/// model, the dimensions and the rates are untouched.
pub open spec fn replay_step(pre: DynaQ, post: DynaQ) -> bool {
    &&& post.n_states() == pre.n_states()
    &&& post.n_actions() == pre.n_actions()
    &&& post.alpha_spec() == pre.alpha_spec()
    &&& post.gamma_spec() == pre.gamma_spec()
    &&& post.cached() == pre.cached()
    &&& (pre.cached().len() == 0 ==> post.table() == pre.table())
    &&& (pre.cached().len() > 0 ==> exists|i: int|
        0 <= i < pre.cached().len() && #[trigger] planned_update(pre, post, i))
}

/// A flat state-action index stays within the table.
proof fn lemma_flat_index(s: int, a: int, ns: int, na: int)
    requires
        0 <= s < ns,
        0 <= a < na,
    ensures
        0 <= s * na + a < ns * na,
{
    assert(s * na + a < ns * na) by (nonlinear_arith)
        requires
            0 <= s < ns,
            0 <= a < na,
    ;
    assert(0 <= s * na) by (nonlinear_arith)
        requires
            0 <= s,
            0 <= a < na,
    ;
}

pub struct DynaQ {
    q_table: Vec<Vec<i64>>,
    model: Vec<Option<(i64, usize)>>,
    seen: Vec<(usize, usize)>,
    alpha: i64,
    epsilon: i64,
    gamma: i64,
    planning_steps: usize,
}

impl DynaQ {
    /// The learned table, as a sequence of rows.
    pub closed spec fn table(&self) -> Seq<Vec<i64>> {
        self.q_table@
    }

    /// The transition cache entry for a flat state-action index.
    pub closed spec fn model_at(&self, k: int) -> Option<(i64, usize)> {
        self.model@[k]
    }

    /// The state-action pairs remembered for replay, in first-seen order.
    pub closed spec fn cached(&self) -> Seq<(usize, usize)> {
        self.seen@
    }

    /// Learning rate, in `[0, 1]`.
    pub closed spec fn alpha_spec(&self) -> int {
        self.alpha as int
    }

    /// Exploration probability, in `[0, 1]`.
    pub closed spec fn epsilon_spec(&self) -> int {
        self.epsilon as int
    }

    /// Discount, in `[0, 1)`.
    /// How many replayed updates follow each real observation.
    pub closed spec fn planning_spec(&self) -> int {
        self.planning_steps as int
    }

    pub closed spec fn gamma_spec(&self) -> int {
        self.gamma as int
    }

    /// A zero-initialized learner with an empty transition cache. The
    /// discount must lie strictly below one: that keeps every estimate within
    /// the representable value bound.
    pub fn new(
        num_states: usize,
        num_actions: usize,
        alpha: i64,
        epsilon: i64,
        gamma: i64,
        planning_steps: usize,
    ) -> (r: DynaQ)
        requires
            num_states >= 1,
            num_actions >= 1,
            num_states * num_actions <= usize::MAX,
            0 <= alpha <= SCALE,
            0 <= epsilon <= SCALE,
            0 <= gamma < SCALE,
        ensures
            r.wf(),
            r.fits(num_states as int, num_actions as int),
            r.n_states() == num_states,
            r.n_actions() == num_actions,
            r.table().len() == num_states,
            forall|s: int| 0 <= s < num_states ==> (#[trigger] r.table()[s])@.len() == num_actions,
            r.alpha_spec() == alpha,
            r.epsilon_spec() == epsilon,
            r.gamma_spec() == gamma,
            r.cached().len() == 0,
            forall|s: int, a: int|
                0 <= s < num_states && 0 <= a < num_actions ==> #[trigger] r.table()[s]@[a] == 0,
    {
        let mut model: Vec<Option<(i64, usize)>> = Vec::new();
        let total = num_states * num_actions;
        let mut k: usize = 0;
        while k < total
            invariant
                k <= total,
                model@.len() == k,
                forall|i: int| 0 <= i < k ==> (#[trigger] model@[i]) is None,
            decreases total - k,
        {
            model.push(None);
            k = k + 1;
        }
        DynaQ {
            q_table: zero_grid(num_states, num_actions),
            model,
            seen: Vec::new(),
            alpha,
            epsilon,
            gamma,
            planning_steps,
        }
    }

    /// Rebuilds a learner from serialized parts, accepting exactly the valid
    /// ones: a rectangular bounded table with a representable cache size and
    /// rates in range. The transition cache restarts empty; it refills from
    /// new experience.
    pub fn from_parts(
        q_table: Vec<Vec<i64>>,
        alpha: i64,
        epsilon: i64,
        gamma: i64,
        planning_steps: usize,
    ) -> (r: Option<DynaQ>)
        ensures
            r is Some <==> (grid_parts_valid(q_table@) && q_table@.len() * q_table@[0]@.len()
                <= usize::MAX && 0 <= alpha <= SCALE && 0 <= epsilon <= SCALE && 0 <= gamma
                < SCALE),
            r is Some ==> {
                &&& r.unwrap().wf()
                &&& r.unwrap().n_states() == q_table@.len()
                &&& r.unwrap().n_actions() == q_table@[0]@.len()
                &&& r.unwrap().table() == q_table@
                &&& r.unwrap().alpha_spec() == alpha
                &&& r.unwrap().epsilon_spec() == epsilon
                &&& r.unwrap().gamma_spec() == gamma
                &&& r.unwrap().cached().len() == 0
            },
    {
        if !check_grid(&q_table) {
            return None;
        }
        if !(0 <= alpha && alpha <= SCALE) {
            return None;
        }
        if !(0 <= epsilon && epsilon <= SCALE) {
            return None;
        }
        if !(0 <= gamma && gamma < SCALE) {
            return None;
        }
        let total = match q_table.len().checked_mul(q_table[0].len()) {
            Some(t) => t,
            None => {
                return None;
            },
        };
        let mut model: Vec<Option<(i64, usize)>> = Vec::new();
        let mut k: usize = 0;
        while k < total
            invariant
                k <= total,
                model@.len() == k,
                forall|i: int| 0 <= i < k ==> (#[trigger] model@[i]) is None,
            decreases total - k,
        {
            model.push(None);
            k = k + 1;
        }
        Some(DynaQ { q_table, model, seen: Vec::new(), alpha, epsilon, gamma, planning_steps })
    }

    /// The learned table.
    pub fn get_q_table(&self) -> (r: &Vec<Vec<i64>>)
        ensures
            r@ == self.table(),
    {
        &self.q_table
    }

    /// One update of the entry for `(state, action)` toward the reward plus
    /// the discounted best value of `next_state` over the listed next
    /// actions (zero when none are listed).
    fn update_q_value(
        &mut self,
        state: usize,
        action: usize,
        reward: i64,
        next_state: usize,
        next_actions: &[usize],
    )
        requires
            old(self).wf(),
            (state as int) < old(self).n_states(),
            (action as int) < old(self).n_actions(),
            -REWARD_BOUND <= reward <= REWARD_BOUND,
            (next_state as int) < old(self).n_states(),
            forall|i: int|
                0 <= i < next_actions@.len() ==> ((#[trigger] next_actions@[i]) as int) < old(
                    self,
                ).n_actions(),
        ensures
            final(self).wf(),
            final(self).n_states() == old(self).n_states(),
            final(self).n_actions() == old(self).n_actions(),
            final(self).alpha == old(self).alpha,
            final(self).epsilon == old(self).epsilon,
            final(self).gamma == old(self).gamma,
            final(self).planning_steps == old(self).planning_steps,
            final(self).model@ == old(self).model@,
            final(self).seen@ == old(self).seen@,
            final(self).table()[state as int]@[action as int] as int == dyna_q_update(
                old(self).table()[state as int]@[action as int] as int,
                old(self).alpha as int,
                old(self).gamma as int,
                reward as int,
                if next_actions@.len() == 0 {
                    0int
                } else {
                    max_over(
                        old(self).table()[next_state as int]@,
                        next_actions@,
                        next_actions@.len() as int,
                    )
                },
            ),
            forall|s2: int|
                0 <= s2 < old(self).n_states() && s2 != state ==> #[trigger] final(self).table()[
                    s2
                ]@ == old(self).table()[s2]@,
            forall|a2: int|
                0 <= a2 < old(self).n_actions() && a2 != action ==> #[trigger] final(self).table()[
                    state as int
                ]@[a2] == old(self).table()[state as int]@[a2],
    {
        let ns = self.q_table.len();
        let na = self.q_table[0].len();
        let m = if next_actions.len() == 0 {
            0
        } else {
            best_value(&self.q_table[next_state], next_actions)
        };
        apply_td_update(&mut self.q_table, ns, na, state, action, self.alpha, self.gamma, reward, m);
    }

    /// One replayed update: samples a cached transition uniformly and applies
    /// the update rule to it, bootstrapping over all actions of its cached
    /// next state (the cache does not record which were available there).
    /// Without cached transitions this does nothing.
    fn planning_step(&mut self, rng: &mut Prng)
        requires
            old(self).wf(),
        ensures
            final(self).wf(),
            final(self).n_states() == old(self).n_states(),
            final(self).n_actions() == old(self).n_actions(),
            final(self).alpha == old(self).alpha,
            final(self).epsilon == old(self).epsilon,
            final(self).gamma == old(self).gamma,
            final(self).planning_steps == old(self).planning_steps,
            final(self).model@ == old(self).model@,
            final(self).seen@ == old(self).seen@,
            old(self).seen@.len() == 0 ==> final(self).table() == old(self).table(),
            old(self).seen@.len() > 0 ==> exists|i: int|
                0 <= i < old(self).seen@.len() && #[trigger] planned_update(
                    *old(self),
                    *final(self),
                    i,
                ),
    {
        if self.seen.len() == 0 {
            return ;
        }
        let pick = rng.below(self.seen.len());
        let ghost picked = pick as int;
        let (state, action) = self.seen[pick];
        let na = self.q_table[0].len();
        let cap = self.model.len();
        proof {
            lemma_flat_index(state as int, action as int, self.n_states(), self.n_actions());
            assert(state * na <= state * na + action);
        }
        let key = state * na + action;
        let entry = self.model[key];
        if let Some((reward, next_state)) = entry {
            let next_actions = all_actions(na);
            self.update_q_value(state, action, reward, next_state, next_actions.as_slice());
            proof {
                assert(planned_update(*old(self), *self, picked));
            }
        }
    }

    /// Caches the observed transition under its state-action pair,
    /// remembering first-time pairs for uniform sampling.
    fn record_transition(&mut self, state: usize, action: usize, reward: i64, next_state: usize)
        requires
            old(self).wf(),
            (state as int) < old(self).n_states(),
            (action as int) < old(self).n_actions(),
            -REWARD_BOUND <= reward <= REWARD_BOUND,
            (next_state as int) < old(self).n_states(),
        ensures
            final(self).wf(),
            final(self).n_states() == old(self).n_states(),
            final(self).n_actions() == old(self).n_actions(),
            final(self).alpha == old(self).alpha,
            final(self).epsilon == old(self).epsilon,
            final(self).gamma == old(self).gamma,
            final(self).planning_steps == old(self).planning_steps,
            final(self).table() == old(self).table(),
            final(self).model_at(state as int * old(self).n_actions() + action) == Some(
                (reward, next_state),
            ),
    {
        let na = self.q_table[0].len();
        let cap = self.model.len();
        proof {
            lemma_flat_index(state as int, action as int, self.n_states(), self.n_actions());
            assert(state * na <= state * na + action);
        }
        let key = state * na + action;
        if self.model[key].is_none() {
            self.seen.push((state, action));
        }
        self.model[key] = Some((reward, next_state));
    }

    /// What `get_best_action` picks, in public terms: the greedy action over
    /// the listed ones, under this state's row of the table, ties to the
    /// action listed first.
    pub proof fn lemma_best_action_characterization(&self, state: int, avail: Seq<usize>)
        requires
            self.wf(),
            0 <= state < self.n_states(),
        ensures
            self.best_spec(state, avail) == greedy_spec(self.table()[state]@, avail),
            self.table()[state]@.len() == self.n_actions(),
    {
    }

    /// Epsilon-greedy selection among the listed actions: a uniformly random
    /// one with probability epsilon, else the greedy one; always listed.
    pub fn select_action(&self, rng: &mut Prng, state: usize, avail: &[usize]) -> (a: usize)
        requires
            self.wf(),
            (state as int) < self.n_states(),
            1 <= avail@.len(),
            forall|i: int|
                0 <= i < avail@.len() ==> ((#[trigger] avail@[i]) as int) < self.n_actions(),
        ensures
            avail@.contains(a),
    {
        epsilon_greedy(rng, self.epsilon, &self.q_table[state], avail)
    }

    /// Learns from one real transition: the taken pair's entry moves by the
    /// update rule over the next state's listed actions, the transition is
    /// cached, and `planning_steps` replayed updates follow.
    pub fn observe(
        &mut self,
        rng: &mut Prng,
        s: usize,
        a: usize,
        r: i64,
        s_next: usize,
        next_avail: &[usize],
    )
        requires
            old(self).wf(),
            (s as int) < old(self).n_states(),
            (a as int) < old(self).n_actions(),
            -REWARD_BOUND <= r <= REWARD_BOUND,
            (s_next as int) < old(self).n_states(),
            forall|i: int|
                0 <= i < next_avail@.len() ==> ((#[trigger] next_avail@[i]) as int) < old(
                    self,
                ).n_actions(),
        ensures
            final(self).wf(),
            final(self).n_states() == old(self).n_states(),
            final(self).n_actions() == old(self).n_actions(),
            final(self).alpha_spec() == old(self).alpha_spec(),
            final(self).epsilon_spec() == old(self).epsilon_spec(),
            final(self).gamma_spec() == old(self).gamma_spec(),
            final(self).model_at(s as int * old(self).n_actions() + a) == Some((r, s_next)),
            final(self).planning_spec() == old(self).planning_spec(),
            exists|chain: Seq<DynaQ>|
                {
                    &&& chain.len() == old(self).planning_spec() + 1
                    &&& #[trigger] observed_once(
                        *old(self),
                        chain[0],
                        s as int,
                        a as int,
                        r,
                        s_next,
                        next_avail@,
                    )
                    &&& forall|i: int|
                        0 <= i < chain.len() - 1 ==> #[trigger] replay_step(chain[i], chain[i + 1])
                    &&& chain[chain.len() - 1] == *final(self)
                },
    {
        self.update_q_value(s, a, r, s_next, next_avail);
        self.record_transition(s, a, r, s_next);
        let ghost dims = (self.n_states(), self.n_actions());
        let ghost mut chain: Seq<DynaQ> = seq![*self];
        proof {
            assert(observed_once(*old(self), chain[0], s as int, a as int, r, s_next, next_avail@));
        }
        let mut p: usize = 0;
        while p < self.planning_steps
            invariant
                self.wf(),
                self.n_states() == dims.0,
                self.n_actions() == dims.1,
                self.alpha == old(self).alpha,
                self.epsilon == old(self).epsilon,
                self.gamma == old(self).gamma,
                self.planning_steps == old(self).planning_steps,
                self.model_at(s as int * self.n_actions() + a) == Some((r, s_next)),
                p <= self.planning_steps,
                chain.len() == p + 1,
                observed_once(*old(self), chain[0], s as int, a as int, r, s_next, next_avail@),
                forall|i: int|
                    0 <= i < chain.len() - 1 ==> #[trigger] replay_step(chain[i], chain[i + 1]),
                chain[chain.len() - 1] == *self,
            decreases self.planning_steps - p,
        {
            self.planning_step(rng);
            proof {
                chain = chain.push(*self);
                assert(replay_step(chain[chain.len() - 2], chain[chain.len() - 1]));
            }
            p = p + 1;
        }
    }
}

impl RLAlgorithm for DynaQ {
    closed spec fn wf(&self) -> bool {
        &&& grid_wf(self.q_table@, self.q_table@.len() as int, self.n_actions())
        &&& self.q_table@.len() >= 1
        &&& 0 <= self.alpha <= SCALE
        &&& 0 <= self.epsilon <= SCALE
        &&& 0 <= self.gamma < SCALE
        &&& self.model@.len() == self.n_states() * self.n_actions()
        &&& forall|k: int|
            0 <= k < self.model@.len() && (#[trigger] self.model@[k]) is Some ==> {
                &&& -REWARD_BOUND <= self.model@[k].unwrap().0 <= REWARD_BOUND
                &&& (self.model@[k].unwrap().1 as int) < self.n_states()
            }
        &&& forall|i: int|
            0 <= i < self.seen@.len() ==> {
                &&& ((#[trigger] self.seen@[i]).0 as int) < self.n_states()
                &&& (self.seen@[i].1 as int) < self.n_actions()
                &&& 0 <= self.seen@[i].0 as int * self.n_actions() + self.seen@[i].1 as int
                &&& (self.seen@[i].0 as int * self.n_actions() + self.seen@[i].1 as int) < (
                self.model@.len() as int)
                &&& self.model@[self.seen@[i].0 as int * self.n_actions()
                    + self.seen@[i].1 as int] is Some
            }
    }

    closed spec fn n_states(&self) -> int {
        self.q_table@.len() as int
    }

    closed spec fn n_actions(&self) -> int {
        if self.q_table@.len() > 0 {
            self.q_table@[0]@.len() as int
        } else {
            0
        }
    }

    closed spec fn fits(&self, ns: int, na: int) -> bool {
        ns == self.n_states() && na == self.n_actions()
    }

    closed spec fn best_spec(&self, state: int, avail: Seq<usize>) -> usize {
        greedy_spec(self.q_table@[state]@, avail)
    }

    /// Each real step updates one entry by the update rule and caches the
    /// transition, then `planning_steps` replayed updates run; the table
    /// stays well formed and the learning parameters are untouched.
    fn train<E: Environment>(&mut self, env: &mut E, max_episodes: usize) -> (rewards: Vec<i64>) {
        let mut rng = Prng::from_seed(42);
        let mut rewards: Vec<i64> = Vec::new();
        let ns = env.num_states();
        let na = env.num_actions();
        let mut ep: usize = 0;
        while ep < max_episodes
            invariant
                self.wf(),
                env.inv(),
                ns as int == env.states(),
                na as int == env.actions(),
                ns as int == self.n_states(),
                na as int == self.n_actions(),
                rewards@.len() == ep,
                ep <= max_episodes,
                forall|i: int|
                    0 <= i < rewards@.len() ==> -TRAIN_TOTAL_BOUND <= #[trigger] rewards@[i]
                        <= TRAIN_TOTAL_BOUND,
            decreases max_episodes - ep,
        {
            env.reset();
            let mut total: i64 = 0;
            let mut over = env.is_game_over();
            let mut steps: usize = 0;
            while !over && steps < EPISODE_STEP_CAP
                invariant
                    self.wf(),
                    env.inv(),
                    ns as int == env.states(),
                    na as int == env.actions(),
                    ns as int == self.n_states(),
                    na as int == self.n_actions(),
                    over == env.over(),
                    steps <= EPISODE_STEP_CAP,
                    -2_000_000_000 * (steps as int) <= total <= 2_000_000_000 * (steps as int),
                decreases EPISODE_STEP_CAP - steps,
            {
                let s = env.state_id();
                let aa = env.available_actions();
                let a = self.select_action(&mut rng, s, aa.as_slice());
                let before = env.score();
                env.step(a);
                let r = env.score() - before;
                total = total + r;
                let s_next = env.state_id();
                over = env.is_game_over();
                let aa_next = env.available_actions();
                self.observe(&mut rng, s, a, r, s_next, aa_next.as_slice());
                steps = steps + 1;
            }
            rewards.push(total);
            ep = ep + 1;
        }
        rewards
    }

    fn get_best_action(&self, state: usize, available_actions: &[usize]) -> (a: usize) {
        greedy_action(&self.q_table[state], available_actions)
    }
}

} // verus!
