//! Experience replay over a per-state-action weight table. A bounded
//! first-in-first-out memory stores transitions; once it holds a batch, each
//! real step is followed by temporal-difference updates on a uniformly
//! sampled batch. Despite the name this is tabular learning with replay, not
//! a function approximator with shared parameters.

use vstd::prelude::*;
use crate::algorithm::{RLAlgorithm, EPISODE_STEP_CAP, TRAIN_TOTAL_BOUND};
use crate::env::Environment;
use crate::fixed::{td_step, td_target, REWARD_BOUND, SCALE};
use crate::qtable::{
    all_actions, apply_td_update, best_value, epsilon_greedy, greedy_action, greedy_spec, grid_wf,
    idents, max_over, rows_of,
};
use crate::rng::Prng;

verus! {

/// One observed step: where it started, what was done, what it paid, where
/// it landed, and whether the episode ended there.
#[derive(Clone, Copy, PartialEq, Eq, Structural)]
pub struct Transition {
    pub state: usize,
    pub action: usize,
    pub reward: i64,
    pub next_state: usize,
    pub done: bool,
}

/// Whether a batch was taken from pairwise distinct positions of a stock:
/// the index sequence locates each entry, and no position repeats.
pub open spec fn drawn_without_replacement(
    batch: Seq<Transition>,
    stock: Seq<Transition>,
    idx: Seq<int>,
) -> bool {
    &&& idx.len() == batch.len()
    &&& forall|k: int|
        0 <= k < idx.len() ==> 0 <= #[trigger] idx[k] < stock.len() && batch[k] == stock[idx[k]]
    &&& forall|k1: int, k2: int| 0 <= k1 < k2 < idx.len() ==> idx[k1] != idx[k2]
}

/// The table of rows after replaying the first `n` transitions of a batch in
/// order: each transition moves its own entry one temporal-difference step
/// toward its reward plus the discounted best estimate over all `na` actions
/// of its recorded next state at replay time, zero when it ended an episode.
pub open spec fn replay_fold(
    rows: Seq<Seq<i64>>,
    batch: Seq<Transition>,
    alpha: int,
    gamma: int,
    na: int,
    n: int,
) -> Seq<Seq<i64>>
    decreases n,
{
    if n <= 0 {
        rows
    } else {
        let prev = replay_fold(rows, batch, alpha, gamma, na, n - 1);
        let t = batch[n - 1];
        let m = if t.done {
            0int
        } else {
            max_over(prev[t.next_state as int], idents(na), na)
        };
        let v = td_step(
            prev[t.state as int][t.action as int] as int,
            alpha,
            td_target(t.reward as int, gamma, m),
        );
        prev.update(t.state as int, prev[t.state as int].update(t.action as int, v as i64))
    }
}

/// A bounded first-in-first-out store of transitions. Pushing onto a full
/// memory evicts the oldest entry; the length never exceeds the capacity.
pub struct ReplayMemory {
    transitions: Vec<Transition>,
    capacity: usize,
}

impl ReplayMemory {
    /// The stored transitions, oldest first.
    pub closed spec fn contents(&self) -> Seq<Transition> {
        self.transitions@
    }

    /// The bound on how many transitions are kept.
    pub closed spec fn cap(&self) -> int {
        self.capacity as int
    }

    /// The memory never holds more than its capacity.
    pub closed spec fn wf(&self) -> bool {
        self.transitions@.len() <= self.capacity && self.capacity >= 1
    }

    pub fn new(capacity: usize) -> (r: ReplayMemory)
        requires
            capacity >= 1,
        ensures
            r.wf(),
            r.cap() == capacity,
            r.contents() == Seq::<Transition>::empty(),
    {
        ReplayMemory { transitions: Vec::new(), capacity }
    }

    /// Appends a transition; when the memory is full, the oldest entry is
    /// evicted first, so the length never exceeds the capacity.
    pub fn push(&mut self, transition: Transition)
        requires
            old(self).wf(),
        ensures
            final(self).wf(),
            final(self).cap() == old(self).cap(),
            final(self).contents() == if old(self).contents().len() < old(self).cap() {
                old(self).contents().push(transition)
            } else {
                old(self).contents().drop_first().push(transition)
            },
    {
        if self.transitions.len() >= self.capacity {
            self.transitions.remove(0);
            proof {
                assert(self.transitions@ =~= old(self).contents().drop_first());
            }
        }
        self.transitions.push(transition);
    }

    /// A batch drawn uniformly without replacement: as many entries as
    /// requested (fewer only if the memory holds fewer), taken from pairwise
    /// distinct positions of the stored transitions.
    pub fn sample(&self, batch_size: usize, rng: &mut Prng) -> (batch: Vec<Transition>)
        ensures
            batch@.len() == if batch_size <= self.contents().len() {
                batch_size as int
            } else {
                self.contents().len() as int
            },
            forall|i: int| 0 <= i < batch@.len() ==> self.contents().contains(#[trigger] batch@[i]),
            exists|idx: Seq<int>| #[trigger] drawn_without_replacement(
                batch@,
                self.contents(),
                idx,
            ),
    {
        let n = self.transitions.len();
        let take = if batch_size < n {
            batch_size
        } else {
            n
        };
        let mut indices = all_actions(n);
        let mut batch: Vec<Transition> = Vec::new();
        let ghost mut picked: Seq<int> = Seq::empty();
        let mut i: usize = 0;
        while i < take
            invariant
                i <= take <= n,
                n == self.contents().len(),
                indices@.len() == n,
                forall|k: int| 0 <= k < n ==> (#[trigger] indices@[k]) < n,
                forall|k1: int, k2: int|
                    0 <= k1 < k2 < n ==> indices@[k1] != indices@[k2],
                picked.len() == i,
                forall|k: int| 0 <= k < i ==> #[trigger] picked[k] == indices@[k] as int,
                batch@.len() == i,
                forall|k: int|
                    0 <= k < i ==> 0 <= #[trigger] picked[k] < n && batch@[k]
                        == self.contents()[picked[k]],
                forall|k: int|
                    0 <= k < batch@.len() ==> self.contents().contains(#[trigger] batch@[k]),
            decreases take - i,
        {
            let j = i + rng.below(n - i);
            let idx_j = indices[j];
            let idx_i = indices[i];
            indices[j] = idx_i;
            indices[i] = idx_j;
            let t = self.transitions[idx_j];
            proof {
                assert(self.contents()[idx_j as int] == t);
                picked = picked.push(idx_j as int);
            }
            batch.push(t);
            i = i + 1;
        }
        proof {
            assert(drawn_without_replacement(batch@, self.contents(), picked));
        }
        batch
    }

    /// The stored transition at a position, oldest first.
    pub fn get(&self, i: usize) -> (t: Transition)
        requires
            i < self.contents().len(),
        ensures
            t == self.contents()[i as int],
    {
        self.transitions[i]
    }

    pub fn len(&self) -> (n: usize)
        ensures
            n as int == self.contents().len(),
    {
        self.transitions.len()
    }
}

/// After a push the memory holds one more transition, up to its capacity,
/// and never more: the new contents are the old ones (without the oldest,
/// when full) followed by the pushed transition.
pub proof fn lemma_push_fifo(s: Seq<Transition>, cap: int, t: Transition)
    requires
        s.len() <= cap,
        cap >= 1,
    ensures
        ({
            let s2 = if s.len() < cap {
                s.push(t)
            } else {
                s.drop_first().push(t)
            };
            &&& s2.len() <= cap
            &&& s2.len() == if s.len() < cap {
                s.len() + 1
            } else {
                cap as nat
            }
            &&& s2[s2.len() - 1] == t
            &&& (s.len() == cap ==> forall|i: int| 0 <= i < cap - 1 ==> s2[i] == s[i + 1])
        }),
{
}

/// Whether every stored transition refers to valid states, actions, and a
/// bounded reward.
pub open spec fn transitions_valid(s: Seq<Transition>, ns: int, na: int) -> bool {
    forall|i: int|
        0 <= i < s.len() ==> {
            &&& ((#[trigger] s[i]).state as int) < ns
            &&& (s[i].action as int) < na
            &&& (s[i].next_state as int) < ns
            &&& -REWARD_BOUND <= s[i].reward <= REWARD_BOUND
        }
}

pub struct DQN {
    weights: Vec<Vec<i64>>,
    epsilon: i64,
    alpha: i64,
    gamma: i64,
    memory: ReplayMemory,
    batch_size: usize,
}

impl DQN {
    /// The weight table, one row per state.
    pub closed spec fn table(&self) -> Seq<Vec<i64>> {
        self.weights@
    }

    /// How many transitions the replay memory currently holds.
    pub closed spec fn memory_size(&self) -> int {
        self.memory.contents().len() as int
    }

    /// The replay memory's capacity.
    pub closed spec fn memory_cap(&self) -> int {
        self.memory.cap()
    }

    /// The stored transitions, oldest first.
    pub closed spec fn memory_contents(&self) -> Seq<Transition> {
        self.memory.contents()
    }

    /// Learning rate, in `[0, 1]`.
    pub closed spec fn alpha_spec(&self) -> int {
        self.alpha as int
    }

    /// Exploration probability, in `[0, 1]`.
    pub closed spec fn epsilon_spec(&self) -> int {
        self.epsilon as int
    }

    /// Discount, in `[0, 1)`.
    pub closed spec fn gamma_spec(&self) -> int {
        self.gamma as int
    }

    /// The batch size replayed after each real step.
    pub closed spec fn batch_spec(&self) -> int {
        self.batch_size as int
    }

    /// A learner with small pseudo-random initial weights and an empty
    /// replay memory. The discount must lie strictly below one: that keeps
    /// every estimate within the representable value bound.
    pub fn new(
        num_states: usize,
        num_actions: usize,
        alpha: i64,
        epsilon: i64,
        gamma: i64,
        memory_capacity: usize,
        batch_size: usize,
    ) -> (r: DQN)
        requires
            num_states >= 1,
            num_actions >= 1,
            0 <= alpha <= SCALE,
            0 <= epsilon <= SCALE,
            0 <= gamma < SCALE,
            memory_capacity >= 1,
            batch_size >= 1,
        ensures
            r.wf(),
            r.fits(num_states as int, num_actions as int),
            r.n_states() == num_states,
            r.n_actions() == num_actions,
            r.table().len() == num_states,
            forall|s: int| 0 <= s < num_states ==> (#[trigger] r.table()[s])@.len() == num_actions,
            forall|s: int, a: int|
                0 <= s < num_states && 0 <= a < num_actions ==> -100_000
                    <= #[trigger] r.table()[s]@[a] < 100_000,
            r.alpha_spec() == alpha,
            r.epsilon_spec() == epsilon,
            r.gamma_spec() == gamma,
            r.batch_spec() == batch_size,
            r.memory_size() == 0,
            r.memory_cap() == memory_capacity,
    {
        let mut rng = Prng::from_seed(1234);
        let mut weights: Vec<Vec<i64>> = Vec::new();
        let mut s: usize = 0;
        while s < num_states
            invariant
                s <= num_states,
                weights@.len() == s,
                forall|t: int| 0 <= t < s ==> (#[trigger] weights@[t])@.len() == num_actions,
                forall|t: int, a: int|
                    0 <= t < s && 0 <= a < num_actions ==> -100_000 <= #[trigger] weights@[t]@[a]
                        < 100_000,
            decreases num_states - s,
        {
            let mut row: Vec<i64> = Vec::new();
            let mut a: usize = 0;
            while a < num_actions
                invariant
                    a <= num_actions,
                    row@.len() == a,
                    forall|b: int| 0 <= b < a ==> -100_000 <= #[trigger] row@[b] < 100_000,
                decreases num_actions - a,
            {
                let draw = rng.below(200_000);
                row.push((draw as i64) - 100_000);
                a = a + 1;
            }
            weights.push(row);
            s = s + 1;
        }
        DQN {
            weights,
            alpha,
            epsilon,
            gamma,
            memory: ReplayMemory::new(memory_capacity),
            batch_size,
        }
    }

    /// Rebuilds a learner from serialized parts, accepting exactly the valid
    /// ones: a rectangular bounded weight table, rates in range, a positive
    /// capacity and batch size. The replay memory restarts empty.
    pub fn from_parts(
        weights: Vec<Vec<i64>>,
        alpha: i64,
        epsilon: i64,
        gamma: i64,
        memory_capacity: usize,
        batch_size: usize,
    ) -> (r: Option<DQN>)
        ensures
            r is Some <==> (crate::qtable::grid_parts_valid(weights@) && 0 <= alpha <= SCALE && 0
                <= epsilon <= SCALE && 0 <= gamma < SCALE && memory_capacity >= 1 && batch_size
                >= 1),
            r is Some ==> {
                &&& r.unwrap().wf()
                &&& r.unwrap().n_states() == weights@.len()
                &&& r.unwrap().n_actions() == weights@[0]@.len()
                &&& r.unwrap().table() == weights@
                &&& r.unwrap().alpha_spec() == alpha
                &&& r.unwrap().epsilon_spec() == epsilon
                &&& r.unwrap().gamma_spec() == gamma
                &&& r.unwrap().batch_spec() == batch_size
                &&& r.unwrap().memory_size() == 0
                &&& r.unwrap().memory_cap() == memory_capacity
            },
    {
        if !crate::qtable::check_grid(&weights) {
            return None;
        }
        if !(0 <= alpha && alpha <= SCALE) {
            return None;
        }
        if !(0 <= epsilon && epsilon <= SCALE) {
            return None;
        }
        if !(0 <= gamma && gamma < SCALE) {
            return None;
        }
        if memory_capacity < 1 || batch_size < 1 {
            return None;
        }
        Some(DQN {
            weights,
            alpha,
            epsilon,
            gamma,
            memory: ReplayMemory::new(memory_capacity),
            batch_size,
        })
    }

    /// The weight table.
    pub fn get_weights(&self) -> (r: &Vec<Vec<i64>>)
        ensures
            r@ == self.table(),
    {
        &self.weights
    }

    /// How many transitions the replay memory currently holds: never more
    /// than its capacity.
    pub fn memory_len(&self) -> (n: usize)
        requires
            self.wf(),
        ensures
            n as int == self.memory_size(),
            n <= self.memory_cap(),
    {
        self.memory.len()
    }

    /// What `get_best_action` picks, in public terms: the greedy action over
    /// the listed ones, under this state's row of weights, ties to the
    /// action listed first.
    pub proof fn lemma_best_action_characterization(&self, state: int, avail: Seq<usize>)
        requires
            self.wf(),
            0 <= state < self.n_states(),
        ensures
            self.best_spec(state, avail) == greedy_spec(self.table()[state]@, avail),
            self.table()[state]@.len() == self.n_actions(),
    {
    }

    /// Epsilon-greedy selection among the listed actions: a uniformly random
    /// one with probability epsilon, else the greedy one; always listed.
    pub fn select_action(&self, rng: &mut Prng, state: usize, avail: &[usize]) -> (a: usize)
        requires
            self.wf(),
            (state as int) < self.n_states(),
            1 <= avail@.len(),
            forall|i: int|
                0 <= i < avail@.len() ==> ((#[trigger] avail@[i]) as int) < self.n_actions(),
        ensures
            avail@.contains(a),
    {
        epsilon_greedy(rng, self.epsilon, &self.weights[state], avail)
    }

    /// Learns from one observed transition: it is stored first-in-first-out;
    /// once the memory holds a batch, a uniformly sampled batch of stored
    /// transitions is replayed, each updating its own entry by the
    /// temporal-difference rule with the best value of its recorded next
    /// state (zero on terminal transitions).
    pub fn observe(&mut self, rng: &mut Prng, s: usize, a: usize, r: i64, s_next: usize, over: bool)
        requires
            old(self).wf(),
            (s as int) < old(self).n_states(),
            (a as int) < old(self).n_actions(),
            -REWARD_BOUND <= r <= REWARD_BOUND,
            (s_next as int) < old(self).n_states(),
        ensures
            final(self).wf(),
            final(self).n_states() == old(self).n_states(),
            final(self).n_actions() == old(self).n_actions(),
            final(self).alpha_spec() == old(self).alpha_spec(),
            final(self).epsilon_spec() == old(self).epsilon_spec(),
            final(self).gamma_spec() == old(self).gamma_spec(),
            final(self).batch_spec() == old(self).batch_spec(),
            final(self).memory_cap() == old(self).memory_cap(),
            final(self).memory_contents() == ({
                let t = Transition { state: s, action: a, reward: r, next_state: s_next, done: over };
                if old(self).memory_contents().len() < old(self).memory_cap() {
                    old(self).memory_contents().push(t)
                } else {
                    old(self).memory_contents().drop_first().push(t)
                }
            }),
            final(self).memory_contents().len() < old(self).batch_spec() ==> final(self).table()
                == old(self).table(),
            final(self).memory_contents().len() >= old(self).batch_spec() ==> exists|
                batch: Seq<Transition>,
                idx: Seq<int>,
            |
                {
                    &&& #[trigger] drawn_without_replacement(
                        batch,
                        final(self).memory_contents(),
                        idx,
                    )
                    &&& batch.len() == old(self).batch_spec()
                    &&& rows_of(final(self).table()) == replay_fold(
                        rows_of(old(self).table()),
                        batch,
                        old(self).alpha_spec(),
                        old(self).gamma_spec(),
                        old(self).n_actions(),
                        batch.len() as int,
                    )
                },
    {
        let ns = self.weights.len();
        let na = self.weights[0].len();
        self.memory.push(Transition { state: s, action: a, reward: r, next_state: s_next, done: over });
        if self.memory.len() >= self.batch_size {
            let minibatch = self.memory.sample(self.batch_size, rng);
            let ghost mem0 = self.memory.contents();
            let ghost cap0 = self.memory.cap();
            let ghost w0 = rows_of(self.weights@);
            let ghost a0 = self.alpha as int;
            let ghost g0 = self.gamma as int;
            let mut b: usize = 0;
            while b < minibatch.len()
                invariant
                    self.wf(),
                    ns as int == self.n_states(),
                    na as int == self.n_actions(),
                    self.alpha == old(self).alpha,
                    self.epsilon == old(self).epsilon,
                    self.gamma == old(self).gamma,
                    self.batch_size == old(self).batch_size,
                    self.memory.contents() == mem0,
                    self.memory.cap() == cap0,
                    a0 == self.alpha as int,
                    g0 == self.gamma as int,
                    b <= minibatch@.len(),
                    rows_of(self.weights@) == replay_fold(
                        w0,
                        minibatch@,
                        a0,
                        g0,
                        na as int,
                        b as int,
                    ),
                    forall|k: int|
                        0 <= k < minibatch@.len() ==> {
                            &&& ((#[trigger] minibatch@[k]).state as int) < ns
                            &&& (minibatch@[k].action as int) < na
                            &&& (minibatch@[k].next_state as int) < ns
                            &&& -REWARD_BOUND <= minibatch@[k].reward <= REWARD_BOUND
                        },
                decreases minibatch@.len() - b,
            {
                let t = minibatch[b];
                let m = if t.done {
                    0
                } else {
                    let every = all_actions(na);
                    best_value(&self.weights[t.next_state], every.as_slice())
                };
                apply_td_update(
                    &mut self.weights,
                    ns,
                    na,
                    t.state,
                    t.action,
                    self.alpha,
                    self.gamma,
                    t.reward,
                    m,
                );
                proof {
                    assert(rows_of(self.weights@) =~~= replay_fold(
                        w0,
                        minibatch@,
                        a0,
                        g0,
                        na as int,
                        b + 1,
                    ));
                }
                b = b + 1;
            }
            proof {
                let idx = choose|idx: Seq<int>|
                    drawn_without_replacement(minibatch@, mem0, idx);
                assert(drawn_without_replacement(minibatch@, self.memory.contents(), idx));
                assert(rows_of(self.table()) == replay_fold(
                    rows_of(old(self).table()),
                    minibatch@,
                    old(self).alpha_spec(),
                    old(self).gamma_spec(),
                    old(self).n_actions(),
                    minibatch@.len() as int,
                ));
            }
        }
    }
}

impl RLAlgorithm for DQN {
    closed spec fn wf(&self) -> bool {
        &&& grid_wf(self.weights@, self.weights@.len() as int, self.n_actions())
        &&& self.weights@.len() >= 1
        &&& 0 <= self.alpha <= SCALE
        &&& 0 <= self.epsilon <= SCALE
        &&& 0 <= self.gamma < SCALE
        &&& self.memory.wf()
        &&& self.batch_size >= 1
        &&& transitions_valid(self.memory.contents(), self.n_states(), self.n_actions())
    }

    closed spec fn n_states(&self) -> int {
        self.weights@.len() as int
    }

    closed spec fn n_actions(&self) -> int {
        if self.weights@.len() > 0 {
            self.weights@[0]@.len() as int
        } else {
            0
        }
    }

    closed spec fn fits(&self, ns: int, na: int) -> bool {
        ns == self.n_states() && na == self.n_actions()
    }

    closed spec fn best_spec(&self, state: int, avail: Seq<usize>) -> usize {
        greedy_spec(self.weights@[state]@, avail)
    }

    /// Each real step stores its transition; once the memory holds a batch,
    /// a uniformly sampled batch of stored transitions is replayed, each one
    /// updating its own entry by the temporal-difference rule with the best
    /// value of its recorded next state (zero on terminal transitions).
    fn train<E: Environment>(&mut self, env: &mut E, max_episodes: usize) -> (rewards: Vec<i64>) {
        let mut rng = Prng::from_seed(42);
        let mut rewards: Vec<i64> = Vec::new();
        let ns = env.num_states();
        let na = env.num_actions();
        let mut ep: usize = 0;
        while ep < max_episodes
            invariant
                self.wf(),
                env.inv(),
                ns as int == env.states(),
                na as int == env.actions(),
                ns as int == self.n_states(),
                na as int == self.n_actions(),
                rewards@.len() == ep,
                ep <= max_episodes,
                forall|i: int|
                    0 <= i < rewards@.len() ==> -TRAIN_TOTAL_BOUND <= #[trigger] rewards@[i]
                        <= TRAIN_TOTAL_BOUND,
            decreases max_episodes - ep,
        {
            env.reset();
            let mut total: i64 = 0;
            let mut s = env.state_id();
            let mut over = env.is_game_over();
            let mut steps: usize = 0;
            while !over && steps < EPISODE_STEP_CAP
                invariant
                    self.wf(),
                    env.inv(),
                    ns as int == env.states(),
                    na as int == env.actions(),
                    ns as int == self.n_states(),
                    na as int == self.n_actions(),
                    (s as int) < env.states(),
                    over == env.over(),
                    steps <= EPISODE_STEP_CAP,
                    -2_000_000_000 * (steps as int) <= total <= 2_000_000_000 * (steps as int),
                decreases EPISODE_STEP_CAP - steps,
            {
                let aa = env.available_actions();
                let a = self.select_action(&mut rng, s, aa.as_slice());
                let before = env.score();
                env.step(a);
                let r = env.score() - before;
                total = total + r;
                let s_next = env.state_id();
                over = env.is_game_over();
                self.observe(&mut rng, s, a, r, s_next, over);
                s = s_next;
                steps = steps + 1;
            }
            rewards.push(total);
            ep = ep + 1;
        }
        rewards
    }

    fn get_best_action(&self, state: usize, available_actions: &[usize]) -> (a: usize) {
        greedy_action(&self.weights[state], available_actions)
    }
}

} // verus!
