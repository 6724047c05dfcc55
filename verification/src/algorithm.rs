//! The contract shared by every learning algorithm: training against an
//! environment yields one reward total per episode, and the learned policy
//! always picks one of the actions it is offered.

use vstd::prelude::*;
use crate::env::Environment;

verus! {

/// Step bound per training episode, guarding against non-terminating
/// environments.
pub const EPISODE_STEP_CAP: usize = 1000;

/// Largest magnitude a per-episode reward total may take:
/// `EPISODE_STEP_CAP` steps, each within the per-step reward bound.
pub const TRAIN_TOTAL_BOUND: i64 = 4_000_000_000_000;

/// A trainable policy learner.
pub trait RLAlgorithm: Sized {
    /// Internal well-formedness.
    spec fn wf(&self) -> bool;

    /// Number of states the learner is dimensioned for.
    spec fn n_states(&self) -> int;

    /// Number of actions the learner is dimensioned for.
    spec fn n_actions(&self) -> int;

    /// Whether `train` accepts an environment of the given dimensions.
    spec fn fits(&self, ns: int, na: int) -> bool;

    /// The action `get_best_action` picks for a state and an action list.
    spec fn best_spec(&self, state: int, avail: Seq<usize>) -> usize;

    /// Drives the environment for `max_episodes` episodes, updating the
    /// learner's estimates, and returns one reward total per episode.
    fn train<E: Environment>(&mut self, env: &mut E, max_episodes: usize) -> (rewards: Vec<i64>)
        requires
            old(self).wf(),
            old(env).inv(),
            old(self).fits(old(env).states(), old(env).actions()),
        ensures
            final(self).wf(),
            final(env).inv(),
            final(env).states() == old(env).states(),
            final(env).actions() == old(env).actions(),
            final(self).fits(old(env).states(), old(env).actions()),
            rewards@.len() == max_episodes,
            forall|i: int|
                0 <= i < rewards@.len() ==> -TRAIN_TOTAL_BOUND <= #[trigger] rewards@[i]
                    <= TRAIN_TOTAL_BOUND,
    ;

    /// The learner's current choice for a state, always one of the offered
    /// actions. Callers must offer at least one action.
    fn get_best_action(&self, state: usize, available_actions: &[usize]) -> (a: usize)
        requires
            self.wf(),
            (state as int) < self.n_states(),
            available_actions@.len() >= 1,
            forall|i: int|
                0 <= i < available_actions@.len() ==> ((#[trigger] available_actions@[i]) as int)
                    < self.n_actions(),
        ensures
            available_actions@.contains(a),
            a == self.best_spec(state as int, available_actions@),
    ;
}

} // verus!
