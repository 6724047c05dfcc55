//! Two rounds of rock-paper-scissors against a scripted opponent: a random
//! move in the first round, a copy of the agent's first move in the second.
//! The score accumulates one per round won and minus one per round lost. In
//! human mode an externally supplied opponent move is consumed instead; when
//! none has been supplied, a random one is drawn.

use vstd::prelude::*;
use crate::env::{zero_prob_matrix, zero_reward_matrix, Environment};
use crate::fixed::SCALE;
use crate::rng::Prng;

verus! {

/// The payoff of one round, from the agent's side: one for a win, minus one
/// for a loss, zero for a draw.
pub open spec fn round_outcome(agent: int, opponent: int) -> int {
    if agent == opponent {
        0
    } else if (agent == 0 && opponent == 2) || (agent == 1 && opponent == 0) || (agent == 2
        && opponent == 1) {
        SCALE as int
    } else {
        -SCALE as int
    }
}

pub struct RPS {
    current_round: usize,
    max_rounds: usize,
    player_score: i64,
    agent_last_move: Option<usize>,
    human_mode: bool,
    pending_opponent_move: Option<usize>,
    rng: Prng,
}

impl RPS {
    /// The score accumulated so far.
    pub closed spec fn score_spec(&self) -> int {
        self.player_score as int
    }

    /// Which round is being played next.
    pub closed spec fn round(&self) -> int {
        self.current_round as int
    }

    /// The agent's remembered first move, if a round has been played.
    pub closed spec fn remembered(&self) -> Option<usize> {
        self.agent_last_move
    }

    /// A fresh game. In human mode the opponent's moves are supplied from
    /// outside through `set_next_opponent_move`.
    pub fn new_with_mode(human_mode: bool) -> (e: RPS)
        ensures
            e.inv(),
            e.round() == 0,
            e.score_spec() == 0,
            e.states() == 4,
            e.actions() == 3,
            !e.over(),
    {
        RPS {
            current_round: 0,
            max_rounds: 2,
            player_score: 0,
            agent_last_move: None,
            human_mode,
            pending_opponent_move: None,
            rng: Prng::from_seed(3),
        }
    }

    /// Supplies the opponent move the next step will consume (human mode).
    pub fn set_next_opponent_move(&mut self, m: usize)
        requires
            old(self).inv(),
            m < 3,
        ensures
            final(self).inv(),
            final(self).states() == old(self).states(),
            final(self).actions() == old(self).actions(),
    {
        self.pending_opponent_move = Some(m);
    }

    /// The payoff of one round, from the agent's side.
    pub fn calculate_round_outcome(&self, agent_move: usize, opponent_move: usize) -> (r: i64)
        ensures
            r as int == round_outcome(agent_move as int, opponent_move as int),
    {
        if agent_move == opponent_move {
            0
        } else if (agent_move == 0 && opponent_move == 2) || (agent_move == 1 && opponent_move
            == 0) || (agent_move == 2 && opponent_move == 1) {
            SCALE
        } else {
            -SCALE
        }
    }

    /// The opponent's move for this round: the supplied one in human mode,
    /// else random in the first round and a copy of the agent's first move in
    /// the second.
    fn get_opponent_move(&mut self) -> (m: usize)
        requires
            old(self).inv(),
        ensures
            final(self).inv(),
            m < 3,
            final(self).current_round == old(self).current_round,
            final(self).max_rounds == old(self).max_rounds,
            final(self).player_score == old(self).player_score,
            final(self).agent_last_move == old(self).agent_last_move,
            final(self).human_mode == old(self).human_mode,
    {
        if self.human_mode {
            let m = match self.pending_opponent_move {
                Some(p) => if p < 3 {
                    p
                } else {
                    0
                },
                None => self.rng.below(3),
            };
            self.pending_opponent_move = None;
            m
        } else {
            if self.current_round == 0 {
                self.rng.below(3)
            } else {
                match self.agent_last_move {
                    Some(last) => last,
                    None => 0,
                }
            }
        }
    }
}

impl Environment for RPS {
    closed spec fn inv(&self) -> bool {
        &&& self.max_rounds == 2
        &&& self.current_round <= 2
        &&& (self.agent_last_move is Some ==> self.agent_last_move.unwrap() < 3)
        &&& (self.current_round >= 1 ==> self.agent_last_move is Some)
        &&& -1_000_000 * (self.current_round as int) <= self.player_score
        &&& self.player_score <= 1_000_000 * (self.current_round as int)
    }

    closed spec fn states(&self) -> int {
        4
    }

    closed spec fn actions(&self) -> int {
        3
    }

    closed spec fn over(&self) -> bool {
        self.current_round >= 2
    }

    closed spec fn action_ok(&self, a: int) -> bool {
        !self.over() && 0 <= a < 3
    }

    fn new() -> (e: Self)
        ensures
            e.states() == 4,
            e.actions() == 3,
            !e.over(),
    {
        RPS::new_with_mode(false)
    }

    fn num_states(&self) -> (n: usize) {
        4
    }

    fn num_actions(&self) -> (n: usize) {
        3
    }

    fn state_id(&self) -> (s: usize) {
        match self.agent_last_move {
            None => 3,
            Some(last) => last,
        }
    }

    fn reset(&mut self)
        ensures
            !final(self).over(),
            final(self).score_spec() == 0,
            final(self).round() == 0,
    {
        self.current_round = 0;
        self.player_score = 0;
        self.agent_last_move = None;
        self.pending_opponent_move = None;
    }

    fn is_game_over(&self) -> (b: bool) {
        self.current_round >= self.max_rounds
    }

    fn available_actions(&self) -> (aa: Vec<usize>) {
        let mut aa: Vec<usize> = Vec::new();
        if self.current_round < self.max_rounds {
            aa.push(0);
            aa.push(1);
            aa.push(2);
        }
        aa
    }

    fn score(&self) -> (sc: i64)
        ensures
            sc as int == self.score_spec(),
    {
        self.player_score
    }

    /// Plays one round: the opponent's move is resolved, the payoff added to
    /// the score, and the agent's first-round move remembered.
    /// One round: the score moves by the outcome of the agent's move against
    /// some opponent move, the round counter advances, and the first round
    /// records the agent's move for the copying opponent.
    fn step(&mut self, action: usize)
        ensures
            final(self).round() == old(self).round() + 1,
            old(self).round() == 0 ==> final(self).remembered() == Some(action),
            old(self).round() >= 1 ==> final(self).remembered() == old(self).remembered(),
            exists|opp: int|
                0 <= opp < 3 && final(self).score_spec() == old(self).score_spec()
                    + #[trigger] round_outcome(action as int, opp),
    {
        let opponent_move = self.get_opponent_move();
        let round_score = self.calculate_round_outcome(action, opponent_move);
        if self.current_round == 0 {
            self.agent_last_move = Some(action);
        }
        self.player_score = self.player_score + round_score;
        self.current_round = self.current_round + 1;
        proof {
            assert((opponent_move as int) < 3);
            assert(self.player_score as int == old(self).player_score as int + round_outcome(
                action as int,
                opponent_move as int,
            ));
        }
    }

    /// This game has no usable planning model.
    fn transition_probabilities(&self) -> (p: Vec<Vec<Vec<i64>>>) {
        zero_prob_matrix(4, 3)
    }

    /// This game has no usable planning model.
    fn reward_function(&self) -> (rw: Vec<Vec<i64>>) {
        zero_reward_matrix(4, 3)
    }
}

} // verus!
