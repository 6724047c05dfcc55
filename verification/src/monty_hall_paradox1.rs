//! The three-door guessing game. A prize sits behind one of three doors,
//! drawn at reset. The first action picks a door; one of the remaining
//! losing doors is then revealed at random. The second action keeps the
//! pick (action 0) or switches to the other closed door (action 1); the
//! score becomes one exactly when the final choice hides the prize.

use vstd::prelude::*;
use crate::env::{zero_prob_matrix, zero_reward_matrix, Environment};
use crate::fixed::SCALE;
use crate::rng::Prng;

verus! {

pub struct MontyHall {
    winning_door: usize,
    chosen_door: Option<usize>,
    revealed_door: Option<usize>,
    final_choice: Option<usize>,
    rng: Prng,
}

impl MontyHall {
    /// Whether the final choice won the prize.
    pub closed spec fn won(&self) -> bool {
        self.final_choice == Some(self.winning_door)
    }

    /// The door hiding the prize.
    pub closed spec fn prize_spec(&self) -> int {
        self.winning_door as int
    }

    /// The door picked by the first action, if any.
    pub closed spec fn chosen_spec(&self) -> Option<usize> {
        self.chosen_door
    }

    /// The losing door revealed after the first action, if any.
    pub closed spec fn revealed_spec(&self) -> Option<usize> {
        self.revealed_door
    }

    /// The door held when the game ended, if it has.
    pub closed spec fn choice_spec(&self) -> Option<usize> {
        self.final_choice
    }
}

impl Environment for MontyHall {
    closed spec fn inv(&self) -> bool {
        &&& self.winning_door < 3
        &&& (self.chosen_door is Some <==> self.revealed_door is Some)
        &&& (self.chosen_door is Some ==> self.chosen_door.unwrap() < 3)
        &&& (self.revealed_door is Some ==> self.revealed_door.unwrap() < 3)
        &&& (self.chosen_door is Some ==> self.chosen_door != self.revealed_door)
        &&& (self.final_choice is Some ==> self.final_choice.unwrap() < 3)
        &&& (self.final_choice is Some ==> self.chosen_door is Some)
    }

    closed spec fn states(&self) -> int {
        27
    }

    closed spec fn actions(&self) -> int {
        3
    }

    closed spec fn over(&self) -> bool {
        self.final_choice is Some
    }

    closed spec fn action_ok(&self, a: int) -> bool {
        !self.over() && (if self.chosen_door is Some {
            0 <= a < 2
        } else {
            0 <= a < 3
        })
    }

    /// The prize door is drawn at the first reset; construction itself is
    /// deterministic.
    fn new() -> (e: Self)
        ensures
            e.states() == 27,
            e.actions() == 3,
            !e.over(),
    {
        MontyHall {
            winning_door: 0,
            chosen_door: None,
            revealed_door: None,
            final_choice: None,
            rng: Prng::from_seed(7),
        }
    }

    fn num_states(&self) -> (n: usize) {
        27
    }

    fn num_actions(&self) -> (n: usize) {
        3
    }

    fn state_id(&self) -> (s: usize) {
        let chosen = match self.chosen_door {
            Some(c) => c,
            None => 0,
        };
        let revealed = match self.revealed_door {
            Some(r) => r,
            None => 0,
        };
        self.winning_door * 9 + chosen * 3 + revealed
    }

    fn reset(&mut self)
        ensures
            !final(self).over(),
    {
        let door = self.rng.below(3);
        self.winning_door = door;
        self.chosen_door = None;
        self.revealed_door = None;
        self.final_choice = None;
    }

    fn is_game_over(&self) -> (b: bool) {
        self.final_choice.is_some()
    }

    fn available_actions(&self) -> (aa: Vec<usize>) {
        let mut aa: Vec<usize> = Vec::new();
        if self.final_choice.is_some() {
            return aa;
        }
        if self.chosen_door.is_none() {
            aa.push(0);
            aa.push(1);
            aa.push(2);
        } else {
            aa.push(0);
            aa.push(1);
        }
        aa
    }

    fn score(&self) -> (sc: i64)
        ensures
            sc == if self.won() {
                SCALE as int
            } else {
                0int
            },
    {
        match self.final_choice {
            Some(f) => if f == self.winning_door {
                SCALE
            } else {
                0
            },
            None => 0,
        }
    }

    /// The first action records the pick and reveals one door that differs
    /// from both the pick and the prize, whichever reveal the draw lands on.
    /// The second action settles the final choice: the other closed door on
    /// a switch, the original pick otherwise; the game is then over and is
    /// won exactly when the final choice is the prize door.
    fn step(&mut self, action: usize)
        ensures
            final(self).prize_spec() == old(self).prize_spec(),
            old(self).chosen_spec() is None ==> {
                &&& final(self).chosen_spec() == Some(action)
                &&& final(self).revealed_spec() is Some
                &&& final(self).revealed_spec().unwrap() < 3
                &&& final(self).revealed_spec().unwrap() != action
                &&& (final(self).revealed_spec().unwrap() as int) != final(self).prize_spec()
                &&& !final(self).over()
            },
            old(self).chosen_spec() is Some ==> {
                &&& final(self).over()
                &&& final(self).choice_spec() == Some(
                    if action == 1 {
                        (3 - old(self).chosen_spec().unwrap()
                            - old(self).revealed_spec().unwrap()) as usize
                    } else {
                        old(self).chosen_spec().unwrap()
                    },
                )
                &&& (final(self).won() <==> (final(self).choice_spec().unwrap() as int)
                    == final(self).prize_spec())
            },
    {
        match self.chosen_door {
            None => {
                self.chosen_door = Some(action);
                // Some door always differs from both the pick and the prize.
                let witness: usize = if action != 0 && self.winning_door != 0 {
                    0
                } else if action != 1 && self.winning_door != 1 {
                    1
                } else {
                    2
                };
                let mut doors: Vec<usize> = Vec::new();
                let mut d: usize = 0;
                while d < 3
                    invariant
                        d <= 3,
                        action < 3,
                        self.winning_door < 3,
                        witness < 3,
                        witness != action && witness != self.winning_door,
                        forall|i: int|
                            0 <= i < doors@.len() ==> (#[trigger] doors@[i]) < 3
                                && doors@[i] != action && doors@[i] != self.winning_door,
                        d > witness ==> doors@.len() >= 1,
                    decreases 3 - d,
                {
                    if d != action && d != self.winning_door {
                        doors.push(d);
                    }
                    d = d + 1;
                }
                let pick = self.rng.below(doors.len());
                self.revealed_door = Some(doors[pick]);
            },
            Some(chosen) => {
                let revealed = match self.revealed_door {
                    Some(r) => r,
                    None => 0,
                };
                if action == 1 {
                    self.final_choice = Some(3 - chosen - revealed);
                } else {
                    self.final_choice = Some(chosen);
                }
            },
        }
    }

    /// This game has no usable planning model.
    fn transition_probabilities(&self) -> (p: Vec<Vec<Vec<i64>>>) {
        zero_prob_matrix(27, 3)
    }

    /// This game has no usable planning model.
    fn reward_function(&self) -> (rw: Vec<Vec<i64>>) {
        zero_reward_matrix(27, 3)
    }
}

} // verus!
