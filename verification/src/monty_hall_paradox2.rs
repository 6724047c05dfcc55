//! The five-door variant of the guessing game. The first action picks one of
//! five doors; one losing door is revealed at random. The second action
//! keeps the pick (action 0) or switches (action 1) to the lowest-numbered
//! other closed door; the score becomes one exactly when the final choice
//! hides the prize. A step counter also ends the episode after four actions.

use vstd::prelude::*;
use crate::env::{zero_prob_matrix, zero_reward_matrix, Environment};
use crate::fixed::SCALE;
use crate::rng::Prng;

verus! {

pub struct MontyHall2 {
    winning_door: usize,
    chosen_door: Option<usize>,
    revealed_door: Option<usize>,
    final_choice: Option<usize>,
    actions_taken: usize,
    rng: Prng,
}

/// The lowest-numbered of five doors that is neither `c` nor `r`. With `c`
/// and `r` distinct it always lies among the first three doors.
pub open spec fn lowest_other(c: int, r: int) -> int {
    if c != 0 && r != 0 {
        0
    } else if c != 1 && r != 1 {
        1
    } else {
        2
    }
}

impl MontyHall2 {
    /// Whether the final choice won the prize.
    pub closed spec fn won(&self) -> bool {
        self.final_choice == Some(self.winning_door)
    }

    /// The door hiding the prize.
    pub closed spec fn prize_spec(&self) -> int {
        self.winning_door as int
    }

    /// The door picked by the first action, if any.
    pub closed spec fn chosen_spec(&self) -> Option<usize> {
        self.chosen_door
    }

    /// The losing door revealed after the first action, if any.
    pub closed spec fn revealed_spec(&self) -> Option<usize> {
        self.revealed_door
    }

    /// The door held when the game ended, if it has.
    pub closed spec fn choice_spec(&self) -> Option<usize> {
        self.final_choice
    }

    /// How many actions the episode has consumed.
    pub closed spec fn steps_spec(&self) -> int {
        self.actions_taken as int
    }
}

impl Environment for MontyHall2 {
    closed spec fn inv(&self) -> bool {
        &&& self.winning_door < 5
        &&& (self.chosen_door is Some <==> self.revealed_door is Some)
        &&& (self.chosen_door is Some ==> self.chosen_door.unwrap() < 5)
        &&& (self.revealed_door is Some ==> self.revealed_door.unwrap() < 5)
        &&& (self.chosen_door is Some ==> self.chosen_door != self.revealed_door)
        &&& (self.final_choice is Some ==> self.final_choice.unwrap() < 5)
        &&& self.actions_taken <= 4
    }

    closed spec fn states(&self) -> int {
        125
    }

    closed spec fn actions(&self) -> int {
        5
    }

    closed spec fn over(&self) -> bool {
        self.actions_taken >= 4 || self.final_choice is Some
    }

    closed spec fn action_ok(&self, a: int) -> bool {
        !self.over() && (if self.chosen_door is Some {
            0 <= a < 2
        } else {
            0 <= a < 5
        })
    }

    /// The prize door is drawn at the first reset; construction itself is
    /// deterministic.
    fn new() -> (e: Self)
        ensures
            e.states() == 125,
            e.actions() == 5,
            !e.over(),
    {
        MontyHall2 {
            winning_door: 0,
            chosen_door: None,
            revealed_door: None,
            final_choice: None,
            actions_taken: 0,
            rng: Prng::from_seed(11),
        }
    }

    fn num_states(&self) -> (n: usize) {
        125
    }

    fn num_actions(&self) -> (n: usize) {
        5
    }

    fn state_id(&self) -> (s: usize) {
        let chosen = match self.chosen_door {
            Some(c) => c,
            None => 0,
        };
        let revealed = match self.revealed_door {
            Some(r) => r,
            None => 0,
        };
        self.winning_door * 25 + chosen * 5 + revealed
    }

    fn reset(&mut self)
        ensures
            !final(self).over(),
    {
        let door = self.rng.below(5);
        self.winning_door = door;
        self.chosen_door = None;
        self.revealed_door = None;
        self.final_choice = None;
        self.actions_taken = 0;
    }

    fn is_game_over(&self) -> (b: bool) {
        self.actions_taken >= 4 || self.final_choice.is_some()
    }

    fn available_actions(&self) -> (aa: Vec<usize>) {
        let mut aa: Vec<usize> = Vec::new();
        if self.actions_taken >= 4 || self.final_choice.is_some() {
            return aa;
        }
        if self.chosen_door.is_none() {
            aa.push(0);
            aa.push(1);
            aa.push(2);
            aa.push(3);
            aa.push(4);
        } else {
            aa.push(0);
            aa.push(1);
        }
        aa
    }

    fn score(&self) -> (sc: i64)
        ensures
            sc == if self.won() {
                SCALE as int
            } else {
                0int
            },
    {
        match self.final_choice {
            Some(f) => if f == self.winning_door {
                SCALE
            } else {
                0
            },
            None => 0,
        }
    }

    /// The first action records the pick and reveals one door that differs
    /// from both the pick and the prize, whichever reveal the draw lands on.
    /// The second action settles the final choice: the lowest-numbered other
    /// closed door on a switch, the original pick otherwise; the game is won
    /// exactly when the final choice is the prize door. Every action advances
    /// the step counter.
    fn step(&mut self, action: usize)
        ensures
            final(self).prize_spec() == old(self).prize_spec(),
            final(self).steps_spec() == old(self).steps_spec() + 1,
            old(self).chosen_spec() is None ==> {
                &&& final(self).chosen_spec() == Some(action)
                &&& final(self).revealed_spec() is Some
                &&& final(self).revealed_spec().unwrap() < 5
                &&& final(self).revealed_spec().unwrap() != action
                &&& (final(self).revealed_spec().unwrap() as int) != final(self).prize_spec()
                &&& final(self).choice_spec() is None
            },
            old(self).chosen_spec() is Some ==> {
                &&& final(self).over()
                &&& final(self).choice_spec() == Some(
                    if action == 1 {
                        (lowest_other(
                            old(self).chosen_spec().unwrap() as int,
                            old(self).revealed_spec().unwrap() as int,
                        )) as usize
                    } else {
                        old(self).chosen_spec().unwrap()
                    },
                )
                &&& (final(self).won() <==> (final(self).choice_spec().unwrap() as int)
                    == final(self).prize_spec())
            },
    {
        match self.chosen_door {
            None => {
                self.chosen_door = Some(action);
                // Some door always differs from both the pick and the prize.
                let witness: usize = if action != 0 && self.winning_door != 0 {
                    0
                } else if action != 1 && self.winning_door != 1 {
                    1
                } else {
                    2
                };
                let mut doors: Vec<usize> = Vec::new();
                let mut d: usize = 0;
                while d < 5
                    invariant
                        d <= 5,
                        action < 5,
                        self.winning_door < 5,
                        witness < 3,
                        witness != action && witness != self.winning_door,
                        forall|i: int|
                            0 <= i < doors@.len() ==> (#[trigger] doors@[i]) < 5
                                && doors@[i] != action && doors@[i] != self.winning_door,
                        d > witness ==> doors@.len() >= 1,
                    decreases 5 - d,
                {
                    if d != action && d != self.winning_door {
                        doors.push(d);
                    }
                    d = d + 1;
                }
                let pick = self.rng.below(doors.len());
                self.revealed_door = Some(doors[pick]);
            },
            Some(chosen) => {
                let revealed = match self.revealed_door {
                    Some(r) => r,
                    None => 0,
                };
                if action == 1 {
                    // Switch to the lowest-numbered other closed door; one of
                    // the first three doors always qualifies.
                    let witness: usize = if chosen != 0 && revealed != 0 {
                        0
                    } else if chosen != 1 && revealed != 1 {
                        1
                    } else {
                        2
                    };
                    let mut pickd: usize = 0;
                    let mut d: usize = 0;
                    let mut found = false;
                    while d < 5
                        invariant
                            d <= 5,
                            chosen < 5,
                            revealed < 5,
                            chosen != revealed,
                            witness < 3,
                            witness != chosen && witness != revealed,
                            found ==> pickd < 5,
                            d > witness ==> found,
                            !found && d > 0 ==> chosen == 0 || revealed == 0,
                            !found && d > 1 ==> chosen == 1 || revealed == 1,
                            !found && d > 2 ==> chosen == 2 || revealed == 2,
                            found ==> pickd as int == lowest_other(chosen as int, revealed as int),
                        decreases 5 - d,
                    {
                        if !found && d != chosen && d != revealed {
                            pickd = d;
                            found = true;
                        }
                        d = d + 1;
                    }
                    self.final_choice = Some(pickd);
                } else {
                    self.final_choice = Some(chosen);
                }
            },
        }
        self.actions_taken = self.actions_taken + 1;
    }

    /// This game has no usable planning model.
    fn transition_probabilities(&self) -> (p: Vec<Vec<Vec<i64>>>) {
        zero_prob_matrix(125, 5)
    }

    /// This game has no usable planning model.
    fn reward_function(&self) -> (rw: Vec<Vec<i64>>) {
        zero_reward_matrix(125, 5)
    }
}

} // verus!
