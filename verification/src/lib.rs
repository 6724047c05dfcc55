//! A small reinforcement-learning laboratory: discrete environments and a
//! family of tabular learning algorithms, with machine-checked contracts.
//!
//! Real-valued quantities (scores, rewards, value estimates, rates) are held
//! in fixed-point arithmetic: an `i64` carrying six decimal places.

pub mod algorithm;
pub mod bellman;
pub mod dqn;
pub mod dyna_q;
pub mod env;
pub mod fixed;
pub mod grid_world;
pub mod line_world;
pub mod monty_hall_paradox1;
pub mod monty_hall_paradox2;
pub mod off_montecarlo_control;
pub mod on_montecarlo_control;
pub mod policy_iteration;
pub mod q_learning;
pub mod reinforce;
pub mod rps;
pub mod qtable;
pub mod rng;
pub mod semi_gradient_sarsa;
pub mod sarsa;
pub mod value_iteration;
