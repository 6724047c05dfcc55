//! End-to-end tests of the learning algorithms and environments. Real values
//! are fixed point: 1_000_000 stands for one.

use rl_lab::algorithm::RLAlgorithm;
use rl_lab::dqn::{ReplayMemory, Transition, DQN};
use rl_lab::dyna_q::DynaQ;
use rl_lab::env::Environment;
use rl_lab::line_world::LineWorld;
use rl_lab::on_montecarlo_control::MonteCarloControl;
use rl_lab::off_montecarlo_control::OffPolicyMonteCarloControl;
use rl_lab::policy_iteration::PolicyIteration;
use rl_lab::q_learning::QLearning;
use rl_lab::reinforce::Reinforce;
use rl_lab::rng::Prng;
use rl_lab::sarsa::Sarsa;
use rl_lab::semi_gradient_sarsa::SemiGradientSarsa;
use rl_lab::value_iteration::ValueIteration;
use rl_lab::grid_world::GridWorld;
use rl_lab::monty_hall_paradox1::MontyHall;
use rl_lab::monty_hall_paradox2::MontyHall2;
use rl_lab::rps::RPS;

const ONE: i64 = 1_000_000;
const TENTH: i64 = 100_000;
const GAMMA: i64 = 990_000;

#[test]
fn test_dqn_initialization() {
    let env = LineWorld::new();
    let dqn = DQN::new(
        Environment::num_states(&env),
        Environment::num_actions(&env),
        TENTH,
        TENTH,
        GAMMA,
        1000,
        32,
    );
    assert_eq!(dqn.get_weights().len(), Environment::num_states(&env));
    for row in dqn.get_weights().iter() {
        assert_eq!(row.len(), Environment::num_actions(&env));
    }
    assert_eq!(dqn.memory_len(), 0);
}

#[test]
fn test_dqn_training() {
    let mut env = LineWorld::new();
    let mut dqn = DQN::new(
        Environment::num_states(&env),
        Environment::num_actions(&env),
        TENTH,
        ONE,
        GAMMA,
        1000,
        32,
    );
    let rewards = dqn.train(&mut env, 100);
    assert_eq!(rewards.len(), 100);
}

#[test]
fn test_reinforce_initialization() {
    let env = LineWorld::new();
    let reinforce = Reinforce::new(
        Environment::num_states(&env),
        Environment::num_actions(&env),
        TENTH,
        GAMMA,
    );
    assert_eq!(reinforce.get_logits().len(), Environment::num_states(&env));
    for row in reinforce.get_logits().iter() {
        assert_eq!(row.len(), Environment::num_actions(&env));
    }
}

#[test]
fn test_reinforce_training() {
    let mut env = LineWorld::new();
    let mut reinforce = Reinforce::new(
        Environment::num_states(&env),
        Environment::num_actions(&env),
        TENTH,
        GAMMA,
    );
    let rewards = reinforce.train(&mut env, 100);
    assert_eq!(rewards.len(), 100);
}

/// Every learner's best action is one of the offered ones, for every state
/// and every non-empty offer.
#[test]
fn best_action_is_always_available() {
    let mut env = LineWorld::new();
    let mut q = QLearning::new(5, 2, TENTH, TENTH, GAMMA);
    q.train(&mut env, 50);
    let offers: Vec<Vec<usize>> = vec![vec![0], vec![1], vec![0, 1], vec![1, 0]];
    for s in 0..5 {
        for offer in offers.iter() {
            let a = q.get_best_action(s, offer);
            assert!(offer.contains(&a));
        }
    }
    let mc = MonteCarloControl::new(5, 2, TENTH, GAMMA);
    assert!(offers[2].contains(&mc.get_best_action(3, &offers[2])));
    let off = OffPolicyMonteCarloControl::new(5, 2, TENTH, GAMMA);
    assert!(offers[3].contains(&off.get_best_action(2, &offers[3])));
}

/// Q-Learning's greedy policy reaches a terminal from every live position of
/// the corridor after training.
#[test]
fn q_learning_converges_on_line_world() {
    let mut env = LineWorld::new();
    let mut q = QLearning::new(5, 2, TENTH, TENTH, GAMMA);
    q.train(&mut env, 2000);
    for start in 1..4usize {
        let mut pos = start;
        let mut steps = 0;
        while pos != 0 && pos != 4 && steps < 10 {
            let a = q.get_best_action(pos, &[0, 1]);
            pos = if a == 0 { pos - 1 } else { pos + 1 };
            steps += 1;
        }
        assert_eq!(pos, 4, "greedy policy misses the paying end from {start}");
    }
    assert_eq!(q.get_best_action(3, &[0, 1]), 1);
}

/// The same, for the on-policy temporal-difference learner.
#[test]
fn sarsa_converges_on_line_world() {
    let mut env = LineWorld::new();
    let mut s = Sarsa::new(5, 2, TENTH, TENTH, GAMMA);
    s.train(&mut env, 2000);
    for start in 1..4usize {
        let mut pos = start;
        let mut steps = 0;
        while pos != 0 && pos != 4 && steps < 10 {
            let a = s.get_best_action(pos, &[0, 1]);
            pos = if a == 0 { pos - 1 } else { pos + 1 };
            steps += 1;
        }
        assert_eq!(pos, 4, "greedy policy misses the paying end from {start}");
    }
    assert_eq!(s.get_best_action(3, &[0, 1]), 1);
}

/// With zero planning steps the model-based learner's table evolves exactly
/// like plain Q-Learning's over the same experience.
#[test]
fn dyna_q_without_planning_matches_q_learning() {
    let mut env1 = LineWorld::new();
    let mut q = QLearning::new(5, 2, TENTH, 300_000, GAMMA);
    q.train(&mut env1, 200);
    let mut env2 = LineWorld::new();
    let mut d = DynaQ::new(5, 2, TENTH, 300_000, GAMMA, 0);
    d.train(&mut env2, 200);
    assert_eq!(q.get_q_table(), d.get_q_table());
}

/// With planning steps the tables are allowed to differ, and training still
/// returns one total per episode.
#[test]
fn dyna_q_with_planning_trains() {
    let mut env = LineWorld::new();
    let mut d = DynaQ::new(5, 2, TENTH, TENTH, GAMMA, 5);
    let rewards = d.train(&mut env, 100);
    assert_eq!(rewards.len(), 100);
}

/// Every estimate equals the truncating arithmetic mean of the first-visit
/// returns recorded for its pair, and stays zero where nothing was recorded.
#[test]
fn monte_carlo_estimate_is_mean_of_returns() {
    let mut env = LineWorld::new();
    let mut mc = MonteCarloControl::new(5, 2, TENTH, GAMMA);
    mc.train(&mut env, 50);
    let q = mc.get_q_values();
    let mut recorded_anything = false;
    for s in 0..5usize {
        for a in 0..2usize {
            let rets = mc.recorded_returns(s, a);
            if rets.is_empty() {
                assert_eq!(q[s][a], 0);
            } else {
                recorded_anything = true;
                let sum: i128 = rets.iter().map(|&g| g as i128).sum();
                let n = rets.len() as i128;
                let mean = if sum >= 0 { sum / n } else { -((-sum) / n) };
                assert_eq!(q[s][a] as i128, mean);
            }
        }
    }
    assert!(recorded_anything);
}

/// Off-policy Monte-Carlo trains and returns one total per episode, and its
/// epsilon decays toward the floor.
#[test]
fn off_policy_monte_carlo_trains() {
    let mut env = LineWorld::new();
    let mut off = OffPolicyMonteCarloControl::new(5, 2, TENTH, GAMMA);
    let rewards = off.train(&mut env, 200);
    assert_eq!(rewards.len(), 200);
    assert!([0usize, 1].contains(&off.get_best_action(3, &[0, 1])));
}

/// Pushing past the capacity always evicts the oldest transition first, and
/// the length never exceeds the capacity.
#[test]
fn replay_memory_is_fifo() {
    let mut m = ReplayMemory::new(3);
    let mk = |k: usize| Transition {
        state: k,
        action: 0,
        reward: k as i64,
        next_state: k + 1,
        done: false,
    };
    for k in 0..5 {
        m.push(mk(k));
        assert!(m.len() <= 3);
    }
    assert_eq!(m.len(), 3);
    assert_eq!(m.get(0).state, 2);
    assert_eq!(m.get(1).state, 3);
    assert_eq!(m.get(2).state, 4);
}

/// Sampling returns the requested number of stored transitions.
#[test]
fn replay_memory_sampling() {
    let mut m = ReplayMemory::new(10);
    for k in 0..6 {
        m.push(Transition { state: k, action: 0, reward: 0, next_state: k, done: false });
    }
    let mut rng = Prng::from_seed(5);
    let batch = m.sample(4, &mut rng);
    assert_eq!(batch.len(), 4);
    for t in batch.iter() {
        assert!(t.state < 6);
    }
    let all = m.sample(100, &mut rng);
    assert_eq!(all.len(), 6);
}

/// Run to convergence on the corridor's model, the two planners' value
/// functions agree within the threshold and their greedy policies agree on
/// the unambiguous states.
#[test]
fn planners_agree_on_line_world_model() {
    let env = LineWorld::new();
    let tp = env.transition_probabilities();
    let rw = env.reward_function();
    let theta: i64 = 10;
    let half: i64 = 500_000;
    let mut vi = ValueIteration::new(5, 2, half, theta);
    vi.value_iteration(&tp, &rw);
    let mut pi = PolicyIteration::new(5, 2, half, theta);
    pi.policy_iteration(&tp, &rw);
    let v_vi = vi.get_values();
    let v_pi = pi.get_values();
    for s in 0..5 {
        let diff = (v_vi[s] - v_pi[s]).abs();
        assert!(diff <= theta, "values differ by {diff} at state {s}");
    }
    let p_pi = pi.get_policy();
    // Only the right end pays, so every live state's best action is right,
    // and no state is ambiguous.
    for s in [1usize, 2, 3] {
        let a_vi = vi.get_best_action(s, &[0, 1]);
        assert_eq!(a_vi, p_pi[s], "policies differ at state {s}");
        assert_eq!(a_vi, 1);
    }
}

/// Serializing a trained learner's parts and rebuilding from them leaves the
/// policy unchanged on every state and offer.
#[test]
fn snapshot_round_trip_preserves_policy() {
    let mut env = LineWorld::new();
    let mut s1 = Sarsa::new(5, 2, TENTH, TENTH, GAMMA);
    s1.train(&mut env, 300);
    let json = serde_json::to_string(s1.get_q_table()).unwrap();
    let table: Vec<Vec<i64>> = serde_json::from_str(&json).unwrap();
    let s2 = Sarsa::from_parts(table, TENTH, TENTH, GAMMA).unwrap();
    let offers: Vec<Vec<usize>> = vec![vec![0], vec![1], vec![0, 1], vec![1, 0]];
    for s in 0..5 {
        for offer in offers.iter() {
            assert_eq!(s1.get_best_action(s, offer), s2.get_best_action(s, offer));
        }
    }
}

/// Rebuilding rejects invalid parts: ragged rows, out-of-range rates.
#[test]
fn snapshot_rejects_invalid_parts() {
    assert!(Sarsa::from_parts(vec![], TENTH, TENTH, GAMMA).is_none());
    assert!(Sarsa::from_parts(vec![vec![0, 0], vec![0]], TENTH, TENTH, GAMMA).is_none());
    assert!(Sarsa::from_parts(vec![vec![0, 0]], 2 * ONE, TENTH, GAMMA).is_none());
    assert!(Sarsa::from_parts(vec![vec![0, 0]], TENTH, TENTH, ONE).is_none());
    assert!(Sarsa::from_parts(vec![vec![0, 0]], TENTH, TENTH, GAMMA).is_some());
}

/// The corridor scenario: trained at the stated rates for a thousand
/// episodes, the learner prefers moving right from position three.
#[test]
fn q_learning_line_world_scenario() {
    let mut env = LineWorld::new();
    let mut q = QLearning::new(5, 2, TENTH, TENTH, GAMMA);
    q.train(&mut env, 1000);
    assert_eq!(q.get_best_action(3, &[0, 1]), 1);
}

/// Training is reproducible: two identical runs produce identical tables.
#[test]
fn training_is_reproducible() {
    let mut env1 = LineWorld::new();
    let mut q1 = QLearning::new(5, 2, TENTH, TENTH, GAMMA);
    q1.train(&mut env1, 100);
    let mut env2 = LineWorld::new();
    let mut q2 = QLearning::new(5, 2, TENTH, TENTH, GAMMA);
    q2.train(&mut env2, 100);
    assert_eq!(q1.get_q_table(), q2.get_q_table());
}

/// Fully random exploration stays within the offered actions and still
/// returns one total per episode.
#[test]
fn full_exploration_stays_legal() {
    let mut env = LineWorld::new();
    let mut q = QLearning::new(5, 2, TENTH, ONE, GAMMA);
    let rewards = q.train(&mut env, 200);
    assert_eq!(rewards.len(), 200);
}

/// The corridor environment itself: moves, terminals, and scores.
#[test]
fn line_world_dynamics() {
    let mut env = LineWorld::new();
    env.reset();
    assert_eq!(env.state_id(), 2);
    assert!(!env.is_game_over());
    assert_eq!(env.available_actions(), vec![0, 1]);
    assert_eq!(env.score(), 0);
    env.step(1);
    assert_eq!(env.state_id(), 3);
    env.step(1);
    assert_eq!(env.state_id(), 4);
    assert!(env.is_game_over());
    assert_eq!(env.score(), ONE);
    assert!(env.available_actions().is_empty());
    env.reset();
    env.step(0);
    env.step(0);
    assert_eq!(env.state_id(), 0);
    assert!(env.is_game_over());
    assert_eq!(env.score(), 0);
}

/// The grid environment: the walk to the goal pays one, the walk to the trap
/// pays minus one.
#[test]
fn grid_world_dynamics() {
    let mut env: GridWorld = Environment::new();
    env.reset();
    assert_eq!(env.state_id(), 5);
    env.step(0);
    env.step(3);
    assert_eq!(env.state_id(), 0);
    assert!(env.is_game_over());
    assert!(env.available_actions().is_empty());
    assert_eq!(env.score(), ONE);
    env.reset();
    env.step(2);
    env.step(2);
    env.step(1);
    env.step(1);
    assert_eq!(env.state_id(), 15);
    assert!(env.is_game_over());
    assert_eq!(env.score(), -ONE);
}

/// A guessing-game episode ends after the second decision, with a score of
/// zero or one.
#[test]
fn monty_hall_episode() {
    let mut env: MontyHall = Environment::new();
    env.reset();
    assert_eq!(env.available_actions(), vec![0, 1, 2]);
    env.step(1);
    assert_eq!(env.available_actions(), vec![0, 1]);
    env.step(1);
    assert!(env.is_game_over());
    assert!(env.score() == 0 || env.score() == ONE);
}

/// The five-door variant behaves the same way.
#[test]
fn monty_hall_five_door_episode() {
    let mut env: MontyHall2 = Environment::new();
    env.reset();
    assert_eq!(env.available_actions(), vec![0, 1, 2, 3, 4]);
    env.step(3);
    assert_eq!(env.available_actions(), vec![0, 1]);
    env.step(0);
    assert!(env.is_game_over());
    assert!(env.score() == 0 || env.score() == ONE);
}

/// Two rounds against the scripted opponent; the second round is always a
/// draw when the agent repeats its first move, since the opponent copies it.
#[test]
fn rps_second_round_copies_first_move() {
    for first in 0..3usize {
        let mut env = RPS::new_with_mode(false);
        env.reset();
        env.step(first);
        let after_round_one = env.score();
        env.step(first);
        assert!(env.is_game_over());
        assert_eq!(env.score(), after_round_one);
    }
}

/// The approximator trains within its feature budget and keeps its choices
/// within the offer.
#[test]
fn semi_gradient_sarsa_trains() {
    let mut env = LineWorld::new();
    let mut sg = SemiGradientSarsa::new(10, TENTH, TENTH, GAMMA);
    let rewards = sg.train(&mut env, 200);
    assert_eq!(rewards.len(), 200);
    for s in 0..5 {
        let a = sg.get_best_action(s, &[0, 1]);
        assert!(a == 0 || a == 1);
    }
}

/// The feature scheme marks exactly the hashed pair index and the hashed
/// state index; the approximate value is the matching inner product.
#[test]
fn semi_gradient_features_are_binary() {
    let sg = SemiGradientSarsa::new(7, TENTH, TENTH, GAMMA);
    let f = sg.compute_features(3, 2);
    assert_eq!(f.len(), 7);
    // 3 * 2 % 7 = 6 and 3 % 7 = 3 are the active features.
    for (i, &v) in f.iter().enumerate() {
        let expected = if i == 6 || i == 3 { 1 } else { 0 };
        assert_eq!(v, expected);
    }
    assert_eq!(sg.approximate_q_value(3, 2), 0);
}

/// Planning learners rebind to an environment of other dimensions by
/// reinitializing, then train.
#[test]
fn planners_rebind_and_train() {
    let mut env: GridWorld = Environment::new();
    let mut vi = ValueIteration::new(1, 1, GAMMA, 1000);
    let rewards = vi.train(&mut env, 5);
    assert_eq!(rewards.len(), 5);
    let mut pi = PolicyIteration::new(1, 1, GAMMA, 1000);
    let rewards = pi.train(&mut env, 3);
    assert_eq!(rewards.len(), 3);
}

/// One observed transition moves exactly the taken pair's entry by the
/// update rule: from zero, learning one unit pays alpha of it.
#[test]
fn observe_applies_the_update_rule() {
    let mut q = QLearning::new(5, 2, TENTH, TENTH, GAMMA);
    q.observe(0, 1, ONE, 1, &[0, 1], false);
    assert_eq!(q.get_q_table()[0][1], 100_000);
    assert_eq!(q.get_q_table()[0][0], 0);
    assert_eq!(q.get_q_table()[1][0], 0);
    let mut s = Sarsa::new(5, 2, TENTH, TENTH, GAMMA);
    s.observe(2, 0, ONE, 1, 0, true);
    assert_eq!(s.get_q_table()[2][0], 100_000);
}

/// Every learner's serialized parts rebuild a learner with the same policy.
#[test]
fn from_parts_round_trips_every_learner() {
    let mut env = LineWorld::new();
    let offers: Vec<Vec<usize>> = vec![vec![0], vec![1], vec![0, 1], vec![1, 0]];

    let mut q = QLearning::new(5, 2, TENTH, TENTH, GAMMA);
    q.train(&mut env, 100);
    let q2 = QLearning::from_parts(q.get_q_table().clone(), TENTH, TENTH, GAMMA).unwrap();
    let mut d = DynaQ::new(5, 2, TENTH, TENTH, GAMMA, 3);
    d.train(&mut env, 100);
    let d2 = DynaQ::from_parts(d.get_q_table().clone(), TENTH, TENTH, GAMMA, 3).unwrap();
    let mut mc = MonteCarloControl::new(5, 2, TENTH, GAMMA);
    mc.train(&mut env, 50);
    let hist: Vec<Vec<Vec<i64>>> = (0..5)
        .map(|s| (0..2).map(|a| mc.recorded_returns(s, a).clone()).collect())
        .collect();
    let mc2 = MonteCarloControl::from_parts(hist, TENTH, GAMMA).unwrap();
    assert_eq!(mc.get_q_values(), mc2.get_q_values());
    let mut off = OffPolicyMonteCarloControl::new(5, 2, TENTH, GAMMA);
    off.train(&mut env, 50);
    let off2 = OffPolicyMonteCarloControl::from_parts(off.get_q_values().clone(), TENTH, GAMMA)
        .unwrap();
    let mut rf = Reinforce::new(5, 2, TENTH, GAMMA);
    rf.train(&mut env, 50);
    let rf2 = Reinforce::from_parts(rf.get_logits().clone(), TENTH, GAMMA).unwrap();
    let mut sg = SemiGradientSarsa::new(10, TENTH, TENTH, GAMMA);
    sg.train(&mut env, 50);
    let sg2 = SemiGradientSarsa::from_parts(sg.get_weights().clone(), TENTH, TENTH, GAMMA)
        .unwrap();
    let mut dqn = DQN::new(5, 2, TENTH, TENTH, GAMMA, 100, 8);
    dqn.train(&mut env, 50);
    let dqn2 = DQN::from_parts(dqn.get_weights().clone(), TENTH, TENTH, GAMMA, 100, 8).unwrap();
    let tp = env.transition_probabilities();
    let rw = env.reward_function();
    let mut vi = ValueIteration::new(5, 2, GAMMA, 1000);
    vi.value_iteration(&tp, &rw);
    let vi_policy: Vec<usize> = (0..5).map(|s| vi.get_best_action(s, &[0, 1])).collect();
    let vi2 = ValueIteration::from_parts(
        vi.get_q_values().to_vec(),
        vi.get_values().to_vec(),
        vi_policy,
        GAMMA,
        1000,
    )
    .unwrap();
    let mut pi = PolicyIteration::new(5, 2, GAMMA, 1000);
    pi.policy_iteration(&tp, &rw);
    let pi2 = PolicyIteration::from_parts(
        2,
        pi.get_policy().clone(),
        pi.get_values().to_vec(),
        GAMMA,
        1000,
    )
    .unwrap();

    for s in 0..5 {
        for offer in offers.iter() {
            assert_eq!(q.get_best_action(s, offer), q2.get_best_action(s, offer));
            assert_eq!(d.get_best_action(s, offer), d2.get_best_action(s, offer));
            assert_eq!(mc.get_best_action(s, offer), mc2.get_best_action(s, offer));
            assert_eq!(off.get_best_action(s, offer), off2.get_best_action(s, offer));
            assert_eq!(rf.get_best_action(s, offer), rf2.get_best_action(s, offer));
            assert_eq!(sg.get_best_action(s, offer), sg2.get_best_action(s, offer));
            assert_eq!(dqn.get_best_action(s, offer), dqn2.get_best_action(s, offer));
            assert_eq!(vi.get_best_action(s, offer), vi2.get_best_action(s, offer));
            assert_eq!(pi.get_best_action(s, offer), pi2.get_best_action(s, offer));
        }
    }
}

/// Driving the per-step entries by hand matches what `train` does, since
/// both use the same selection and update calls with the same seed.
#[test]
fn manual_episode_loop_matches_train() {
    let mut env1 = LineWorld::new();
    let mut trained = QLearning::new(5, 2, TENTH, 300_000, GAMMA);
    trained.train(&mut env1, 120);

    let mut env2 = LineWorld::new();
    let mut manual = QLearning::new(5, 2, TENTH, 300_000, GAMMA);
    let mut rng = Prng::from_seed(42);
    for _ in 0..120 {
        env2.reset();
        let mut s = env2.state_id();
        let mut over = env2.is_game_over();
        let mut steps = 0;
        while !over && steps < 1000 {
            let aa = env2.available_actions();
            let a = manual.select_action(&mut rng, s, &aa);
            let before = env2.score();
            env2.step(a);
            let r = env2.score() - before;
            let s_next = env2.state_id();
            over = env2.is_game_over();
            let aa_next = env2.available_actions();
            manual.observe(s, a, r, s_next, &aa_next, over);
            s = s_next;
            steps += 1;
        }
    }
    assert_eq!(trained.get_q_table(), manual.get_q_table());
}

/// Value iteration on the grid model sends the start position toward the
/// goal corner, not the trap.
#[test]
fn value_iteration_solves_grid_world() {
    let env: GridWorld = Environment::new();
    let tp = env.transition_probabilities();
    let rw = env.reward_function();
    let mut vi = ValueIteration::new(16, 4, GAMMA, 1000);
    vi.value_iteration(&tp, &rw);
    // From the start (1, 1) the best actions head up or left, toward the goal.
    let a = vi.get_best_action(5, &[0, 1, 2, 3]);
    assert!(a == 0 || a == 3, "unexpected action {a} from the start");
    // Next to the trap, moving into it is never preferred.
    let near_trap = vi.get_best_action(14, &[0, 1, 3]);
    assert!(near_trap != 1);
}

/// The first-visit rule: a pair visited twice in one episode records only
/// the return at its first visit, and an unvisited pair records nothing.
#[test]
fn first_visit_recording_keeps_only_the_first_occurrence() {
    // With a discount of zero the return to go at a step is that step's
    // reward alone.
    let mut mc = MonteCarloControl::new(3, 2, TENTH, 0);
    let states = vec![0usize, 0, 1];
    let acts = vec![0usize, 0, 1];
    let rews = vec![5i64, 7, 9];
    mc.process_episode(&states, &acts, &rews);
    assert_eq!(mc.recorded_returns(0, 0), &vec![5i64]);
    assert_eq!(mc.recorded_returns(1, 1), &vec![9i64]);
    assert!(mc.recorded_returns(2, 0).is_empty());
    assert!(mc.recorded_returns(0, 1).is_empty());
}

/// One backward weighted-importance-sampling step on a fresh learner moves
/// the visited pair's estimate all the way to the observed return.
#[test]
fn weighted_importance_sampling_adopts_the_first_return() {
    let mut off = OffPolicyMonteCarloControl::new(2, 2, TENTH, GAMMA);
    let states = vec![0usize];
    let acts = vec![1usize];
    let rews = vec![7_000i64];
    let avails = vec![vec![0usize, 1]];
    off.process_episode(&states, &acts, &rews, &avails);
    assert_eq!(off.get_q_values()[0][1], 7_000);
    assert_eq!(off.get_q_values()[0][0], 0);
    assert_eq!(off.get_q_values()[1][0], 0);
}

/// The grid lists its legal moves in a fixed order: up, right, down, left.
#[test]
fn grid_world_lists_moves_in_order() {
    let mut env: GridWorld = Environment::new();
    env.reset();
    // The start (1, 1) allows all four moves.
    assert_eq!(env.available_actions(), vec![0, 1, 2, 3]);
    // The top edge (1, 0) forbids moving up.
    env.step(0);
    assert_eq!(env.available_actions(), vec![1, 2, 3]);
}
