use monte_carlo_engine::{
    partition, EngineError, EngineParams, MonteCarloEngine, MonteCarloStrategy, WorkAssignment,
};

#[test]
fn engine_keeps_its_parameters() {
    let engine = MonteCarloEngine::new(10, 1000, 3, 42, "strategy");
    assert_eq!(
        engine.params(),
        EngineParams { total_trials: 10, trial_size: 1000, worker_count: 3, base_seed: 42 }
    );
    assert_eq!(*engine.strategy(), "strategy");
}

#[test]
fn plan_of_ten_trials_over_three_workers() {
    let engine = MonteCarloEngine::new(10, 1000, 3, 42, ());
    let plan = engine.plan().unwrap();
    assert_eq!(
        plan,
        vec![
            WorkAssignment { worker_index: 0, trial_count: 4, seed: 42 },
            WorkAssignment { worker_index: 1, trial_count: 3, seed: 46 },
            WorkAssignment { worker_index: 2, trial_count: 3, seed: 49 },
        ]
    );
}

#[test]
fn plan_without_trials_fails() {
    let engine = MonteCarloEngine::new(0, 1000, 3, 42, ());
    assert_eq!(engine.plan(), Err(EngineError::NoTrials));
}

#[test]
fn plan_without_workers_fails() {
    let engine = MonteCarloEngine::new(10, 1000, 0, 42, ());
    assert_eq!(engine.plan(), Err(EngineError::NoWorkers));
}

#[test]
fn plan_without_workers_and_trials_reports_the_workers() {
    let engine = MonteCarloEngine::new(0, 1000, 0, 42, ());
    assert_eq!(engine.plan(), Err(EngineError::NoWorkers));
}

#[test]
fn plan_leaves_out_workers_without_trials() {
    let engine = MonteCarloEngine::new(2, 10, 5, 7, ());
    let plan = engine.plan().unwrap();
    assert_eq!(
        plan,
        vec![
            WorkAssignment { worker_index: 0, trial_count: 1, seed: 7 },
            WorkAssignment { worker_index: 1, trial_count: 1, seed: 8 },
        ]
    );
}

#[test]
fn plan_is_the_partition_when_every_worker_has_a_trial() {
    let engine = MonteCarloEngine::new(97, 10, 8, 1, ());
    assert_eq!(engine.plan().unwrap(), partition(97, 8, 1).unwrap());
    let engine = MonteCarloEngine::new(8, 10, 8, 1, ());
    assert_eq!(engine.plan().unwrap(), partition(8, 8, 1).unwrap());
}

#[test]
fn plan_holds_every_trial_and_no_empty_worker() {
    let totals: [u32; 5] = [1, 2, 9, 10, 1000];
    let workers: [u32; 5] = [1, 3, 7, 10, 64];
    for total in totals {
        for worker_count in workers {
            let plan = MonteCarloEngine::new(total, 1, worker_count, 0, ()).plan().unwrap();
            assert_eq!(plan.len() as u32, total.min(worker_count));
            assert!(plan.iter().all(|a| a.trial_count > 0));
            let sum: u64 = plan.iter().map(|a| a.trial_count as u64).sum();
            assert_eq!(sum, total as u64);
        }
    }
}

#[test]
fn plan_does_not_depend_on_the_trial_size() {
    let small = MonteCarloEngine::new(10, 0, 3, 42, ()).plan().unwrap();
    let large = MonteCarloEngine::new(10, u32::MAX, 3, 42, ()).plan().unwrap();
    assert_eq!(small, large);
}

#[test]
fn plan_is_the_same_on_every_call() {
    let engine = MonteCarloEngine::new(1000, 50, 7, 99, ());
    let first = engine.plan().unwrap();
    let second = engine.plan().unwrap();
    assert_eq!(first, second);
    let twin = MonteCarloEngine::new(1000, 50, 7, 99, ());
    assert_eq!(twin.plan().unwrap(), first);
}

/// A strategy whose sample is its seed, scaled by the trial size.
#[derive(Debug)]
struct SeedEcho;

impl MonteCarloStrategy for SeedEcho {
    type Sample = f64;

    fn run_trial(&self, seed: u32, trial_size: u32) -> f64 {
        seed as f64 * trial_size as f64
    }
}

/// A strategy that returns what it was called with.
#[derive(Debug)]
struct CallEcho;

impl MonteCarloStrategy for CallEcho {
    type Sample = (u32, u32);

    fn run_trial(&self, seed: u32, trial_size: u32) -> (u32, u32) {
        (seed, trial_size)
    }
}

/// The plain average of the workers' averages.
fn mean_of_means(samples: &[Vec<f64>]) -> f64 {
    let means: Vec<f64> =
        samples.iter().map(|worker| worker.iter().sum::<f64>() / worker.len() as f64).collect();
    means.iter().sum::<f64>() / means.len() as f64
}

#[test]
fn worker_samples_follow_the_worker_seeds() {
    let engine = MonteCarloEngine::new(10, 1000, 3, 42, CallEcho);
    let worker = WorkAssignment { worker_index: 1, trial_count: 3, seed: 46 };
    assert_eq!(engine.worker_samples(&worker), vec![(46, 1000), (47, 1000), (48, 1000)]);
}

#[test]
fn worker_samples_wrap_around() {
    let engine = MonteCarloEngine::new(10, 5, 3, 0, CallEcho);
    let worker = WorkAssignment { worker_index: 0, trial_count: 3, seed: u32::MAX };
    assert_eq!(engine.worker_samples(&worker), vec![(u32::MAX, 5), (0, 5), (1, 5)]);
}

#[test]
fn worker_without_trials_has_no_samples() {
    let engine = MonteCarloEngine::new(10, 5, 3, 0, CallEcho);
    let worker = WorkAssignment { worker_index: 2, trial_count: 0, seed: 9 };
    assert_eq!(engine.worker_samples(&worker), vec![]);
}

#[test]
fn run_groups_the_samples_by_worker() {
    let engine = MonteCarloEngine::new(10, 7, 3, 100, CallEcho);
    let samples = engine.run().unwrap();
    assert_eq!(
        samples,
        vec![
            vec![(100, 7), (101, 7), (102, 7), (103, 7)],
            vec![(104, 7), (105, 7), (106, 7)],
            vec![(107, 7), (108, 7), (109, 7)],
        ]
    );
}

#[test]
fn run_samples_every_seed_once_and_in_order() {
    let bases: [u32; 3] = [0, 500, u32::MAX - 10];
    for base_seed in bases {
        for worker_count in 1..12 {
            let engine = MonteCarloEngine::new(23, 1, worker_count, base_seed, CallEcho);
            let seeds: Vec<u32> =
                engine.run().unwrap().into_iter().flatten().map(|call| call.0).collect();
            let expected: Vec<u32> = (0..23).map(|place| base_seed.wrapping_add(place)).collect();
            assert_eq!(seeds, expected);
        }
    }
}

#[test]
fn run_without_trials_fails() {
    let engine = MonteCarloEngine::new(0, 1000, 4, 42, SeedEcho);
    assert_eq!(engine.run(), Err(EngineError::NoTrials));
}

#[test]
fn run_without_workers_fails() {
    let engine = MonteCarloEngine::new(10, 1000, 0, 42, SeedEcho);
    assert_eq!(engine.run(), Err(EngineError::NoWorkers));
    let engine = MonteCarloEngine::new(0, 1000, 0, 42, SeedEcho);
    assert_eq!(engine.run(), Err(EngineError::NoWorkers));
}

#[test]
fn run_with_more_workers_than_trials_has_no_empty_worker() {
    let engine = MonteCarloEngine::new(2, 3, 5, 10, CallEcho);
    assert_eq!(engine.run().unwrap(), vec![vec![(10, 3)], vec![(11, 3)]]);
}

#[test]
fn run_hands_the_trial_size_on_unchanged() {
    let engine = MonteCarloEngine::new(3, 0, 2, 1, CallEcho);
    assert_eq!(engine.run().unwrap(), vec![vec![(1, 0), (2, 0)], vec![(3, 0)]]);
}

#[test]
fn run_is_the_same_on_every_call() {
    let engine = MonteCarloEngine::new(1000, 3, 7, 99, SeedEcho);
    let first = mean_of_means(&engine.run().unwrap());
    let second = mean_of_means(&engine.run().unwrap());
    assert_eq!(first.to_bits(), second.to_bits());
    let twin = MonteCarloEngine::new(1000, 3, 7, 99, SeedEcho);
    assert_eq!(twin.run().unwrap(), engine.run().unwrap());
}

#[test]
fn run_is_what_the_workers_return_one_by_one() {
    let engine = MonteCarloEngine::new(50, 2, 6, 7, SeedEcho);
    let by_hand: Vec<Vec<f64>> =
        engine.plan().unwrap().iter().map(|worker| engine.worker_samples(worker)).collect();
    assert_eq!(engine.run().unwrap(), by_hand);
}

#[test]
fn every_worker_counts_the_same_in_the_result() {
    // Workers hold the seeds 0..=3, 4..=6 and 7..=9: their means are 1.5, 5
    // and 8. Weighted by trial count the result would be 4.5.
    let engine = MonteCarloEngine::new(10, 1, 3, 0, SeedEcho);
    let result = mean_of_means(&engine.run().unwrap());
    assert_eq!(result, (1.5 + 5.0 + 8.0) / 3.0);
    assert_ne!(result, 4.5);
}

#[test]
fn empty_workers_do_not_dilute_the_result() {
    // Two trials over five workers: only two workers run, with the seeds 10
    // and 11. Counting the three idle workers as zero would give 4.2.
    let engine = MonteCarloEngine::new(2, 1, 5, 10, SeedEcho);
    let result = mean_of_means(&engine.run().unwrap());
    assert_eq!(result, 10.5);
    assert!(result.is_finite());
}
