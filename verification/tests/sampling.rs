use monte_carlo_engine::{HitTally, MonteCarloEngine, MonteCarloStrategy};
use rand::rngs::StdRng;
use rand::{Rng, SeedableRng};

/// The rejection sampler over the square of half-width `radius`: a trial
/// yields the share of its points that fall inside the circle.
#[derive(Debug)]
struct AreaEstimator {
    radius: f64,
}

impl MonteCarloStrategy for AreaEstimator {
    type Sample = f64;

    fn run_trial(&self, seed: u32, trial_size: u32) -> f64 {
        let mut rng = StdRng::seed_from_u64(seed as u64);
        let mut tally = HitTally::new(trial_size);
        while !tally.is_complete() {
            let x: f64 = rng.random_range(-self.radius..self.radius);
            let y: f64 = rng.random_range(-self.radius..self.radius);
            tally.record(x * x + y * y <= self.radius * self.radius);
        }
        tally.hits() as f64 / tally.draws() as f64
    }
}

#[test]
fn hit_rate_of_a_million_points_is_near_a_quarter_of_pi() {
    let engine = MonteCarloEngine::new(1, 1_000_000, 1, 42, AreaEstimator { radius: 1.0 });
    let samples = engine.run().unwrap();
    assert_eq!(samples.len(), 1);
    assert_eq!(samples[0].len(), 1);
    let rate = samples[0][0];
    assert!((rate - std::f64::consts::FRAC_PI_4).abs() < 0.01);
    assert!((rate - 0.785).abs() < 0.01);
}

#[test]
fn hit_rate_lies_between_zero_and_one() {
    let estimator = AreaEstimator { radius: 2.5 };
    for seed in 0..20 {
        let rate = estimator.run_trial(seed, 100);
        assert!((0.0..=1.0).contains(&rate));
    }
}

#[test]
fn hit_rate_is_the_same_for_the_same_seed() {
    let estimator = AreaEstimator { radius: 1.0 };
    let first = estimator.run_trial(7, 10_000);
    let second = estimator.run_trial(7, 10_000);
    assert_eq!(first.to_bits(), second.to_bits());
    assert_ne!(first.to_bits(), estimator.run_trial(8, 10_000).to_bits());
}

#[test]
fn hit_rate_is_the_same_on_two_threads() {
    let estimator = AreaEstimator { radius: 1.0 };
    let alone = estimator.run_trial(11, 20_000);
    let (left, right) =
        rayon::join(|| estimator.run_trial(11, 20_000), || estimator.run_trial(11, 20_000));
    assert_eq!(left.to_bits(), alone.to_bits());
    assert_eq!(right.to_bits(), alone.to_bits());
}

#[test]
fn parallel_run_of_the_estimator_is_repeatable() {
    let engine = MonteCarloEngine::new(64, 2_000, 8, 3, AreaEstimator { radius: 1.0 });
    let first = engine.run().unwrap();
    let second = engine.run().unwrap();
    assert_eq!(first, second);
    let lengths: Vec<usize> = first.iter().map(|worker| worker.len()).collect();
    assert_eq!(lengths, vec![8; 8]);
}
