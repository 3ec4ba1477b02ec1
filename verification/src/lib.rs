//! The execution core of a parallel Monte Carlo engine.
//!
//! A run of `total_trials` trials is split over `worker_count` workers. Every
//! worker gets a contiguous block of trials and the seed of its first trial;
//! the seeds of the whole run are `base_seed`, `base_seed + 1`, ... taken
//! modulo 2^32, so that no two trials of a run share one. Workers that are
//! left without a trial take no part in the run. The workers run side by
//! side on a pool of threads, each calling the run's strategy once per trial,
//! and the samples come back grouped by worker.
//!
//! What is proved here is the integer side of that scheme: the partition,
//! the seeds, which workers are dispatched, which trial is run with which
//! seed, and the tally of a rejection sampler. What a sample is, and how
//! samples are averaged, is left to the strategy and to the caller.

pub mod engine;
pub mod error;
pub mod partition;
pub mod strategy;
pub mod tally;

pub use engine::{EngineParams, MonteCarloEngine};
pub use error::EngineError;
pub use partition::{partition, WorkAssignment};
pub use strategy::MonteCarloStrategy;
pub use tally::HitTally;
