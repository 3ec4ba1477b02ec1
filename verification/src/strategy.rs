use vstd::prelude::*;

verus! {

/// A sampling method: one sample from a seed and a trial size.
///
/// A strategy is shared by all workers of a run and called from several of
/// them at once. An implementation seeds a generator of its own in every
/// call and keeps nothing between calls, so that what a call returns
/// depends on the strategy, the seed and the trial size alone: see
/// [`is_pure`]. The engine does not rely on it; what it promises of a run
/// is stated over [`may_yield`] and holds of every strategy.
pub trait MonteCarloStrategy: Send + Sync + core::fmt::Debug {
    /// What one trial yields.
    type Sample: Send;

    /// Runs one trial of size `trial_size` with a generator seeded from
    /// `seed`.
    fn run_trial(&self, seed: u32, trial_size: u32) -> Self::Sample;
}

/// Whether `sample` is something that the strategy's trial with this seed
/// and this size can return.
pub open spec fn may_yield<S: MonteCarloStrategy>(
    strategy: &S,
    seed: u32,
    trial_size: u32,
    sample: S::Sample,
) -> bool {
    call_ensures(S::run_trial, (strategy, seed, trial_size), sample)
}

/// Strategy purity: a trial with a given seed and size can return one
/// sample only, whenever and on whichever thread it is run.
pub open spec fn is_pure<S: MonteCarloStrategy>(strategy: &S) -> bool {
    forall|seed: u32, trial_size: u32, first: S::Sample, second: S::Sample|
        #![trigger
            may_yield(strategy, seed, trial_size, first),
            may_yield(strategy, seed, trial_size, second)
        ]
        may_yield(strategy, seed, trial_size, first) && may_yield(
            strategy,
            seed,
            trial_size,
            second,
        ) ==> first == second
}

} // verus!
