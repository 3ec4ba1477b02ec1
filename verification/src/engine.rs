use crate::error::EngineError;
use crate::partition::{
    assignment_at, assignments, lemma_partition_is_complete, lemma_share_bounds,
    lemma_total_assigned_prefix, lemma_trial_seed_is_run_offset, partition, seed_after,
    total_assigned, trials_before, WorkAssignment,
};
use crate::strategy::{is_pure, may_yield, MonteCarloStrategy};
use rayon::iter::{IntoParallelIterator, ParallelIterator};
use vstd::prelude::*;

verus! {

/// The parameters of a run.
#[derive(Clone, Copy, Debug, PartialEq, Eq, Structural)]
pub struct EngineParams {
    /// How many trials the run has in all.
    pub total_trials: u32,
    /// The size that every trial is run with.
    pub trial_size: u32,
    /// How many workers the trials are divided among.
    pub worker_count: u32,
    /// The seed of the run's first trial.
    pub base_seed: u32,
}

/// An engine: the parameters of a run and the strategy that produces its
/// samples. Neither changes once the engine is made.
#[derive(Debug)]
pub struct MonteCarloEngine<S> {
    params: EngineParams,
    strategy: S,
}

/// The assignments that take part in a run: those with at least one trial.
pub open spec fn has_trials() -> spec_fn(WorkAssignment) -> bool {
    |assignment: WorkAssignment| assignment.trial_count > 0
}

/// The partition of a run without the workers that have no trial, in the
/// order of the partition.
pub open spec fn active_assignments(total: u32, workers: u32, base_seed: u32) -> Seq<
    WorkAssignment,
> {
    assignments(total, workers, base_seed).filter(has_trials())
}

/// How many workers of a run have at least one trial.
pub open spec fn active_count(total: u32, workers: u32) -> int {
    if total < workers {
        total as int
    } else {
        workers as int
    }
}

/// A list whose first `count` items have trials, and none of the others,
/// keeps exactly its first `count` items when the empty ones are dropped.
proof fn lemma_filter_keeps_prefix(list: Seq<WorkAssignment>, count: int)
    requires
        0 <= count <= list.len(),
        forall|k: int| 0 <= k < count ==> list[k].trial_count > 0,
        forall|k: int| count <= k < list.len() ==> list[k].trial_count == 0,
    ensures
        list.filter(has_trials()) == list.take(count),
    decreases list.len(),
{
    reveal(Seq::filter);
    if list.len() > 0 {
        let shorter = list.drop_last();
        if count == list.len() {
            lemma_filter_keeps_prefix(shorter, count - 1);
            assert(shorter.take(count - 1) =~= shorter);
            assert(shorter.push(list.last()) =~= list.take(count));
        } else {
            lemma_filter_keeps_prefix(shorter, count);
            assert(shorter.take(count) =~= list.take(count));
        }
    } else {
        assert(list.take(count) =~= list);
    }
}

/// The workers with trials are the first `active_count` workers of the
/// partition: dropping the empty workers only cuts off the partition's tail.
pub proof fn lemma_active_is_prefix(total: u32, workers: u32, base_seed: u32)
    requires
        workers > 0,
    ensures
        0 <= active_count(total, workers) <= workers,
        active_assignments(total, workers, base_seed) == assignments(
            total,
            workers,
            base_seed,
        ).take(active_count(total, workers)),
        active_assignments(total, workers, base_seed).len() == active_count(total, workers),
        forall|k: int|
            0 <= k < workers ==> (#[trigger] assignments(total, workers, base_seed)[k].trial_count
                > 0 <==> k < active_count(total, workers)),
{
    let all = assignments(total, workers, base_seed);
    let count = active_count(total, workers);
    let t = total as int;
    let w = workers as int;
    if total < workers {
        vstd::arithmetic::div_mod::lemma_small_mod(total as nat, workers as nat);
        vstd::arithmetic::div_mod::lemma_basic_div(t, w);
    } else {
        vstd::arithmetic::div_mod::lemma_div_non_zero(t, w);
        vstd::arithmetic::div_mod::lemma_mod_bound(t, w);
    }
    assert forall|k: int| 0 <= k < count implies all[k].trial_count > 0 by {
        lemma_share_bounds(t, w, k);
    }
    assert forall|k: int| count <= k < all.len() implies all[k].trial_count == 0 by {
        lemma_share_bounds(t, w, k);
    }
    lemma_filter_keeps_prefix(all, count);
}

/// Dropping the empty workers loses no trial: the workers that take part
/// hold the run's trial count exactly, and each of them has a trial to run.
pub proof fn lemma_active_is_complete(total: u32, workers: u32, base_seed: u32)
    requires
        workers > 0,
    ensures
        total_assigned(active_assignments(total, workers, base_seed)) == total,
        forall|k: int|
            0 <= k < active_assignments(total, workers, base_seed).len()
                ==> #[trigger] active_assignments(total, workers, base_seed)[k].trial_count > 0,
{
    let all = assignments(total, workers, base_seed);
    let active = active_assignments(total, workers, base_seed);
    let count = active_count(total, workers);
    lemma_active_is_prefix(total, workers, base_seed);
    lemma_partition_is_complete(total, workers, base_seed);
    lemma_tail_without_trials(all, count);
    assert forall|k: int| 0 <= k < active.len() implies #[trigger] active[k].trial_count > 0 by {
        all.lemma_filter_pred(has_trials(), k);
    }
}

/// Assignments without trials at the end of a list add nothing to its total.
proof fn lemma_tail_without_trials(list: Seq<WorkAssignment>, count: int)
    requires
        0 <= count <= list.len(),
        forall|k: int| count <= k < list.len() ==> list[k].trial_count == 0,
    ensures
        total_assigned(list) == total_assigned(list.take(count)),
    decreases list.len(),
{
    if count == list.len() {
        assert(list.take(count) =~= list);
    } else {
        let shorter = list.drop_last();
        lemma_tail_without_trials(shorter, count);
        assert(shorter.take(count) =~= list.take(count));
    }
}

impl<S> View for MonteCarloEngine<S> {
    type V = EngineParams;

    closed spec fn view(&self) -> EngineParams {
        self.params
    }
}

impl<S> MonteCarloEngine<S> {
    /// The strategy that the engine was made with.
    pub closed spec fn spec_strategy(&self) -> S {
        self.strategy
    }

    /// What [`MonteCarloEngine::plan`] returns: the workers that have a
    /// trial, or why there are none.
    pub open spec fn spec_plan(&self) -> Result<Seq<WorkAssignment>, EngineError> {
        if self@.worker_count == 0 {
            Err(EngineError::NoWorkers)
        } else if self@.total_trials == 0 {
            Err(EngineError::NoTrials)
        } else {
            Ok(active_assignments(self@.total_trials, self@.worker_count, self@.base_seed))
        }
    }

    /// An engine for a run of `total_trials` trials of size `trial_size`,
    /// divided among `worker_count` workers and seeded from `base_seed`.
    /// Nothing is checked here: [`MonteCarloEngine::plan`] reports a run that
    /// cannot be made.
    pub fn new(
        total_trials: u32,
        trial_size: u32,
        worker_count: u32,
        base_seed: u32,
        strategy: S,
    ) -> (engine: Self)
        ensures
            engine@ == (EngineParams { total_trials, trial_size, worker_count, base_seed }),
            engine.spec_strategy() == strategy,
    {
        MonteCarloEngine {
            params: EngineParams { total_trials, trial_size, worker_count, base_seed },
            strategy,
        }
    }

    /// The parameters of the run.
    pub fn params(&self) -> (params: EngineParams)
        ensures
            params == self@,
    {
        self.params
    }

    /// The workers to dispatch, each with its trial count and its seed.
    ///
    /// These are the assignments of the partition that have at least one
    /// trial, in the order of the partition. There is at least one, and their
    /// trial counts add up to `total_trials`.
    ///
    /// Fails with [`EngineError::NoWorkers`] exactly when the worker count is
    /// zero, and with [`EngineError::NoTrials`] exactly when there is a worker
    /// but no trial.
    pub fn plan(&self) -> (result: Result<Vec<WorkAssignment>, EngineError>)
        ensures
            match result {
                Ok(plan) => self.spec_plan() == Ok::<Seq<WorkAssignment>, EngineError>(plan@),
                Err(error) => self.spec_plan() == Err::<Seq<WorkAssignment>, EngineError>(error),
            },
            result is Ok ==> result->Ok_0@.len() == active_count(
                self@.total_trials,
                self@.worker_count,
            ) && result->Ok_0@.len() > 0 && total_assigned(result->Ok_0@) == self@.total_trials,
            result is Ok ==> forall|k: int|
                0 <= k < result->Ok_0@.len() ==> #[trigger] result->Ok_0@[k].trial_count > 0,
    {
        let total: u32 = self.params.total_trials;
        let workers: u32 = self.params.worker_count;
        let base_seed: u32 = self.params.base_seed;
        let all = match partition(total, workers, base_seed) {
            Ok(all) => all,
            Err(error) => {
                return Err(error);
            },
        };
        if total == 0 {
            return Err(EngineError::NoTrials);
        }
        let mut active: Vec<WorkAssignment> = Vec::new();
        let mut index: usize = 0;
        while index < all.len()
            invariant
                index <= all.len(),
                active@ == all@.take(index as int).filter(has_trials()),
            decreases all.len() - index,
        {
            let assignment: WorkAssignment = all[index];
            proof {
                assert(all@.take(index + 1) =~= all@.take(index as int).push(assignment));
                all@.take(index as int).lemma_filter_push(assignment, has_trials());
            }
            if !assignment.is_empty() {
                active.push(assignment);
            }
            index = index + 1;
        }
        proof {
            assert(all@.take(index as int) =~= all@);
            lemma_active_is_prefix(total, workers, base_seed);
            lemma_active_is_complete(total, workers, base_seed);
        }
        Ok(active)
    }

    /// The strategy of the run.
    pub fn strategy(&self) -> (strategy: &S)
        ensures
            *strategy == self.spec_strategy(),
    {
        &self.strategy
    }
}

impl<S: MonteCarloStrategy> MonteCarloEngine<S> {
    /// Whether `samples` can be the samples of one worker: one per trial,
    /// in the order of the trials' seeds, each of them a sample that the
    /// strategy can return for that seed and the engine's trial size.
    pub open spec fn is_worker_outcome(
        &self,
        assignment: WorkAssignment,
        samples: Seq<S::Sample>,
    ) -> bool {
        &&& samples.len() == assignment.trial_count
        &&& forall|offset: int|
            0 <= offset < samples.len() ==> may_yield(
                &self.spec_strategy(),
                assignment.spec_trial_seed(offset),
                self@.trial_size,
                #[trigger] samples[offset],
            )
    }

    /// Whether `samples` can be the samples of a run: one list per worker
    /// of the plan, in the plan's order, each of them an outcome of its
    /// worker.
    pub open spec fn is_run_outcome(&self, samples: Seq<Seq<S::Sample>>) -> bool {
        &&& self.spec_plan() is Ok
        &&& samples.len() == self.spec_plan()->Ok_0.len()
        &&& forall|worker: int|
            0 <= worker < samples.len() ==> self.is_worker_outcome(
                self.spec_plan()->Ok_0[worker],
                #[trigger] samples[worker],
            )
    }

    /// Runs the trials of one worker, one after the other, and returns
    /// their samples in that order. Trial number `k` is run with the seed
    /// `assignment.seed + k`, modulo 2^32, and the engine's trial size.
    pub fn worker_samples(&self, assignment: &WorkAssignment) -> (samples: Vec<S::Sample>)
        ensures
            self.is_worker_outcome(*assignment, samples@),
    {
        let mut samples: Vec<S::Sample> = Vec::new();
        let mut offset: u32 = 0;
        while offset < assignment.trial_count
            invariant
                offset <= assignment.trial_count,
                samples@.len() == offset,
                forall|k: int|
                    0 <= k < offset ==> may_yield(
                        &self.spec_strategy(),
                        assignment.spec_trial_seed(k),
                        self@.trial_size,
                        #[trigger] samples@[k],
                    ),
            decreases assignment.trial_count - offset,
        {
            let seed: u32 = assignment.trial_seed(offset);
            let sample = self.strategy.run_trial(seed, self.params.trial_size);
            samples.push(sample);
            offset = offset + 1;
        }
        samples
    }

    /// Runs every trial of the run, the workers of the plan side by side on
    /// a pool of threads, and returns the samples worker by worker: entry
    /// `i` holds the samples of the plan's worker `i`, in the order of its
    /// trials. Workers without a trial have no entry, so that no entry is
    /// empty. The samples of the whole run are held in memory at once.
    ///
    /// Fails as [`MonteCarloEngine::plan`] does, before any trial is run.
    pub fn run(&self) -> (result: Result<Vec<Vec<S::Sample>>, EngineError>)
        ensures
            match result {
                Ok(samples) => self.is_run_outcome(sample_lists(samples@)),
                Err(error) => self.spec_plan() == Err::<Seq<WorkAssignment>, EngineError>(error),
            },
            result is Ok ==> result->Ok_0@.len() > 0,
            result is Ok ==> forall|worker: int|
                0 <= worker < result->Ok_0@.len() ==> (#[trigger] result->Ok_0@[worker]).len() > 0,
    {
        let plan = match self.plan() {
            Ok(plan) => plan,
            Err(error) => {
                return Err(error);
            },
        };
        let samples = dispatch(self, plan);
        Ok(samples)
    }
}

/// The samples of a run as plain sequences.
pub open spec fn sample_lists<T>(samples: Seq<Vec<T>>) -> Seq<Seq<T>> {
    Seq::new(samples.len(), |worker: int| samples[worker]@)
}

/// Hands every worker of `plan` to rayon's pool: `into_par_iter`, `map` and
/// `collect` of `rayon::iter`. `map` applies its closure to every item, and
/// `collect` into a `Vec` keeps the items' order, so entry `i` of the result
/// is what [`MonteCarloEngine::worker_samples`] returned for `plan[i]`. This
/// is taken from rayon's documentation and not proved. A panic in a
/// strategy's trial comes out of this call unchanged.
#[verifier::external_body]
fn dispatch<S: MonteCarloStrategy>(engine: &MonteCarloEngine<S>, plan: Vec<WorkAssignment>) -> (samples:
    Vec<Vec<S::Sample>>)
    ensures
        samples@.len() == plan@.len(),
        forall|worker: int|
            0 <= worker < plan@.len() ==> engine.is_worker_outcome(
                plan@[worker],
                (#[trigger] samples@[worker])@,
            ),
{
    plan.into_par_iter().map(|assignment| engine.worker_samples(&assignment)).collect()
}

/// Determinism: with a pure strategy, two runs of engines with the same
/// parameters and the same strategy return the same samples.
pub proof fn lemma_run_is_deterministic<S: MonteCarloStrategy>(
    first_engine: &MonteCarloEngine<S>,
    second_engine: &MonteCarloEngine<S>,
    first: Seq<Seq<S::Sample>>,
    second: Seq<Seq<S::Sample>>,
)
    requires
        first_engine@ == second_engine@,
        first_engine.spec_strategy() == second_engine.spec_strategy(),
        is_pure(&first_engine.spec_strategy()),
        first_engine.is_run_outcome(first),
        second_engine.is_run_outcome(second),
    ensures
        first == second,
{
    let plan = first_engine.spec_plan()->Ok_0;
    let strategy = first_engine.spec_strategy();
    assert forall|worker: int| 0 <= worker < first.len() implies first[worker] == second[worker] by {
        let assignment = plan[worker];
        assert(first_engine.is_worker_outcome(assignment, first[worker]));
        assert(second_engine.is_worker_outcome(assignment, second[worker]));
        assert forall|offset: int| 0 <= offset < first[worker].len() implies first[worker][offset]
            == second[worker][offset] by {
            assert(may_yield(
                &strategy,
                assignment.spec_trial_seed(offset),
                first_engine@.trial_size,
                first[worker][offset],
            ));
            assert(may_yield(
                &strategy,
                assignment.spec_trial_seed(offset),
                first_engine@.trial_size,
                second[worker][offset],
            ));
        }
        assert(first[worker] =~= second[worker]);
    }
    assert(first =~= second);
}

/// The first `count` workers of a run hold, one after the other, samples of
/// the run's first `trials_before(.., count)` seeds.
proof fn lemma_run_prefix_follows_seeds<S: MonteCarloStrategy>(
    engine: &MonteCarloEngine<S>,
    samples: Seq<Seq<S::Sample>>,
    count: int,
)
    requires
        engine.is_run_outcome(samples),
        0 <= count <= samples.len(),
    ensures
        samples.take(count).flatten().len() == trials_before(
            engine@.total_trials as int,
            engine@.worker_count as int,
            count,
        ),
        forall|place: int|
            0 <= place < samples.take(count).flatten().len() ==> may_yield(
                &engine.spec_strategy(),
                seed_after(engine@.base_seed, place),
                engine@.trial_size,
                #[trigger] samples.take(count).flatten()[place],
            ),
    decreases count,
{
    let total = engine@.total_trials;
    let workers = engine@.worker_count;
    let base_seed = engine@.base_seed;
    lemma_active_is_prefix(total, workers, base_seed);
    if count == 0 {
        assert(samples.take(0) =~= Seq::<Seq<S::Sample>>::empty());
        assert(samples.take(0).flatten() =~= Seq::<S::Sample>::empty());
    } else {
        let worker = count - 1;
        let before = trials_before(total as int, workers as int, worker);
        let earlier = samples.take(worker).flatten();
        let whole = samples.take(count).flatten();
        lemma_run_prefix_follows_seeds(engine, samples, worker);
        lemma_share_bounds(total as int, workers as int, worker);
        assert(samples.take(count) =~= samples.take(worker).push(samples[worker]));
        samples.take(worker).lemma_flatten_push(samples[worker]);
        assert(whole =~= earlier + samples[worker]);
        assert(engine.spec_plan()->Ok_0[worker] == assignment_at(
            total,
            workers,
            base_seed,
            worker,
        ));
        assert(engine.is_worker_outcome(engine.spec_plan()->Ok_0[worker], samples[worker]));
        assert forall|place: int| 0 <= place < whole.len() implies may_yield(
            &engine.spec_strategy(),
            seed_after(base_seed, place),
            engine@.trial_size,
            #[trigger] whole[place],
        ) by {
            if place < before {
                assert(whole[place] == earlier[place]);
            } else {
                let offset = place - before;
                assert(whole[place] == samples[worker][offset]);
                lemma_trial_seed_is_run_offset(total, workers, base_seed, worker, offset);
            }
        }
    }
}

/// A run samples every seed once: read worker after worker, its samples
/// are as many as the run has trials, and sample number `place` is one of
/// the seed `base_seed + place`, modulo 2^32. How the trials are divided
/// among the workers changes how the samples are grouped, and nothing else.
pub proof fn lemma_run_samples_every_seed_once<S: MonteCarloStrategy>(
    engine: &MonteCarloEngine<S>,
    samples: Seq<Seq<S::Sample>>,
)
    requires
        engine.is_run_outcome(samples),
    ensures
        samples.flatten().len() == engine@.total_trials,
        forall|place: int|
            0 <= place < engine@.total_trials ==> may_yield(
                &engine.spec_strategy(),
                seed_after(engine@.base_seed, place),
                engine@.trial_size,
                #[trigger] samples.flatten()[place],
            ),
{
    let total = engine@.total_trials;
    let workers = engine@.worker_count;
    let base_seed = engine@.base_seed;
    let count = active_count(total, workers);
    lemma_active_is_prefix(total, workers, base_seed);
    lemma_active_is_complete(total, workers, base_seed);
    lemma_total_assigned_prefix(total, workers, base_seed, count);
    lemma_run_prefix_follows_seeds(engine, samples, count);
    assert(samples.take(count) =~= samples);
}

/// With a pure strategy, the number of workers does not change which
/// samples a run draws: two runs with the same trial count, trial size,
/// base seed and strategy hold the same samples in the same order,
/// however the trials are divided.
pub proof fn lemma_worker_count_only_regroups<S: MonteCarloStrategy>(
    first_engine: &MonteCarloEngine<S>,
    second_engine: &MonteCarloEngine<S>,
    first: Seq<Seq<S::Sample>>,
    second: Seq<Seq<S::Sample>>,
)
    requires
        first_engine@.total_trials == second_engine@.total_trials,
        first_engine@.trial_size == second_engine@.trial_size,
        first_engine@.base_seed == second_engine@.base_seed,
        first_engine.spec_strategy() == second_engine.spec_strategy(),
        is_pure(&first_engine.spec_strategy()),
        first_engine.is_run_outcome(first),
        second_engine.is_run_outcome(second),
    ensures
        first.flatten() == second.flatten(),
{
    lemma_run_samples_every_seed_once(first_engine, first);
    lemma_run_samples_every_seed_once(second_engine, second);
    let strategy = first_engine.spec_strategy();
    assert forall|place: int| 0 <= place < first.flatten().len() implies first.flatten()[place]
        == second.flatten()[place] by {
        assert(may_yield(
            &strategy,
            seed_after(first_engine@.base_seed, place),
            first_engine@.trial_size,
            first.flatten()[place],
        ));
        assert(may_yield(
            &strategy,
            seed_after(first_engine@.base_seed, place),
            first_engine@.trial_size,
            second.flatten()[place],
        ));
    }
    assert(first.flatten() =~= second.flatten());
}

} // verus!
