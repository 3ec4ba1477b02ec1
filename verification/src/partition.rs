use crate::error::EngineError;
use vstd::prelude::*;

verus! {

/// The number of distinct seeds: seeds are `u32` values, and sums of seeds
/// and offsets are taken modulo this.
pub const SEED_SPACE: u64 = 0x1_0000_0000;

/// What one worker is handed for a run: its index, how many trials it runs,
/// and the seed of its first trial.
#[derive(Clone, Copy, Debug, PartialEq, Eq, Structural)]
pub struct WorkAssignment {
    pub worker_index: u32,
    pub trial_count: u32,
    pub seed: u32,
}

/// The number of trials of worker `index`, when `total` trials are split
/// over `workers` workers: the quotient, and one more for each of the first
/// `total % workers` workers.
pub open spec fn share(total: int, workers: int, index: int) -> int {
    total / workers + if index < total % workers {
        1int
    } else {
        0int
    }
}

/// The number of trials of all workers with an index below `index`.
pub open spec fn trials_before(total: int, workers: int, index: int) -> int
    decreases index,
{
    if index <= 0 {
        0
    } else {
        trials_before(total, workers, index - 1) + share(total, workers, index - 1)
    }
}

/// The seed that lies `offset` steps after `base`, modulo 2^32.
pub open spec fn seed_after(base: u32, offset: int) -> u32 {
    ((base + offset) % (SEED_SPACE as int)) as u32
}

/// The assignment of worker `index`.
pub open spec fn assignment_at(total: u32, workers: u32, base_seed: u32, index: int)
    -> WorkAssignment {
    WorkAssignment {
        worker_index: index as u32,
        trial_count: share(total as int, workers as int, index) as u32,
        seed: seed_after(base_seed, trials_before(total as int, workers as int, index)),
    }
}

/// The partition of a run: one assignment per worker, by ascending index.
pub open spec fn assignments(total: u32, workers: u32, base_seed: u32) -> Seq<WorkAssignment> {
    Seq::new(workers as nat, |index: int| assignment_at(total, workers, base_seed, index))
}

/// The number of trials that a list of assignments holds in all.
pub open spec fn total_assigned(plan: Seq<WorkAssignment>) -> int
    decreases plan.len(),
{
    if plan.len() == 0 {
        0
    } else {
        total_assigned(plan.drop_last()) + plan.last().trial_count
    }
}

impl WorkAssignment {
    /// The seed of this worker's trial number `offset`.
    pub open spec fn spec_trial_seed(&self, offset: int) -> u32 {
        seed_after(self.seed, offset)
    }

    /// The seed of this worker's trial number `offset`, counted from zero:
    /// the worker's seed plus `offset`, modulo 2^32.
    pub fn trial_seed(&self, offset: u32) -> (seed: u32)
        requires
            offset < self.trial_count,
        ensures
            seed == self.spec_trial_seed(offset as int),
    {
        self.seed.wrapping_add(offset)
    }

    /// Whether this worker has no trial to run.
    pub fn is_empty(&self) -> (empty: bool)
        ensures
            empty == (self.trial_count == 0),
    {
        self.trial_count == 0
    }
}

/// The workers below `index` hold `index` quotients and one extra trial for
/// each of them that is among the first `total % workers`.
pub proof fn lemma_trials_before_closed_form(total: int, workers: int, index: int)
    requires
        0 <= total,
        0 < workers,
        0 <= index,
    ensures
        trials_before(total, workers, index) == index * (total / workers) + if index < total
            % workers {
            index
        } else {
            total % workers
        },
    decreases index,
{
    let q = total / workers;
    vstd::arithmetic::div_mod::lemma_mod_bound(total, workers);
    if index > 0 {
        lemma_trials_before_closed_form(total, workers, index - 1);
        assert((index - 1) * q + q == index * q) by (nonlinear_arith);
    } else {
        assert(index * q == 0) by (nonlinear_arith)
            requires
                index == 0,
        ;
    }
}

/// With at least one worker, the workers below `index` hold no more trials
/// than the run has, and all workers together hold exactly the run's trials.
pub proof fn lemma_trials_before_bounds(total: int, workers: int, index: int)
    requires
        0 <= total,
        0 < workers,
        0 <= index <= workers,
    ensures
        0 <= trials_before(total, workers, index) <= total,
        trials_before(total, workers, workers) == total,
        index < workers ==> trials_before(total, workers, index) + share(total, workers, index)
            <= total,
{
    let q = total / workers;
    let r = total % workers;
    lemma_trials_before_closed_form(total, workers, index);
    lemma_trials_before_closed_form(total, workers, workers);
    vstd::arithmetic::div_mod::lemma_fundamental_div_mod(total, workers);
    vstd::arithmetic::div_mod::lemma_div_pos_is_pos(total, workers);
    vstd::arithmetic::div_mod::lemma_mod_bound(total, workers);
    assert(workers * q == q * workers) by (nonlinear_arith);
    assert(0 <= index * q <= workers * q) by (nonlinear_arith)
        requires
            0 <= index <= workers,
            0 <= q,
    ;
    if index < workers {
        lemma_trials_before_closed_form(total, workers, index + 1);
        assert((index + 1) * q <= workers * q) by (nonlinear_arith)
            requires
                0 <= index + 1 <= workers,
                0 <= q,
        ;
    }
}

/// Splits `total_trials` trials over `worker_count` workers.
///
/// Worker `i` gets `total_trials / worker_count` trials, and one more if
/// `i < total_trials % worker_count`. Its seed is `base_seed` plus the
/// number of trials of the workers before it, modulo 2^32. A worker may be
/// left with no trial; it is listed all the same.
///
/// Fails with [`EngineError::NoWorkers`] exactly when `worker_count` is zero.
pub fn partition(total_trials: u32, worker_count: u32, base_seed: u32) -> (result: Result<
    Vec<WorkAssignment>,
    EngineError,
>)
    ensures
        worker_count == 0 ==> result == Err::<Vec<WorkAssignment>, EngineError>(
            EngineError::NoWorkers,
        ),
        worker_count > 0 ==> result is Ok && result->Ok_0@ == assignments(
            total_trials,
            worker_count,
            base_seed,
        ),
{
    if worker_count == 0 {
        return Err(EngineError::NoWorkers);
    }
    let quotient: u32 = total_trials / worker_count;
    let remainder: u32 = total_trials % worker_count;
    let mut out: Vec<WorkAssignment> = Vec::new();
    let mut assigned: u32 = 0;
    let mut index: u32 = 0;
    while index < worker_count
        invariant
            worker_count > 0,
            index <= worker_count,
            quotient == total_trials / worker_count,
            remainder == total_trials % worker_count,
            assigned == trials_before(total_trials as int, worker_count as int, index as int),
            out@.len() == index,
            forall|k: int|
                0 <= k < index ==> out@[k] == assignment_at(
                    total_trials,
                    worker_count,
                    base_seed,
                    k,
                ),
        decreases worker_count - index,
    {
        proof {
            lemma_trials_before_bounds(total_trials as int, worker_count as int, index as int);
        }
        let extra: u32 = if index < remainder {
            1
        } else {
            0
        };
        let trial_count: u32 = quotient + extra;
        let seed: u32 = base_seed.wrapping_add(assigned);
        out.push(WorkAssignment { worker_index: index, trial_count, seed });
        assigned = assigned + trial_count;
        index = index + 1;
    }
    assert(out@ =~= assignments(total_trials, worker_count, base_seed));
    Ok(out)
}

/// A worker's share is never negative and never more than the run.
pub proof fn lemma_share_bounds(total: int, workers: int, index: int)
    requires
        0 <= total,
        0 < workers,
        0 <= index < workers,
    ensures
        0 <= share(total, workers, index) <= total,
{
    lemma_trials_before_bounds(total, workers, index);
    vstd::arithmetic::div_mod::lemma_div_pos_is_pos(total, workers);
}

/// The first `count` workers of a partition hold `trials_before(.., count)`
/// trials in all.
pub proof fn lemma_total_assigned_prefix(total: u32, workers: u32, base_seed: u32, count: int)
    requires
        0 <= count <= workers,
    ensures
        total_assigned(assignments(total, workers, base_seed).take(count)) == trials_before(
            total as int,
            workers as int,
            count,
        ),
    decreases count,
{
    let all = assignments(total, workers, base_seed);
    if count > 0 {
        lemma_total_assigned_prefix(total, workers, base_seed, count - 1);
        lemma_share_bounds(total as int, workers as int, count - 1);
        assert(all.take(count).drop_last() =~= all.take(count - 1));
        assert(all.take(count).last() == assignment_at(total, workers, base_seed, count - 1));
    }
}

/// Partition completeness: with at least one worker, the trial counts of a
/// partition add up to the run's trial count exactly.
pub proof fn lemma_partition_is_complete(total: u32, workers: u32, base_seed: u32)
    requires
        workers > 0,
    ensures
        total_assigned(assignments(total, workers, base_seed)) == total,
{
    let all = assignments(total, workers, base_seed);
    lemma_total_assigned_prefix(total, workers, base_seed, workers as int);
    lemma_trials_before_bounds(total as int, workers as int, workers as int);
    assert(all.take(workers as int) =~= all);
}

/// Partition balance: with at least one worker, the trial counts of any two
/// workers differ by at most one, and a worker never has fewer trials than
/// one with a higher index.
pub proof fn lemma_partition_is_balanced(
    total: u32,
    workers: u32,
    base_seed: u32,
    first: int,
    second: int,
)
    requires
        0 <= first <= second < workers,
    ensures
        ({
            let all = assignments(total, workers, base_seed);
            all[second].trial_count <= all[first].trial_count <= all[second].trial_count + 1
        }),
{
    lemma_share_bounds(total as int, workers as int, first);
    lemma_share_bounds(total as int, workers as int, second);
}

/// The trials before a worker are no more than the trials before a later one.
pub proof fn lemma_trials_before_monotonic(total: int, workers: int, low: int, high: int)
    requires
        0 <= total,
        0 < workers,
        0 <= low <= high,
    ensures
        trials_before(total, workers, low) <= trials_before(total, workers, high),
    decreases high - low,
{
    if low < high {
        lemma_trials_before_monotonic(total, workers, low, high - 1);
        vstd::arithmetic::div_mod::lemma_div_pos_is_pos(total, workers);
    }
}

/// The seed of trial `offset` of worker `index` is the run's base seed plus
/// the number of trials that come before that trial in the whole run,
/// modulo 2^32.
pub proof fn lemma_trial_seed_is_run_offset(
    total: u32,
    workers: u32,
    base_seed: u32,
    index: int,
    offset: int,
)
    requires
        0 <= index < workers,
        0 <= offset < share(total as int, workers as int, index),
    ensures
        0 <= trials_before(total as int, workers as int, index) + offset < total,
        assignments(total, workers, base_seed)[index].spec_trial_seed(offset) == seed_after(
            base_seed,
            trials_before(total as int, workers as int, index) + offset,
        ),
{
    lemma_trials_before_bounds(total as int, workers as int, index);
}

/// No seed is used twice in a run: two different trials, of one worker or
/// of two, never get the same seed.
pub proof fn lemma_seeds_never_reused(
    total: u32,
    workers: u32,
    base_seed: u32,
    first_index: int,
    first_offset: int,
    second_index: int,
    second_offset: int,
)
    requires
        0 <= first_index < workers,
        0 <= second_index < workers,
        0 <= first_offset < share(total as int, workers as int, first_index),
        0 <= second_offset < share(total as int, workers as int, second_index),
        first_index != second_index || first_offset != second_offset,
    ensures
        ({
            let all = assignments(total, workers, base_seed);
            all[first_index].spec_trial_seed(first_offset) != all[second_index].spec_trial_seed(
                second_offset,
            )
        }),
{
    let t = total as int;
    let w = workers as int;
    lemma_trial_seed_is_run_offset(total, workers, base_seed, first_index, first_offset);
    lemma_trial_seed_is_run_offset(total, workers, base_seed, second_index, second_offset);
    let first_place = trials_before(t, w, first_index) + first_offset;
    let second_place = trials_before(t, w, second_index) + second_offset;
    if first_index < second_index {
        lemma_trials_before_monotonic(t, w, first_index + 1, second_index);
    } else if second_index < first_index {
        lemma_trials_before_monotonic(t, w, second_index + 1, first_index);
    }
    assert(first_place != second_place);
}

} // verus!
