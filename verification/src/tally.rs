use vstd::prelude::*;

verus! {

/// The running count of a rejection sampler: how many points of a trial
/// were drawn so far, and how many of them were hits. A trial of size
/// `trial_size` is complete once `trial_size` points were drawn; its hit
/// rate is `hits / draws`, which lies between zero and one.
#[derive(Debug)]
pub struct HitTally {
    trial_size: u32,
    draws: u32,
    hits: u32,
}

impl HitTally {
    #[verifier::type_invariant]
    spec fn well_formed(&self) -> bool {
        self.hits <= self.draws <= self.trial_size
    }

    /// The number of points that the trial draws in all.
    pub closed spec fn spec_trial_size(&self) -> int {
        self.trial_size as int
    }

    /// The number of points drawn so far.
    pub closed spec fn spec_draws(&self) -> int {
        self.draws as int
    }

    /// The number of points drawn so far that were hits.
    pub closed spec fn spec_hits(&self) -> int {
        self.hits as int
    }

    /// The tally of a trial of size `trial_size`, before its first draw.
    pub fn new(trial_size: u32) -> (tally: Self)
        ensures
            tally.spec_trial_size() == trial_size,
            tally.spec_draws() == 0,
            tally.spec_hits() == 0,
    {
        HitTally { trial_size, draws: 0, hits: 0 }
    }

    /// Whether every point of the trial was drawn.
    pub fn is_complete(&self) -> (complete: bool)
        ensures
            complete == (self.spec_draws() == self.spec_trial_size()),
    {
        self.draws == self.trial_size
    }

    /// Counts one more point, which was a hit if `hit` says so.
    pub fn record(&mut self, hit: bool)
        requires
            old(self).spec_draws() < old(self).spec_trial_size(),
        ensures
            final(self).spec_trial_size() == old(self).spec_trial_size(),
            final(self).spec_draws() == old(self).spec_draws() + 1,
            final(self).spec_hits() == old(self).spec_hits() + if hit {
                1int
            } else {
                0int
            },
    {
        proof {
            use_type_invariant(&*self);
        }
        let hits: u32 = if hit {
            self.hits + 1
        } else {
            self.hits
        };
        *self = HitTally { trial_size: self.trial_size, draws: self.draws + 1, hits };
    }

    /// The number of points that the trial draws in all.
    pub fn trial_size(&self) -> (trial_size: u32)
        ensures
            trial_size == self.spec_trial_size(),
    {
        self.trial_size
    }

    /// The number of points drawn so far: never more than the trial's size.
    pub fn draws(&self) -> (draws: u32)
        ensures
            draws == self.spec_draws(),
            draws <= self.spec_trial_size(),
    {
        proof {
            use_type_invariant(self);
        }
        self.draws
    }

    /// The number of hits so far: never more than the number of draws.
    pub fn hits(&self) -> (hits: u32)
        ensures
            hits == self.spec_hits(),
            hits <= self.spec_draws(),
    {
        proof {
            use_type_invariant(self);
        }
        self.hits
    }
}

} // verus!
