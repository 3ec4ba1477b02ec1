use vstd::prelude::*;

verus! {

/// Why a run cannot be planned.
#[derive(Clone, Copy, Debug, PartialEq, Eq, Structural)]
pub enum EngineError {
    /// The worker count is zero: there is nobody to divide the trials among.
    NoWorkers,
    /// The trial count is zero: there is nothing to average.
    NoTrials,
}

} // verus!
