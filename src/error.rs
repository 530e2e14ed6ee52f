use vstd::prelude::*;

verus! {

/// What can go wrong on the way from raw counts to an efficiency curve.
#[derive(Debug, Clone, Copy, PartialEq, Eq, Structural)]
pub enum EfficiencyError {
    /// Inputs that no computation accepts: a non-positive half-life, a zero
    /// intensity, observation arrays of different lengths, too few observations.
    InvalidInput,
    /// The model cannot be built from the given parameters or initial guesses.
    ModelConstructionFailure,
    /// The solver hit its iteration limit or broke down numerically.
    SolverNonConvergence,
    /// A curve, an interval or a parameter was asked of a fit that never succeeded.
    MissingFitResult,
    /// The activity was asked for before both dates were set.
    UnsetDate,
}

} // verus!
