//! What to make of a solver's answer.
//!
//! The solver itself runs outside this crate. Its answer comes back as a
//! `SolverOutcome`, and the functions here turn it into weights or into an
//! error that says what went wrong.

use vstd::prelude::*;
use crate::binary64::zeros;
use crate::binary64::ZERO;
use crate::problem::InvalidInput;

verus! {

/// How the solver's run ended.
#[derive(Clone, Copy, Debug, PartialEq, Eq, Structural)]
pub enum SolverStatus {
    /// The solver has not run.
    Unsolved,
    /// A solution was found.
    Solved,
    /// No point satisfies the constraints.
    PrimalInfeasible,
    /// The objective is unbounded below.
    DualInfeasible,
    /// A solution was found, at reduced accuracy.
    AlmostSolved,
    /// No point satisfies the constraints, at reduced accuracy.
    AlmostPrimalInfeasible,
    /// The objective is unbounded below, at reduced accuracy.
    AlmostDualInfeasible,
    /// The iteration limit was reached first.
    MaxIterations,
    /// The time limit was reached first.
    MaxTime,
    /// The solver stopped on a numerical error.
    NumericalError,
    /// The solver stopped for lack of progress.
    InsufficientProgress,
    /// A callback stopped the solver.
    CallbackTerminated,
}

/// What came back from the solver.
#[derive(Debug, PartialEq, Eq)]
pub enum SolverOutcome {
    /// The solver refused to set the problem up.
    Rejected,
    /// The solver ran and stopped with this status and primal vector.
    Terminated { status: SolverStatus, x: Vec<u64> },
}

/// Why no weights are returned.
#[derive(Clone, Copy, Debug, PartialEq, Eq, Structural)]
pub enum SolveError {
    /// The raw inputs were turned down before any problem was built.
    InvalidInput(InvalidInput),
    /// The solver refused to set the problem up.
    SolverInitialization,
    /// No portfolio meets the constraints, for one because the target return
    /// lies outside the range of the mean returns.
    Infeasible,
    /// The solver stopped without a solution of the right length.
    NoSolution,
}

/// The status reports a solution.
pub open spec fn reports_solution(status: SolverStatus) -> bool {
    status == SolverStatus::Solved || status == SolverStatus::AlmostSolved
}

/// The status reports that the constraints cannot be met.
pub open spec fn reports_infeasible(status: SolverStatus) -> bool {
    status == SolverStatus::PrimalInfeasible || status == SolverStatus::AlmostPrimalInfeasible
}

/// The weights for `n` assets that an outcome amounts to when nothing is
/// papered over: the primal vector of a solved run, unchanged, and an error
/// in every other case.
pub open spec fn weights_of(n: int, outcome: SolverOutcome) -> Result<Seq<u64>, SolveError> {
    match outcome {
        SolverOutcome::Rejected => Err(SolveError::SolverInitialization),
        SolverOutcome::Terminated { status, x } => {
            if reports_infeasible(status) {
                Err(SolveError::Infeasible)
            } else if reports_solution(status) && x@.len() == n {
                Ok(x@)
            } else {
                Err(SolveError::NoSolution)
            }
        },
    }
}

/// The weights for `n` assets that an outcome amounts to when an empty
/// primal vector is read as all zeros and the status is not consulted.
pub open spec fn weights_or_zero_of(n: int, outcome: SolverOutcome) -> Result<
    Seq<u64>,
    SolveError,
> {
    match outcome {
        SolverOutcome::Rejected => Err(SolveError::SolverInitialization),
        SolverOutcome::Terminated { status, x } => {
            if x@.len() > 0 {
                Ok(x@)
            } else {
                Ok(Seq::new(n as nat, |i: int| ZERO))
            }
        },
    }
}

/// Tells a run that ended in a solution from the rest.
pub fn is_solution(status: SolverStatus) -> (yes: bool)
    ensures
        yes == reports_solution(status),
{
    match status {
        SolverStatus::Solved | SolverStatus::AlmostSolved => true,
        _ => false,
    }
}

/// Tells a run that found the constraints impossible from the rest.
pub fn is_infeasible(status: SolverStatus) -> (yes: bool)
    ensures
        yes == reports_infeasible(status),
{
    match status {
        SolverStatus::PrimalInfeasible | SolverStatus::AlmostPrimalInfeasible => true,
        _ => false,
    }
}

/// Extracts the weights of `n` assets from the solver's outcome.
///
/// Weights are returned only from a run that reports a solution with one
/// weight per asset, and then as the solver gave them. An infeasible problem,
/// a refused problem and a run without a solution each give their own error.
pub fn extract_weights(n: usize, outcome: SolverOutcome) -> (weights: Result<Vec<u64>, SolveError>)
    ensures
        match weights {
            Ok(w) => weights_of(n as int, outcome) == Ok::<Seq<u64>, SolveError>(w@),
            Err(e) => weights_of(n as int, outcome) == Err::<Seq<u64>, SolveError>(e),
        },
{
    match outcome {
        SolverOutcome::Rejected => Err(SolveError::SolverInitialization),
        SolverOutcome::Terminated { status, x } => {
            if is_infeasible(status) {
                Err(SolveError::Infeasible)
            } else if is_solution(status) && x.len() == n {
                Ok(x)
            } else {
                Err(SolveError::NoSolution)
            }
        },
    }
}

/// Extracts the weights of `n` assets, reading an empty primal vector as the
/// all-zero portfolio.
///
/// This is the lenient reading: a primal vector that is not empty is returned
/// as it is whatever the status says, and an empty one becomes `n` zeros. Only
/// a refused problem is an error.
pub fn extract_weights_or_zero(n: usize, outcome: SolverOutcome) -> (weights: Result<
    Vec<u64>,
    SolveError,
>)
    ensures
        match weights {
            Ok(w) => weights_or_zero_of(n as int, outcome) == Ok::<Seq<u64>, SolveError>(w@),
            Err(e) => weights_or_zero_of(n as int, outcome) == Err::<Seq<u64>, SolveError>(e),
        },
{
    match outcome {
        SolverOutcome::Rejected => Err(SolveError::SolverInitialization),
        SolverOutcome::Terminated { status, x } => {
            if x.len() > 0 {
                Ok(x)
            } else {
                Ok(zeros(n))
            }
        },
    }
}

} // verus!
