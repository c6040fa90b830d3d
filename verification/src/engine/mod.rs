//! Optimisation algorithms
use crate::{FunctionCallResult, SolverError};
use vstd::prelude::*;

pub mod fbs;
pub mod opt_float;
pub mod panoc;
pub mod problem;
pub mod solver_status;

pub use opt_float::OptFloat;
pub use problem::Problem;
pub use solver_status::SolverStatus;

verus! {

/// Exit status of an algorithm (not algorithm specific)
#[derive(Debug, Clone, Copy, PartialEq, Eq, Structural)]
pub enum ExitStatus {
    /// The algorithm has converged
    ///
    /// All termination criteria are satisfied and the algorithm
    /// converged within the available time and number of iterations
    Converged,
    /// Failed to converge because the maximum number of iterations was reached
    NotConvergedIterations,
    /// Failed to converge because the maximum execution time was reached
    NotConvergedOutOfTime,
}

/// A general optimizer
pub trait Optimizer<T: OptFloat> {
    /// The optimizer is set up for decision variables of dimension `n`.
    spec fn ready_for(&self, n: nat) -> bool;

    /// solves a given problem and updates the initial estimate `u` with the
    /// solution
    ///
    /// Returns the solver status; a status is returned only with a point and
    /// a cost that are finite.
    fn solve(&mut self, u: &mut [T]) -> (r: Result<SolverStatus<T>, SolverError>)
        requires
            old(self).ready_for(old(u)@.len()),
        ensures
            final(u)@.len() == old(u)@.len(),
            final(self).ready_for(final(u)@.len()),
            r matches Ok(status) ==> crate::matrix_operations::is_finite_spec(final(u)@)
                && status.cost_value_spec().is_finite_spec(),
    ;
}

/// Engine supporting an algorithm
///
/// An engine is responsible for the allocation of memory for an algorithm,
/// especially memory that is reuasble is multiple instances of the same
/// algorithm (as in model predictive control).
///
/// It defines what the algorithm does at every step (see `step`) and whether
/// the specified termination criterion is satisfied
pub trait AlgorithmEngine<T: OptFloat> {
    /// The engine is set up for decision variables of dimension `n`.
    spec fn ready_for(&self, n: nat) -> bool;

    /// Take a step of the algorithm and return `Ok(true)` only if the
    /// iterations should continue
    fn step(&mut self, u: &mut [T]) -> (r: Result<bool, SolverError>)
        requires
            old(self).ready_for(old(u)@.len()),
        ensures
            final(u)@.len() == old(u)@.len(),
            final(self).ready_for(final(u)@.len()),
    ;

    /// Initializes the algorithm
    fn init(&mut self, u: &mut [T]) -> (r: FunctionCallResult)
        requires
            old(self).ready_for(old(u)@.len()),
        ensures
            final(u)@.len() == old(u)@.len(),
            final(self).ready_for(final(u)@.len()),
    ;
}

} // verus!
