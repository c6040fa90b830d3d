//! Status of the solver
use crate::engine::opt_float::OptFloat;
use crate::engine::ExitStatus;
use std::time::Duration;
use vstd::prelude::*;

verus! {

/// `Duration::clone`: a `Duration` is `Copy`, and its clone is the value
/// itself.
pub assume_specification[ <Duration as Clone>::clone ](d: &Duration) -> (r: Duration)
    ensures
        r == *d,
;

/// Solver status
///
/// This structure contains information about the solver status. Instances of
/// `SolverStatus` are returned by optimizers.
#[derive(Debug, PartialEq, Copy, Clone)]
pub struct SolverStatus<T: OptFloat> {
    /// exit status of the algorithm
    exit_status: ExitStatus,
    /// number of iterations for convergence
    num_iter: usize,
    /// time it took to solve
    solve_time: Duration,
    /// norm of the fixed-point residual (FPR)
    fpr_norm: T,
    /// cost value at the candidate solution
    cost_value: T,
}

impl<T: OptFloat> SolverStatus<T> {
    /// Exit status of the algorithm.
    pub closed spec fn exit_status_spec(&self) -> ExitStatus {
        self.exit_status
    }

    /// Number of iterations.
    pub closed spec fn iterations_spec(&self) -> usize {
        self.num_iter
    }

    /// Time it took to solve.
    pub closed spec fn solve_time_spec(&self) -> Duration {
        self.solve_time
    }

    /// Norm of the fixed-point residual.
    pub closed spec fn norm_fpr_spec(&self) -> T {
        self.fpr_norm
    }

    /// Cost at the candidate solution.
    pub closed spec fn cost_value_spec(&self) -> T {
        self.cost_value
    }

    /// Constructs a new instance of SolverStatus
    ///
    /// ## Arguments
    ///
    /// - `exit_status` exit status of the algorithm
    /// - `num_iter` number of iterations
    /// - `solve_time` total time to solve
    /// - `fpr_norm` norm of the fixed-point residual; a measure of the
    ///   accuracy of the solution
    /// - `cost_value` the value of the cost function at the solution
    pub fn new(
        exit_status: ExitStatus,
        num_iter: usize,
        solve_time: Duration,
        fpr_norm: T,
        cost_value: T,
    ) -> (s: SolverStatus<T>)
        ensures
            s.exit_status_spec() == exit_status,
            s.iterations_spec() == num_iter,
            s.solve_time_spec() == solve_time,
            s.norm_fpr_spec() == fpr_norm,
            s.cost_value_spec() == cost_value,
    {
        SolverStatus { exit_status, num_iter, solve_time, fpr_norm, cost_value }
    }

    /// whether the algorithm has converged
    pub fn has_converged(&self) -> (b: bool)
        ensures
            b == (self.exit_status_spec() == ExitStatus::Converged),
    {
        match self.exit_status {
            ExitStatus::Converged => true,
            _ => false,
        }
    }

    /// number of iterations taken by the algorithm
    pub fn iterations(&self) -> (n: usize)
        ensures
            n == self.iterations_spec(),
    {
        self.num_iter
    }

    /// total execution time
    pub fn solve_time(&self) -> (t: Duration)
        ensures
            t == self.solve_time_spec(),
    {
        self.solve_time
    }

    /// norm of the fixed point residual
    pub fn norm_fpr(&self) -> (r: T)
        ensures
            r == self.norm_fpr_spec(),
    {
        self.fpr_norm
    }

    /// value of the cost at the solution
    pub fn cost_value(&self) -> (c: T)
        ensures
            c == self.cost_value_spec(),
    {
        self.cost_value
    }

    /// exit status of solver
    pub fn exit_status(&self) -> (e: ExitStatus)
        ensures
            e == self.exit_status_spec(),
    {
        self.exit_status
    }
}

} // verus!
