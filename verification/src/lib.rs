//! Fast and accurate embedded nonconvex optimisation.
//!
//! The library solves problems of the form
//!
//! ```text
//! minimise f(u)  subject to  u in U
//! ```
//!
//! where `f` is a smooth cost function with Lipschitz-continuous gradient and
//! `U` is a closed set on which projections are cheap to compute.
use vstd::prelude::*;

pub mod constraints;
pub mod engine;
pub mod exact;
pub mod matrix_operations;

pub use crate::engine::{fbs, panoc, AlgorithmEngine, OptFloat, Optimizer, Problem};

verus! {

/// Errors that may arise while solving a problem
#[derive(Debug, Clone, Copy, PartialEq, Eq, Structural)]
pub enum SolverError {
    /// If the gradient or cost function cannot be evaluated
    Cost,
    /// Computation failed and NaN/Infinite value was obtained
    NotFiniteComputation,
}

/// Result of a function call (status)
pub type FunctionCallResult = Result<(), SolverError>;

} // verus!
