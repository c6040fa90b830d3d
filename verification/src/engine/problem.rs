//! An optimization problem
//!
//! This struct defines an optimization problem in terms of its cost function
//! (cost function and its gradient) and constraints
//!
//! Cost functions are user defined.
use crate::constraints::Constraint;
use crate::engine::opt_float::OptFloat;
use crate::{FunctionCallResult, SolverError};
use std::marker::PhantomData;
use vstd::prelude::*;

verus! {

/// Definition of an optimisation problem
///
/// The definition of an optimisation problem involves:
/// - the gradient of the cost function
/// - the cost function
/// - the set of constraints, which is described by implementations of
///   [`Constraint`]
pub struct Problem<'a, GradientType, ConstraintType, CostType, T> where
    GradientType: Fn(&[T], &mut [T]) -> FunctionCallResult,
    CostType: Fn(&[T], &mut T) -> FunctionCallResult,
    ConstraintType: Constraint<T>,
    T: OptFloat,
 {
    /// constraints
    pub constraints: &'a ConstraintType,
    /// gradient of the cost
    pub gradf: GradientType,
    /// cost function
    pub cost: CostType,
    /// phantom data for float type
    pub phantom: PhantomData<T>,
}

impl<'a, GradientType, ConstraintType, CostType, T> Problem<
    'a,
    GradientType,
    ConstraintType,
    CostType,
    T,
> where
    GradientType: Fn(&[T], &mut [T]) -> FunctionCallResult,
    CostType: Fn(&[T], &mut T) -> FunctionCallResult,
    ConstraintType: Constraint<T>,
    T: OptFloat,
 {
    /// The problem is posed for vectors of dimension `n`: the gradient and the
    /// cost can be evaluated at every such vector, whatever the buffer that
    /// takes the result holds, and such a vector can be projected on the
    /// constraints.
    pub open spec fn accepts_dimension(&self, n: nat) -> bool {
        &&& forall|u: &[T], g: &mut [T]| u@.len() == n ==> call_requires(self.gradf, (u, g))
        &&& forall|u: &[T], c: &mut T| u@.len() == n ==> call_requires(self.cost, (u, c))
        &&& self.constraints.admits_dimension(n)
    }

    /// The evaluation of the gradient at a vector with the entries `u` can
    /// end with the error `e`.
    pub open spec fn gradient_can_fail(&self, u: Seq<T>, e: SolverError) -> bool {
        exists|v: &[T], g: &mut [T]|
            v@ == u && #[trigger] call_ensures(self.gradf, (v, g), Err::<(), SolverError>(e))
    }

    /// The evaluation of the cost at a vector with the entries `u` can end
    /// with the error `e`.
    pub open spec fn cost_can_fail(&self, u: Seq<T>, e: SolverError) -> bool {
        exists|v: &[T], c: &mut T|
            v@ == u && #[trigger] call_ensures(self.cost, (v, c), Err::<(), SolverError>(e))
    }

    /// Construct a new instance of an optimisation problem
    ///
    /// ## Arguments
    ///
    /// - `constraints` constraints
    /// - `cost_gradient` gradient of the cost function
    /// - `cost` cost function
    ///
    /// ## Returns
    ///
    /// New instance of `Problem`
    pub fn new(constraints: &'a ConstraintType, cost_gradient: GradientType, cost: CostType) -> (p:
        Problem<'a, GradientType, ConstraintType, CostType, T>)
        ensures
            p.constraints == constraints,
            p.gradf == cost_gradient,
            p.cost == cost,
    {
        Problem { constraints, gradf: cost_gradient, cost, phantom: PhantomData }
    }
}

} // verus!
