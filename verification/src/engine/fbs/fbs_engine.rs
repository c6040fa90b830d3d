//! FBS Engine
use crate::constraints::Constraint;
use crate::engine::fbs::FBSCache;
use crate::engine::opt_float::{gt_spec, OptFloat};
use crate::exact::{exact, lemma_max_dist_value, max_dist, values};
use crate::engine::{AlgorithmEngine, Problem};
use crate::matrix_operations::{norm_inf_diff, norm_inf_diff_spec};
use crate::{FunctionCallResult, SolverError};
use vstd::prelude::*;

verus! {

/// The point `u - gamma * g`; entries for which the gradient has no entry
/// stay as they are.
pub open spec fn gradient_update_spec<T: OptFloat>(u: Seq<T>, gamma: T, g: Seq<T>) -> Seq<T> {
    Seq::new(
        u.len(),
        |i: int|
            if i < g.len() {
                u[i].sub_spec(gamma.mul_spec(g[i]))
            } else {
                u[i]
            },
    )
}

/// `k` is the number of a step of a run of `n` steps.
pub open spec fn is_step_of(k: int, n: nat) -> bool {
    0 <= k < n
}

/// The infinity norm of the move from the point `k` of `path` to the next
/// one.
pub open spec fn residual_at<T: OptFloat>(path: Seq<Seq<T>>, k: int) -> T {
    norm_inf_diff_spec(path[k + 1], path[k])
}

/// The points `path` are those of a run of forward-backward steps with the
/// step size `gamma`, in which the step from the point `k` uses the gradient
/// `k` of `gradients`, and every step but the last moves the point by more
/// than `tolerance`.
pub open spec fn is_run<C: Constraint<T>, T: OptFloat>(
    constraints: &C,
    gamma: T,
    tolerance: T,
    path: Seq<Seq<T>>,
    gradients: Seq<Seq<T>>,
) -> bool {
    &&& path.len() == gradients.len() + 1
    &&& forall|k: int|
        0 <= k < gradients.len() ==> path[k + 1] == constraints.projection(
            gradient_update_spec(path[k], gamma, #[trigger] gradients[k]),
        )
    &&& forall|k: int|
        0 <= k && k + 1 < gradients.len() ==> gt_spec(#[trigger] residual_at(path, k), tolerance)
}

/// Takes a gradient step: `u -= gamma * gradient`
pub fn gradient_update<T: OptFloat>(u: &mut [T], gamma: T, gradient: &[T])
    ensures
        final(u)@.len() == old(u)@.len(),
        final(u)@ == gradient_update_spec(old(u)@, gamma, gradient@),
{
    let n = if u.len() <= gradient.len() {
        u.len()
    } else {
        gradient.len()
    };
    let mut i: usize = 0;
    while i < n
        invariant
            i <= n,
            n <= gradient@.len(),
            n <= u@.len(),
            n == u@.len() || n == gradient@.len(),
            u@.len() == old(u)@.len(),
            forall|j: int| 0 <= j < i ==> u@[j] == old(u)@[j].sub_spec(gamma.mul_spec(gradient@[j])),
            forall|j: int| i <= j < u@.len() ==> u@[j] == old(u)@[j],
        decreases n - i,
    {
        u[i] = u[i].sub(gamma.mul(gradient[i]));
        i += 1;
    }
    assert(u@ =~= gradient_update_spec(old(u)@, gamma, gradient@));
}

/// Copies `source` into `target`, two vectors of one length.
pub fn copy_into<T: OptFloat>(target: &mut Vec<T>, source: &[T])
    requires
        old(target)@.len() == source@.len(),
    ensures
        final(target)@ == source@,
{
    let n = source.len();
    let mut i: usize = 0;
    while i < n
        invariant
            i <= n,
            n == source@.len(),
            n == target@.len(),
            forall|j: int| 0 <= j < i ==> target@[j] == source@[j],
        decreases n - i,
    {
        target[i] = source[i];
        i += 1;
    }
    assert(target@ =~= source@);
}

/// The FBS Engine defines the steps of the FBS algorithm and the termination
/// criterion
pub struct FBSEngine<'a, GradientType, ConstraintType, CostType, T> where
    GradientType: Fn(&[T], &mut [T]) -> FunctionCallResult,
    CostType: Fn(&[T], &mut T) -> FunctionCallResult,
    ConstraintType: Constraint<T>,
    T: OptFloat,
 {
    /// The problem that is solved.
    pub problem: Problem<'a, GradientType, ConstraintType, CostType, T>,
    /// The workspace of the algorithm.
    pub cache: &'a mut FBSCache<T>,
}

impl<'a, GradientType, ConstraintType, CostType, T> FBSEngine<
    'a,
    GradientType,
    ConstraintType,
    CostType,
    T,
> where
    GradientType: Fn(&[T], &mut [T]) -> FunctionCallResult,
    CostType: Fn(&[T], &mut T) -> FunctionCallResult,
    ConstraintType: Constraint<T>,
    T: OptFloat,
 {
    /// The point after one forward-backward step from `u` with the gradient
    /// `g`: `proj(u - gamma * g)`.
    pub open spec fn forward_backward(&self, u: Seq<T>, g: Seq<T>) -> Seq<T> {
        self.problem.constraints.projection(gradient_update_spec(u, self.cache.gamma, g))
    }

    /// What the workspace holds after a step that arrived at `u`: the point
    /// before the step and the gradient there, from which `u` is one
    /// forward-backward step away, and the infinity norm of the difference of
    /// the two points.
    pub open spec fn holds_step_to(&self, u: Seq<T>) -> bool {
        &&& self.cache.work_u_previous@.len() == u.len()
        &&& u == self.forward_backward(self.cache.work_u_previous@, self.cache.work_gradient_u@)
        &&& self.cache.norm_fpr == norm_inf_diff_spec(u, self.cache.work_u_previous@)
    }

    /// An engine whose workspace has room for vectors of dimension `n`, and
    /// whose problem is posed for that dimension, is ready for it.
    pub proof fn lemma_ready(&self, n: nat)
        requires
            self.cache.work_u_previous@.len() == n,
            self.problem.accepts_dimension(n),
        ensures
            self.ready_for(n),
    {
    }

    /// Constructor for instances of `FBSEngine`
    ///
    /// ## Arguments
    ///
    /// - `problem` problem definition (cost function, gradient of the cost,
    ///   constraints)
    /// - mutable reference to a `cache` a cache (which is created once); the
    ///   cache is reuseable
    ///
    /// ## Returns
    ///
    /// An new instance of `FBSEngine`
    pub fn new(
        problem: Problem<'a, GradientType, ConstraintType, CostType, T>,
        cache: &'a mut FBSCache<T>,
    ) -> (engine: FBSEngine<'a, GradientType, ConstraintType, CostType, T>)
        ensures
            engine.problem == problem,
            *engine.cache == *old(cache),
            *final(engine.cache) == *final(cache),
    {
        FBSEngine { problem, cache }
    }

    /// Evaluates the gradient of the cost at `u_current` into the workspace
    /// and, where that succeeds, takes the gradient step
    /// `u_current -= gamma * gradient`. Where the evaluation fails, its error
    /// is returned and `u_current` stays as it is. What is returned is what
    /// the gradient callback returned for `u_current` and the buffer of the
    /// workspace, which holds afterwards what the callback left in it.
    pub fn gradient_step(&mut self, u_current: &mut [T]) -> (r: FunctionCallResult)
        requires
            old(self).problem.accepts_dimension(old(u_current)@.len()),
        ensures
            final(u_current)@.len() == old(u_current)@.len(),
            final(self).problem == old(self).problem,
            final(self).cache.work_u_previous == old(self).cache.work_u_previous,
            final(self).cache.gamma == old(self).cache.gamma,
            final(self).cache.tolerance == old(self).cache.tolerance,
            final(self).cache.norm_fpr == old(self).cache.norm_fpr,
            r is Ok ==> final(u_current)@ == gradient_update_spec(
                old(u_current)@,
                old(self).cache.gamma,
                final(self).cache.work_gradient_u@,
            ),
            r is Err ==> final(u_current)@ == old(u_current)@,
            r matches Err(e) ==> old(self).problem.gradient_can_fail(old(u_current)@, e),
            exists|v: &[T], g: &mut [T]|
                v@ == old(u_current)@ && g@ == old(self).cache.work_gradient_u@ && final(g)@
                    == final(self).cache.work_gradient_u@ && #[trigger] call_ensures(
                    old(self).problem.gradf,
                    (v, g),
                    r,
                ),
    {
        let outcome = (self.problem.gradf)(u_current, self.cache.work_gradient_u.as_mut_slice());
        if outcome.is_ok() {
            gradient_update(u_current, self.cache.gamma, self.cache.work_gradient_u.as_slice());
        }
        outcome
    }

    /// Projects `u_current` on the constraints of the problem.
    pub fn projection_step(&mut self, u_current: &mut [T])
        requires
            old(self).problem.constraints.admits_dimension(old(u_current)@.len()),
        ensures
            final(u_current)@.len() == old(u_current)@.len(),
            final(u_current)@ == old(self).problem.constraints.projection(old(u_current)@),
            *final(self).cache == *old(self).cache,
            final(self).problem == old(self).problem,
    {
        self.problem.constraints.project(u_current);
    }
}

impl<'a, GradientType, ConstraintType, CostType, T> AlgorithmEngine<T> for FBSEngine<
    'a,
    GradientType,
    ConstraintType,
    CostType,
    T,
> where
    GradientType: Fn(&[T], &mut [T]) -> FunctionCallResult,
    CostType: Fn(&[T], &mut T) -> FunctionCallResult,
    ConstraintType: Constraint<T>,
    T: OptFloat,
 {
    /// The workspace has room for the previous iterate, and the problem is
    /// posed for the dimension.
    open spec fn ready_for(&self, n: nat) -> bool {
        &&& self.cache.work_u_previous@.len() == n
        &&& self.problem.accepts_dimension(n)
    }

    /// Take a forward-backward step and check whether the algorithm should
    /// terminate
    ///
    /// ## Arguments
    ///
    /// - `u_current` the current mutable
    ///
    /// ## Returns
    ///
    /// - A boolean flag which is`true` if and only if the algorithm should not
    ///   terminate
    /// - The error of the gradient of the cost, where its evaluation fails;
    ///   `u_current` then stays as it is
    ///
    /// The gradient in the workspace is what the gradient callback left there
    /// for `u_current`, and the step fails if and only if the callback did.
    fn step(&mut self, u_current: &mut [T]) -> (r: Result<bool, SolverError>)
        ensures
            final(self).problem == old(self).problem,
            final(self).cache.gamma == old(self).cache.gamma,
            final(self).cache.tolerance == old(self).cache.tolerance,
            final(self).cache.work_u_previous@ == old(u_current)@,
            r matches Ok(go_on) ==> final(self).holds_step_to(final(u_current)@) && go_on
                == gt_spec(final(self).cache.norm_fpr, final(self).cache.tolerance),
            r is Err ==> final(u_current)@ == old(u_current)@,
            r is Err ==> final(self).cache.norm_fpr == old(self).cache.norm_fpr,
            r matches Err(e) ==> old(self).problem.gradient_can_fail(old(u_current)@, e),
            exists|v: &[T], g: &mut [T], outcome: FunctionCallResult|
                v@ == old(u_current)@ && g@ == old(self).cache.work_gradient_u@ && final(g)@
                    == final(self).cache.work_gradient_u@ && #[trigger] call_ensures(
                    old(self).problem.gradf,
                    (v, g),
                    outcome,
                ) && (outcome is Ok <==> r is Ok) && (r matches Err(e) ==> outcome == Err::<
                    (),
                    SolverError,
                >(e)),
    {
        copy_into(&mut self.cache.work_u_previous, u_current);  // cache the previous step
        match self.gradient_step(u_current) {
            Err(e) => Err(e),
            Ok(()) => {
                self.projection_step(u_current);
                self.cache.norm_fpr = norm_inf_diff(u_current, self.cache.work_u_previous.as_slice());
                Ok(self.cache.norm_fpr.gt(self.cache.tolerance))
            },
        }
    }

    fn init(&mut self, _u_current: &mut [T]) -> (r: FunctionCallResult)
        ensures
            r is Ok,
            final(_u_current)@ == old(_u_current)@,
            *final(self).cache == *old(self).cache,
            final(self).problem == old(self).problem,
    {
        Ok(())
    }
}

/// What the residual of a step measures: in exact arithmetic the infinity
/// norm of the difference of the point `u` after a step and the point
/// `previous` before it is the largest distance of an entry of `u` from the
/// entry of `previous`.
pub proof fn law_residual_is_largest_move<T: OptFloat>(
    value: spec_fn(T) -> real,
    u: Seq<T>,
    previous: Seq<T>,
)
    requires
        exact(value),
        u.len() == previous.len(),
    ensures
        value(norm_inf_diff_spec(u, previous)) == max_dist(
            values(value, u),
            values(value, previous),
            u.len(),
        ),
{
    lemma_max_dist_value(value, u, previous, u.len());
}

} // verus!
