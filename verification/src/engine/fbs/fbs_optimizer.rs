//! FBS Algorithm
use crate::constraints::Constraint;
use crate::engine::fbs::fbs_engine::{
    gradient_update_spec, is_run, is_step_of, residual_at, FBSEngine,
};
use crate::engine::fbs::FBSCache;
use crate::engine::opt_float::{gt_spec, OptFloat};
use crate::exact::exact;
use crate::engine::{AlgorithmEngine, ExitStatus, Optimizer, Problem, SolverStatus};
use crate::matrix_operations::{is_finite, is_finite_spec};
use crate::{FunctionCallResult, SolverError};
use std::time::Duration;
use vstd::prelude::*;

verus! {

/// Default number of iterations.
pub const MAX_ITER: usize = 100;

/// A point in time, as the clock of the platform gives it.
#[verifier::external_type_specification]
#[verifier::external_body]
pub struct ExInstant(instant::Instant);

/// Calls `instant::Instant::now`, which reads the clock: nothing is known of
/// the instant that it returns.
#[verifier::external_body]
fn instant_now() -> instant::Instant {
    instant::Instant::now()
}

/// Calls `instant::Instant::elapsed`, which reads the clock: nothing is known
/// of the time that it returns.
#[verifier::external_body]
fn instant_elapsed(start: &instant::Instant) -> Duration {
    start.elapsed()
}

/// The length of a duration in nanoseconds.
pub uninterp spec fn duration_nanos(d: Duration) -> u128;

/// Calls `Duration::as_nanos`, which returns the total number of nanoseconds
/// that the duration holds.
#[verifier::external_body]
fn duration_as_nanos(d: &Duration) -> (nanos: u128)
    ensures
        nanos == duration_nanos(*d),
{
    d.as_nanos()
}

/// With the time `elapsed`, there is time left under `limit`: always without
/// a limit, and with a limit as long as `elapsed` is shorter than it.
pub open spec fn has_time_left_spec(elapsed: Duration, limit: Option<Duration>) -> bool {
    match limit {
        Some(duration) => duration_nanos(elapsed) < duration_nanos(duration),
        None => true,
    }
}

/// Whether, with the time `elapsed`, there is time left under `limit`.
pub fn has_time_left(elapsed: &Duration, limit: &Option<Duration>) -> (left: bool)
    ensures
        left == has_time_left_spec(*elapsed, *limit),
{
    match limit {
        Some(duration) => duration_as_nanos(elapsed) < duration_as_nanos(duration),
        None => true,
    }
}

/// Whether there is time left: always without a limit, and with a limit as
/// long as the time elapsed since `start`, which the clock gives, is shorter
/// than it.
fn time_is_left(start: &instant::Instant, limit: &Option<Duration>) -> (left: bool)
    ensures
        limit is None ==> left,
        limit is Some ==> exists|elapsed: Duration|
            left == #[trigger] has_time_left_spec(elapsed, *limit),
{
    match limit {
        Some(_) => {
            let elapsed = instant_elapsed(start);
            has_time_left(&elapsed, limit)
        },
        None => true,
    }
}

/// The exit status of a run of `num_iter` steps, of at most `max_iter`, in
/// which `go_on` says whether the last step asked for another one, or no step
/// was taken: converged if and only if the last step asked for no other;
/// otherwise the cap on the steps, if it was reached, and else the time, is
/// what has ended the run.
pub open spec fn exit_status_spec(go_on: bool, num_iter: usize, max_iter: usize) -> ExitStatus {
    if !go_on {
        ExitStatus::Converged
    } else if num_iter >= max_iter {
        ExitStatus::NotConvergedIterations
    } else {
        ExitStatus::NotConvergedOutOfTime
    }
}

/// The exit status of a run of `num_iter` steps, of at most `max_iter`, the
/// last of which returned `go_on`; `go_on` is `true` where no step was taken.
pub fn exit_status_of(go_on: bool, num_iter: usize, max_iter: usize) -> (status: ExitStatus)
    ensures
        status == exit_status_spec(go_on, num_iter, max_iter),
{
    if !go_on {
        ExitStatus::Converged
    } else if num_iter >= max_iter {
        ExitStatus::NotConvergedIterations
    } else {
        ExitStatus::NotConvergedOutOfTime
    }
}

/// The result of a run that has ended at the point `u`, given what the
/// evaluation of the cost at `u` returned: the error of the evaluation, if it
/// failed; a failure, if `u` or the cost is not finite; and else the status
/// of the run.
pub fn conclude<T: OptFloat>(
    u: &[T],
    cost_outcome: FunctionCallResult,
    cost_value: T,
    exit_status: ExitStatus,
    num_iter: usize,
    solve_time: Duration,
    norm_fpr: T,
) -> (r: Result<SolverStatus<T>, SolverError>)
    ensures
        cost_outcome matches Err(e) ==> r == Err::<SolverStatus<T>, SolverError>(e),
        cost_outcome is Ok && !(is_finite_spec(u@) && cost_value.is_finite_spec()) ==> r == Err::<
            SolverStatus<T>,
            SolverError,
        >(SolverError::NotFiniteComputation),
        cost_outcome is Ok && is_finite_spec(u@) && cost_value.is_finite_spec() ==> r is Ok && ({
            let status = r->Ok_0;
            &&& status.exit_status_spec() == exit_status
            &&& status.iterations_spec() == num_iter
            &&& status.solve_time_spec() == solve_time
            &&& status.norm_fpr_spec() == norm_fpr
            &&& status.cost_value_spec() == cost_value
        }),
{
    match cost_outcome {
        Err(e) => Err(e),
        Ok(()) => {
            if !is_finite(u) || !cost_value.is_finite() {
                Err(SolverError::NotFiniteComputation)
            } else {
                Ok(SolverStatus::new(exit_status, num_iter, solve_time, norm_fpr, cost_value))
            }
        },
    }
}

/// Optimiser using forward-backward splitting iterations (projected gradient)
///
/// Note that an `FBSOptimizer` holds an instance of `FBSEngine`, which it
/// makes of a problem and of a mutable reference to an `FBSCache`.
pub struct FBSOptimizer<'a, GradientType, ConstraintType, CostType, T> where
    GradientType: Fn(&[T], &mut [T]) -> FunctionCallResult,
    CostType: Fn(&[T], &mut T) -> FunctionCallResult,
    ConstraintType: Constraint<T>,
    T: OptFloat,
 {
    /// The engine that takes the steps.
    pub fbs_engine: FBSEngine<'a, GradientType, ConstraintType, CostType, T>,
    /// The largest number of iterations.
    pub max_iter: usize,
    /// The longest time of a run, if there is a limit.
    pub max_duration: Option<Duration>,
}

impl<'a, GradientType, ConstraintType, CostType, T> FBSOptimizer<
    'a,
    GradientType,
    ConstraintType,
    CostType,
    T,
> where
    GradientType: Fn(&[T], &mut [T]) -> FunctionCallResult,
    CostType: Fn(&[T], &mut T) -> FunctionCallResult,
    ConstraintType: Constraint<T>,
    T: OptFloat,
 {
    /// An optimizer whose workspace has room for vectors of dimension `n`,
    /// and whose problem is posed for that dimension, is ready for it.
    pub proof fn lemma_ready(&self, n: nat)
        requires
            self.fbs_engine.cache.work_u_previous@.len() == n,
            self.fbs_engine.problem.accepts_dimension(n),
        ensures
            self.ready_for(n),
    {
    }

    /// Constructs a new instance of `FBSOptimizer`
    ///
    /// ## Arguments
    ///
    /// - `problem`: problem definition
    /// - `cache`: instance of `FBSCache`
    pub fn new(
        problem: Problem<'a, GradientType, ConstraintType, CostType, T>,
        cache: &'a mut FBSCache<T>,
    ) -> (optimizer: Self)
        ensures
            optimizer.fbs_engine.problem == problem,
            *optimizer.fbs_engine.cache == *old(cache),
            *final(optimizer.fbs_engine.cache) == *final(cache),
            optimizer.max_iter == MAX_ITER,
            optimizer.max_duration is None,
    {
        FBSOptimizer {
            fbs_engine: FBSEngine::new(problem, cache),
            max_iter: MAX_ITER,
            max_duration: None,
        }
    }

    /// Sets the tolerance, which must be positive
    pub fn with_tolerance(self, tolerance: T) -> (optimizer: FBSOptimizer<
        'a,
        GradientType,
        ConstraintType,
        CostType,
        T,
    >)
        requires
            gt_spec(tolerance, T::zero_spec()),
        ensures
            optimizer.fbs_engine.cache.tolerance == tolerance,
            optimizer.fbs_engine.cache.work_gradient_u == old(self.fbs_engine.cache).work_gradient_u,
            optimizer.fbs_engine.cache.work_u_previous == old(self.fbs_engine.cache).work_u_previous,
            optimizer.fbs_engine.cache.gamma == old(self.fbs_engine.cache).gamma,
            optimizer.fbs_engine.cache.norm_fpr == old(self.fbs_engine.cache).norm_fpr,
            optimizer.fbs_engine.problem == self.fbs_engine.problem,
            optimizer.max_iter == self.max_iter,
            optimizer.max_duration == self.max_duration,
            *final(optimizer.fbs_engine.cache) == *final(self.fbs_engine.cache),
    {
        let mut optimizer = self;
        optimizer.fbs_engine.cache.tolerance = tolerance;
        optimizer
    }

    /// Sets the maximum number of iterations
    pub fn with_max_iter(self, max_iter: usize) -> (optimizer: FBSOptimizer<
        'a,
        GradientType,
        ConstraintType,
        CostType,
        T,
    >)
        ensures
            optimizer.max_iter == max_iter,
            optimizer.max_duration == self.max_duration,
            optimizer.fbs_engine == self.fbs_engine,
    {
        let mut optimizer = self;
        optimizer.max_iter = max_iter;
        optimizer
    }

    /// Sets the maximum duration of a run
    pub fn with_max_duration(self, max_duration: Duration) -> (optimizer: FBSOptimizer<
        'a,
        GradientType,
        ConstraintType,
        CostType,
        T,
    >)
        ensures
            optimizer.max_duration == Some(max_duration),
            optimizer.max_iter == self.max_iter,
            optimizer.fbs_engine == self.fbs_engine,
    {
        let mut optimizer = self;
        optimizer.max_duration = Some(max_duration);
        optimizer
    }
}

impl<'life, GradientType, ConstraintType, CostType, T> Optimizer<T> for FBSOptimizer<
    'life,
    GradientType,
    ConstraintType,
    CostType,
    T,
> where
    GradientType: Fn(&[T], &mut [T]) -> FunctionCallResult,
    CostType: Fn(&[T], &mut T) -> FunctionCallResult,
    ConstraintType: Constraint<T>,
    T: OptFloat,
 {
    open spec fn ready_for(&self, n: nat) -> bool {
        self.fbs_engine.ready_for(n)
    }

    /// Runs forward-backward steps from `u` until a step moves the point by
    /// no more than the tolerance, or the cap on the steps or on the time is
    /// reached. No more than `max_iter` steps are taken.
    ///
    /// A status is returned only with a point and a cost that are finite. It
    /// reports the number of steps taken. The points of the run lead from the
    /// point given to the point returned, each by a forward-backward step
    /// with the gradient that the gradient callback gave, and every step but
    /// the last has moved the point by more than the tolerance. After a step
    /// the workspace holds the last one: the point before it, the gradient
    /// there and the norm of the residual, which the status reports. The
    /// status is that of convergence if and only if a step was taken and the
    /// last one has moved the point by no more than the tolerance, and it
    /// blames the time only if there is a limit on it.
    ///
    /// The cost that the status reports is the one that the cost callback gave
    /// at the point returned. An error is one with which the gradient or the
    /// cost callback can fail at the point at which the run has ended, or it
    /// is `NotFiniteComputation`, for a point or a cost that is not finite.
    fn solve(&mut self, u: &mut [T]) -> (r: Result<SolverStatus<T>, SolverError>)
        ensures
            final(self).max_iter == old(self).max_iter,
            final(self).max_duration == old(self).max_duration,
            final(self).fbs_engine.problem == old(self).fbs_engine.problem,
            final(self).fbs_engine.cache.gamma == old(self).fbs_engine.cache.gamma,
            final(self).fbs_engine.cache.tolerance == old(self).fbs_engine.cache.tolerance,
            r matches Ok(status) ==> {
                &&& status.norm_fpr_spec() == final(self).fbs_engine.cache.norm_fpr
                &&& status.iterations_spec() <= old(self).max_iter
                &&& status.iterations_spec() >= 1 ==> final(self).fbs_engine.holds_step_to(
                    final(u)@,
                )
                &&& status.exit_status_spec() == exit_status_spec(
                    status.iterations_spec() == 0 || gt_spec(
                        status.norm_fpr_spec(),
                        old(self).fbs_engine.cache.tolerance,
                    ),
                    status.iterations_spec(),
                    old(self).max_iter,
                )
                &&& status.exit_status_spec() == ExitStatus::NotConvergedOutOfTime
                    ==> old(self).max_duration is Some
            },
            r matches Ok(status) ==> exists|path: Seq<Seq<T>>, gradients: Seq<Seq<T>>|
                {
                    &&& gradients.len() == status.iterations_spec()
                    &&& path[0] == old(u)@
                    &&& path[gradients.len() as int] == final(u)@
                    &&& #[trigger] is_run(
                        old(self).fbs_engine.problem.constraints,
                        old(self).fbs_engine.cache.gamma,
                        old(self).fbs_engine.cache.tolerance,
                        path,
                        gradients,
                    )
                    &&& forall|k: int|
                        #[trigger] is_step_of(k, gradients.len()) ==> exists|
                            v: &[T],
                            g: &mut [T],
                            outcome: FunctionCallResult,
                        |
                            v@ == path[k] && final(g)@ == gradients[k] && outcome is Ok
                                && #[trigger] call_ensures(
                                old(self).fbs_engine.problem.gradf,
                                (v, g),
                                outcome,
                            )
                },
            r matches Ok(status) ==> exists|v: &[T], c: &mut T, outcome: FunctionCallResult|
                v@ == final(u)@ && *final(c) == status.cost_value_spec() && outcome is Ok
                    && #[trigger] call_ensures(old(self).fbs_engine.problem.cost, (v, c), outcome),
            r matches Err(e) ==> {
                ||| old(self).fbs_engine.problem.gradient_can_fail(final(u)@, e)
                ||| old(self).fbs_engine.problem.cost_can_fail(final(u)@, e)
                ||| e == SolverError::NotFiniteComputation && !is_finite_spec(final(u)@)
                ||| e == SolverError::NotFiniteComputation && exists|
                    v: &[T],
                    c: &mut T,
                    outcome: FunctionCallResult,
                |
                    v@ == final(u)@ && !(*final(c)).is_finite_spec() && outcome is Ok
                        && #[trigger] call_ensures(
                        old(self).fbs_engine.problem.cost,
                        (v, c),
                        outcome,
                    )
            },
    {
        let now = instant_now();

        // Initialize - propagate error upstream, if any
        self.fbs_engine.init(u)?;

        let mut num_iter: usize = 0;
        let mut step_flag = true;
        let ghost mut path: Seq<Seq<T>> = seq![u@];
        let ghost mut gradients: Seq<Seq<T>> = Seq::empty();

        while step_flag && num_iter < self.max_iter && time_is_left(&now, &self.max_duration)
            invariant
                u@.len() == old(u)@.len(),
                self.max_iter == old(self).max_iter,
                self.max_duration == old(self).max_duration,
                self.fbs_engine.problem == old(self).fbs_engine.problem,
                self.fbs_engine.cache.gamma == old(self).fbs_engine.cache.gamma,
                self.fbs_engine.cache.tolerance == old(self).fbs_engine.cache.tolerance,
                self.fbs_engine.ready_for(u@.len()),
                num_iter <= self.max_iter,
                num_iter == 0 ==> step_flag && self.fbs_engine.cache.norm_fpr == old(
                    self,
                ).fbs_engine.cache.norm_fpr,
                num_iter >= 1 ==> self.fbs_engine.holds_step_to(u@) && step_flag == gt_spec(
                    self.fbs_engine.cache.norm_fpr,
                    self.fbs_engine.cache.tolerance,
                ) && self.fbs_engine.cache.work_u_previous@ == path[num_iter - 1],
                gradients.len() == num_iter,
                path[0] == old(u)@,
                path[num_iter as int] == u@,
                is_run(
                    old(self).fbs_engine.problem.constraints,
                    old(self).fbs_engine.cache.gamma,
                    old(self).fbs_engine.cache.tolerance,
                    path,
                    gradients,
                ),
                forall|k: int|
                    #[trigger] is_step_of(k, gradients.len()) ==> exists|
                        v: &[T],
                        g: &mut [T],
                        outcome: FunctionCallResult,
                    |
                        v@ == path[k] && final(g)@ == gradients[k] && outcome is Ok
                            && #[trigger] call_ensures(
                            old(self).fbs_engine.problem.gradf,
                            (v, g),
                            outcome,
                        ),
            ensures
                !step_flag || num_iter >= self.max_iter || self.max_duration is Some,
            decreases self.max_iter - num_iter,
        {
            let ghost earlier = path;
            let ghost earlier_gradients = gradients;
            step_flag = self.fbs_engine.step(u)?;
            proof {
                let gradient = self.fbs_engine.cache.work_gradient_u@;
                path = earlier.push(u@);
                gradients = earlier_gradients.push(gradient);
                let k_new = num_iter as int;
                assert(path[k_new + 1] == u@);
                assert(path[k_new] == earlier[k_new]);
                assert forall|k: int| 0 <= k < gradients.len() implies path[k + 1]
                    == old(self).fbs_engine.problem.constraints.projection(
                    gradient_update_spec(
                        path[k],
                        old(self).fbs_engine.cache.gamma,
                        #[trigger] gradients[k],
                    ),
                ) by {
                    if k < k_new {
                        assert(gradients[k] == earlier_gradients[k]);
                        assert(path[k] == earlier[k]);
                        assert(path[k + 1] == earlier[k + 1]);
                    }
                }
                assert forall|k: int| 0 <= k && k + 1 < gradients.len() implies gt_spec(
                    #[trigger] residual_at(path, k),
                    old(self).fbs_engine.cache.tolerance,
                ) by {
                    assert(path[k] == earlier[k]);
                    assert(path[k + 1] == earlier[k + 1]);
                    if k + 1 < k_new {
                        assert(gt_spec(
                            residual_at(earlier, k),
                            old(self).fbs_engine.cache.tolerance,
                        ));
                    }
                }
                assert forall|k: int| #[trigger] is_step_of(k, gradients.len()) implies exists|
                    v: &[T],
                    g: &mut [T],
                    outcome: FunctionCallResult,
                |
                    v@ == path[k] && final(g)@ == gradients[k] && outcome is Ok
                        && #[trigger] call_ensures(
                        old(self).fbs_engine.problem.gradf,
                        (v, g),
                        outcome,
                    ) by {
                    if k < k_new {
                        assert(is_step_of(k, earlier_gradients.len()));
                        assert(gradients[k] == earlier_gradients[k]);
                        assert(path[k] == earlier[k]);
                    }
                }
            }
            num_iter += 1;
        }

        // cost at the solution [propagate error upstream]
        let mut cost_value: T = T::zero();
        let cost_outcome = (self.fbs_engine.problem.cost)(u, &mut cost_value);
        proof {
            let (v, c) = choose|v: &[T], c: &mut T|
                v@ == u@ && *final(c) == cost_value && #[trigger] call_ensures(
                    self.fbs_engine.problem.cost,
                    (v, c),
                    cost_outcome,
                );
            assert(call_ensures(old(self).fbs_engine.problem.cost, (v, c), cost_outcome));
        }

        // export solution status
        conclude(
            u,
            cost_outcome,
            cost_value,
            exit_status_of(step_flag, num_iter, self.max_iter),
            num_iter,
            instant_elapsed(&now),
            self.fbs_engine.cache.norm_fpr,
        )
    }
}

/// What a status of convergence says in exact arithmetic: a residual that
/// is not above the tolerance, as a run that has converged reports it, does
/// not exceed the tolerance.
pub proof fn law_converged_within_tolerance<T: OptFloat>(
    value: spec_fn(T) -> real,
    norm_fpr: T,
    tolerance: T,
)
    requires
        exact(value),
        !gt_spec(norm_fpr, tolerance),
    ensures
        value(norm_fpr) <= value(tolerance),
{
}

} // verus!
