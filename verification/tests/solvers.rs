use optimization_engine::constraints::{Ball2, NoConstraints};
use optimization_engine::engine::fbs::fbs_cache::zeros;
use optimization_engine::engine::fbs::fbs_engine::{copy_into, gradient_update};
use optimization_engine::engine::fbs::fbs_optimizer::{conclude, exit_status_of, has_time_left};
use optimization_engine::engine::fbs::{FBSCache, FBSEngine, FBSOptimizer};
use optimization_engine::engine::opt_float::Precision;
use optimization_engine::engine::panoc::panoc_cache::{akkt_residual_of, CbfgsParameters};
use optimization_engine::engine::panoc::PANOCCache;
use optimization_engine::engine::{ExitStatus, SolverStatus};
use optimization_engine::{AlgorithmEngine, OptFloat, Optimizer, Problem, SolverError};
use std::cell::Cell;
use std::time::Duration;

#[derive(Clone, Copy, Debug, PartialEq, PartialOrd)]
struct F64(f64);

impl OptFloat for F64 {
    fn precision_spec() -> Precision {
        Precision::Double
    }
    fn zero_spec() -> Self {
        F64(0.0)
    }
    fn one_spec() -> Self {
        F64(1.0)
    }
    fn infinity_spec() -> Self {
        F64(f64::INFINITY)
    }
    fn from_u64_spec(n: u64) -> Self {
        F64(n as f64)
    }
    fn add_spec(self, rhs: Self) -> Self {
        F64(self.0 + rhs.0)
    }
    fn sub_spec(self, rhs: Self) -> Self {
        F64(self.0 - rhs.0)
    }
    fn mul_spec(self, rhs: Self) -> Self {
        F64(self.0 * rhs.0)
    }
    fn div_spec(self, rhs: Self) -> Self {
        F64(self.0 / rhs.0)
    }
    fn neg_spec(self) -> Self {
        F64(-self.0)
    }
    fn abs_spec(self) -> Self {
        F64(self.0.abs())
    }
    fn sqrt_spec(self) -> Self {
        F64(self.0.sqrt())
    }
    fn signum_spec(self) -> Self {
        F64(self.0.signum())
    }
    fn max_spec(self, rhs: Self) -> Self {
        F64(self.0.max(rhs.0))
    }
    fn lt_spec(self, rhs: Self) -> bool {
        self.0 < rhs.0
    }
    fn le_spec(self, rhs: Self) -> bool {
        self.0 <= rhs.0
    }
    fn is_finite_spec(self) -> bool {
        self.0.is_finite()
    }
    fn precision() -> Precision {
        Self::precision_spec()
    }
    fn zero() -> Self {
        Self::zero_spec()
    }
    fn one() -> Self {
        Self::one_spec()
    }
    fn infinity() -> Self {
        Self::infinity_spec()
    }
    fn from_u64(n: u64) -> Self {
        Self::from_u64_spec(n)
    }
    fn add(self, rhs: Self) -> Self {
        self.add_spec(rhs)
    }
    fn sub(self, rhs: Self) -> Self {
        self.sub_spec(rhs)
    }
    fn mul(self, rhs: Self) -> Self {
        self.mul_spec(rhs)
    }
    fn div(self, rhs: Self) -> Self {
        self.div_spec(rhs)
    }
    fn neg(self) -> Self {
        self.neg_spec()
    }
    fn abs(self) -> Self {
        self.abs_spec()
    }
    fn sqrt(self) -> Self {
        self.sqrt_spec()
    }
    fn signum(self) -> Self {
        self.signum_spec()
    }
    fn max(self, rhs: Self) -> Self {
        self.max_spec(rhs)
    }
    fn lt(self, rhs: Self) -> bool {
        self.lt_spec(rhs)
    }
    fn le(self, rhs: Self) -> bool {
        self.le_spec(rhs)
    }
    fn is_finite(self) -> bool {
        self.is_finite_spec()
    }
}

#[derive(Clone, Copy, Debug, PartialEq, PartialOrd)]
struct F32(f32);

impl OptFloat for F32 {
    fn precision_spec() -> Precision {
        Precision::Single
    }
    fn zero_spec() -> Self {
        F32(0.0)
    }
    fn one_spec() -> Self {
        F32(1.0)
    }
    fn infinity_spec() -> Self {
        F32(f32::INFINITY)
    }
    fn from_u64_spec(n: u64) -> Self {
        F32(n as f32)
    }
    fn add_spec(self, rhs: Self) -> Self {
        F32(self.0 + rhs.0)
    }
    fn sub_spec(self, rhs: Self) -> Self {
        F32(self.0 - rhs.0)
    }
    fn mul_spec(self, rhs: Self) -> Self {
        F32(self.0 * rhs.0)
    }
    fn div_spec(self, rhs: Self) -> Self {
        F32(self.0 / rhs.0)
    }
    fn neg_spec(self) -> Self {
        F32(-self.0)
    }
    fn abs_spec(self) -> Self {
        F32(self.0.abs())
    }
    fn sqrt_spec(self) -> Self {
        F32(self.0.sqrt())
    }
    fn signum_spec(self) -> Self {
        F32(self.0.signum())
    }
    fn max_spec(self, rhs: Self) -> Self {
        F32(self.0.max(rhs.0))
    }
    fn lt_spec(self, rhs: Self) -> bool {
        self.0 < rhs.0
    }
    fn le_spec(self, rhs: Self) -> bool {
        self.0 <= rhs.0
    }
    fn is_finite_spec(self) -> bool {
        self.0.is_finite()
    }
    fn precision() -> Precision {
        Self::precision_spec()
    }
    fn zero() -> Self {
        Self::zero_spec()
    }
    fn one() -> Self {
        Self::one_spec()
    }
    fn infinity() -> Self {
        Self::infinity_spec()
    }
    fn from_u64(n: u64) -> Self {
        Self::from_u64_spec(n)
    }
    fn add(self, rhs: Self) -> Self {
        self.add_spec(rhs)
    }
    fn sub(self, rhs: Self) -> Self {
        self.sub_spec(rhs)
    }
    fn mul(self, rhs: Self) -> Self {
        self.mul_spec(rhs)
    }
    fn div(self, rhs: Self) -> Self {
        self.div_spec(rhs)
    }
    fn neg(self) -> Self {
        self.neg_spec()
    }
    fn abs(self) -> Self {
        self.abs_spec()
    }
    fn sqrt(self) -> Self {
        self.sqrt_spec()
    }
    fn signum(self) -> Self {
        self.signum_spec()
    }
    fn max(self, rhs: Self) -> Self {
        self.max_spec(rhs)
    }
    fn lt(self, rhs: Self) -> bool {
        self.lt_spec(rhs)
    }
    fn le(self, rhs: Self) -> bool {
        self.le_spec(rhs)
    }
    fn is_finite(self) -> bool {
        self.is_finite_spec()
    }
}

fn my_cost(u: &[F64], cost: &mut F64) -> Result<(), SolverError> {
    *cost = F64(
        0.5 * (u[0].0.powi(2) + 2.0 * u[1].0.powi(2) + 2.0 * u[0].0 * u[1].0) + u[0].0 - u[1].0
            + 3.0,
    );
    Ok(())
}

fn my_gradient(u: &[F64], grad: &mut [F64]) -> Result<(), SolverError> {
    grad[0] = F64(u[0].0 + u[1].0 + 1.0);
    grad[1] = F64(u[0].0 + 2.0 * u[1].0 - 1.0);
    Ok(())
}

fn my_cost_f32(u: &[F32], cost: &mut F32) -> Result<(), SolverError> {
    *cost = F32(
        0.5 * (u[0].0.powi(2) + 2.0 * u[1].0.powi(2) + 2.0 * u[0].0 * u[1].0) + u[0].0 - u[1].0
            + 3.0,
    );
    Ok(())
}

fn my_gradient_f32(u: &[F32], grad: &mut [F32]) -> Result<(), SolverError> {
    grad[0] = F32(u[0].0 + u[1].0 + 1.0);
    grad[1] = F32(u[0].0 + 2.0 * u[1].0 - 1.0);
    Ok(())
}

fn failing_gradient(_u: &[F64], _grad: &mut [F64]) -> Result<(), SolverError> {
    Err(SolverError::Cost)
}

fn failing_cost(_u: &[F64], _cost: &mut F64) -> Result<(), SolverError> {
    Err(SolverError::Cost)
}

fn infinite_cost(_u: &[F64], cost: &mut F64) -> Result<(), SolverError> {
    *cost = F64(f64::INFINITY);
    Ok(())
}

fn nan_gradient(_u: &[F64], grad: &mut [F64]) -> Result<(), SolverError> {
    grad[0] = F64(f64::NAN);
    grad[1] = F64(0.0);
    Ok(())
}

#[test]
fn t_access() {
    let radius = 0.2_f64;
    let box_constraints = Ball2::new(None, F64(radius));
    let problem = Problem::new(&box_constraints, my_gradient, my_cost);
    let gamma = 0.1;
    let tolerance = 1e-6;

    let mut fbs_cache = FBSCache::new(2, F64(gamma), F64(tolerance));
    let mut u = [F64(0.0); 2];
    let mut optimizer = FBSOptimizer::new(problem, &mut fbs_cache);

    let status = optimizer.solve(&mut u).unwrap();

    assert!(status.has_converged());
    assert!(status.norm_fpr().0 < tolerance);
    assert!((-0.14896 - u[0].0).abs() < 1e-4);
    assert!((0.13346 - u[1].0).abs() < 1e-4);
}

#[test]
fn t_access_f32() {
    let radius = 0.2f32;
    let box_constraints = Ball2::new(None, F32(radius));
    let problem = Problem::new(&box_constraints, my_gradient_f32, my_cost_f32);
    let gamma = 0.1f32;
    let tolerance = 1e-6f32;

    let mut fbs_cache = FBSCache::new(2, F32(gamma), F32(tolerance));
    let mut u = [F32(0.0f32); 2];
    let mut optimizer = FBSOptimizer::new(problem, &mut fbs_cache);

    let status = optimizer.solve(&mut u).unwrap();

    assert!(status.has_converged());
    assert!(status.norm_fpr().0 < tolerance);
    assert!((-0.14896f32 - u[0].0).abs() < 1e-4f32);
    assert!((0.13346f32 - u[1].0).abs() < 1e-4f32);
}

#[test]
fn fbs_cache_starts_with_zeros_and_an_infinite_residual() {
    let cache = FBSCache::new(3, F64(0.1), F64(1e-6));
    assert_eq!(cache.work_gradient_u, vec![F64(0.0); 3]);
    assert_eq!(cache.work_u_previous, vec![F64(0.0); 3]);
    assert_eq!(cache.gamma.0, 0.1);
    assert_eq!(cache.tolerance.0, 1e-6);
    assert_eq!(cache.norm_fpr.0, f64::INFINITY);
    assert_eq!(zeros::<F64>(2), vec![F64(0.0); 2]);
}

#[test]
fn gradient_update_subtracts_the_scaled_gradient() {
    let mut u = [F64(1.0), F64(2.0), F64(3.0)];
    gradient_update(&mut u, F64(0.5), &[F64(2.0), F64(-4.0), F64(0.0)]);
    assert_eq!(u, [F64(0.0), F64(4.0), F64(3.0)]);
    // entries without a gradient stay
    gradient_update(&mut u, F64(1.0), &[F64(1.0)]);
    assert_eq!(u, [F64(-1.0), F64(4.0), F64(3.0)]);
}

#[test]
fn copy_into_overwrites_the_target() {
    let mut target = vec![F64(0.0); 2];
    copy_into(&mut target, &[F64(1.5), F64(-2.5)]);
    assert_eq!(target, vec![F64(1.5), F64(-2.5)]);
}

#[test]
fn fbs_step_is_one_projected_gradient_step() {
    let ball = Ball2::new(None, F64(0.2));
    let problem = Problem::new(&ball, my_gradient, my_cost);
    let mut cache = FBSCache::new(2, F64(0.1), F64(1e-6));
    {
        let mut engine = FBSEngine::new(problem, &mut cache);
        let mut u = [F64(0.0), F64(0.0)];
        assert_eq!(engine.init(&mut u), Ok(()));
        assert_eq!(u, [F64(0.0), F64(0.0)]);
        // gradient at the origin is (1, -1): u = (-0.1, 0.1), inside the ball
        assert_eq!(engine.step(&mut u), Ok(true));
        assert_eq!(u, [F64(-0.1), F64(0.1)]);
        assert_eq!(engine.cache.work_u_previous, vec![F64(0.0), F64(0.0)]);
        assert_eq!(engine.cache.work_gradient_u, vec![F64(1.0), F64(-1.0)]);
        assert_eq!(engine.cache.norm_fpr.0, 0.1);
        let mut v = [F64(1.0), F64(1.0)];
        assert_eq!(engine.gradient_step(&mut v), Ok(()));
        assert_eq!(v, [F64(1.0 - 0.1 * 3.0), F64(1.0 - 0.1 * 2.0)]);
        engine.projection_step(&mut v);
        let norm = (v[0].0 * v[0].0 + v[1].0 * v[1].0).sqrt();
        assert!((norm - 0.2).abs() < 1e-15);
    }
    assert_eq!(cache.work_u_previous, vec![F64(0.0), F64(0.0)]);
}

#[test]
fn fbs_step_hands_on_the_error_of_the_gradient() {
    let ball = Ball2::new(None, F64(0.2));
    let problem = Problem::new(&ball, failing_gradient, my_cost);
    let mut cache = FBSCache::new(2, F64(0.1), F64(1e-6));
    let mut engine = FBSEngine::new(problem, &mut cache);
    let mut u = [F64(0.5), F64(0.25)];
    assert_eq!(engine.step(&mut u), Err(SolverError::Cost));
    assert_eq!(u, [F64(0.5), F64(0.25)]);
}

#[test]
fn fbs_solve_hands_on_the_error_of_the_gradient() {
    let ball = Ball2::new(None, F64(0.2));
    let problem = Problem::new(&ball, failing_gradient, my_cost);
    let mut cache = FBSCache::new(2, F64(0.1), F64(1e-6));
    let mut optimizer = FBSOptimizer::new(problem, &mut cache);
    let mut u = [F64(0.0), F64(0.0)];
    assert_eq!(optimizer.solve(&mut u).err(), Some(SolverError::Cost));
}

#[test]
fn fbs_solve_hands_on_the_error_of_the_cost() {
    let ball = Ball2::new(None, F64(0.2));
    let problem = Problem::new(&ball, my_gradient, failing_cost);
    let mut cache = FBSCache::new(2, F64(0.1), F64(1e-6));
    let mut optimizer = FBSOptimizer::new(problem, &mut cache);
    let mut u = [F64(0.0), F64(0.0)];
    assert_eq!(optimizer.solve(&mut u).err(), Some(SolverError::Cost));
}

#[test]
fn fbs_solve_rejects_a_cost_that_is_not_finite() {
    let ball = Ball2::new(None, F64(0.2));
    let problem = Problem::new(&ball, my_gradient, infinite_cost);
    let mut cache = FBSCache::new(2, F64(0.1), F64(1e-6));
    let mut optimizer = FBSOptimizer::new(problem, &mut cache);
    let mut u = [F64(0.0), F64(0.0)];
    assert_eq!(optimizer.solve(&mut u).err(), Some(SolverError::NotFiniteComputation));
}

#[test]
fn fbs_solve_rejects_a_point_that_is_not_finite() {
    let set = NoConstraints::new();
    let problem = Problem::new(&set, nan_gradient, my_cost);
    let mut cache = FBSCache::new(2, F64(0.1), F64(1e-6));
    let mut optimizer = FBSOptimizer::new(problem, &mut cache);
    let mut u = [F64(0.0), F64(0.0)];
    assert_eq!(optimizer.solve(&mut u).err(), Some(SolverError::NotFiniteComputation));
}

#[test]
fn fbs_solve_reports_the_cap_on_the_iterations() {
    let ball = Ball2::new(None, F64(0.2));
    let problem = Problem::new(&ball, my_gradient, my_cost);
    let tolerance = 1e-12;
    let mut cache = FBSCache::new(2, F64(0.1), F64(1.0));
    let mut optimizer =
        FBSOptimizer::new(problem, &mut cache).with_tolerance(F64(tolerance)).with_max_iter(3);
    let mut u = [F64(0.0), F64(0.0)];
    let status = optimizer.solve(&mut u).unwrap();
    assert!(!status.has_converged());
    assert_eq!(status.exit_status(), ExitStatus::NotConvergedIterations);
    assert_eq!(status.iterations(), 3);
    assert!(status.norm_fpr().0 > tolerance);
    assert!(status.cost_value().0.is_finite());
}

#[test]
fn fbs_solve_reports_the_cap_on_the_time() {
    let ball = Ball2::new(None, F64(0.2));
    let problem = Problem::new(&ball, my_gradient, my_cost);
    let mut cache = FBSCache::new(2, F64(0.1), F64(1e-12));
    let mut optimizer =
        FBSOptimizer::new(problem, &mut cache).with_max_duration(Duration::from_secs(0));
    let mut u = [F64(0.0), F64(0.0)];
    let status = optimizer.solve(&mut u).unwrap();
    assert_eq!(status.exit_status(), ExitStatus::NotConvergedOutOfTime);
    assert_eq!(status.iterations(), 0);
    assert!(status.norm_fpr().0 > 1e-12);
}

#[test]
fn fbs_solve_within_a_generous_time_converges() {
    let ball = Ball2::new(None, F64(0.2));
    let problem = Problem::new(&ball, my_gradient, my_cost);
    let tolerance = 1e-6;
    let mut cache = FBSCache::new(2, F64(0.1), F64(tolerance));
    let mut optimizer =
        FBSOptimizer::new(problem, &mut cache).with_max_duration(Duration::from_secs(3600));
    let mut u = [F64(0.0), F64(0.0)];
    let status = optimizer.solve(&mut u).unwrap();
    assert_eq!(status.exit_status(), ExitStatus::Converged);
    assert!(status.norm_fpr().0 <= tolerance);
    assert!(status.iterations() < 100);
    assert!(status.solve_time() < Duration::from_secs(3600));
    assert!((-0.14896 - u[0].0).abs() < 1e-4);
    assert!((0.13346 - u[1].0).abs() < 1e-4);
}

#[test]
fn fbs_solution_is_a_fixed_point_up_to_the_tolerance() {
    let ball = Ball2::new(None, F64(0.2));
    let problem = Problem::new(&ball, my_gradient, my_cost);
    let tolerance = 1e-6;
    let mut cache = FBSCache::new(2, F64(0.1), F64(tolerance));
    let mut u = [F64(0.0), F64(0.0)];
    let status = FBSOptimizer::new(problem, &mut cache).solve(&mut u).unwrap();
    assert!(status.has_converged());
    assert_eq!(status.norm_fpr(), cache.norm_fpr);
    let previous = cache.work_u_previous.clone();
    let residual = (u[0].0 - previous[0].0).abs().max((u[1].0 - previous[1].0).abs());
    assert_eq!(status.norm_fpr().0, residual);
    assert!(residual <= tolerance);
}

#[test]
fn exit_status_after_the_last_step() {
    assert_eq!(exit_status_of(false, 3, 100), ExitStatus::Converged);
    assert_eq!(exit_status_of(true, 100, 100), ExitStatus::NotConvergedIterations);
    assert_eq!(exit_status_of(false, 100, 100), ExitStatus::Converged);
    assert_eq!(exit_status_of(true, 3, 100), ExitStatus::NotConvergedOutOfTime);
    assert_eq!(exit_status_of(true, 0, 0), ExitStatus::NotConvergedIterations);
    assert_eq!(exit_status_of(true, 0, 5), ExitStatus::NotConvergedOutOfTime);
}

#[test]
fn conclusion_of_a_run() {
    let u = [F64(1.0), F64(2.0)];
    let time = Duration::from_millis(5);
    let status =
        conclude(&u, Ok(()), F64(3.5), ExitStatus::Converged, 7, time, F64(1e-7)).unwrap();
    assert_eq!(status.exit_status(), ExitStatus::Converged);
    assert_eq!(status.iterations(), 7);
    assert_eq!(status.solve_time(), time);
    assert_eq!(status.norm_fpr(), F64(1e-7));
    assert_eq!(status.cost_value(), F64(3.5));
    assert_eq!(
        conclude(&u, Err(SolverError::Cost), F64(3.5), ExitStatus::Converged, 7, time, F64(0.0))
            .err(),
        Some(SolverError::Cost)
    );
    assert_eq!(
        conclude(&u, Ok(()), F64(f64::NAN), ExitStatus::Converged, 7, time, F64(0.0)).err(),
        Some(SolverError::NotFiniteComputation)
    );
    let v = [F64(1.0), F64(f64::NEG_INFINITY)];
    assert_eq!(
        conclude(&v, Ok(()), F64(3.5), ExitStatus::Converged, 7, time, F64(0.0)).err(),
        Some(SolverError::NotFiniteComputation)
    );
}

#[test]
fn solver_status_reports_what_it_was_made_of() {
    let time = Duration::from_micros(250);
    let status =
        SolverStatus::new(ExitStatus::NotConvergedOutOfTime, 12, time, F64(0.5), F64(-1.0));
    assert!(!status.has_converged());
    assert_eq!(status.exit_status(), ExitStatus::NotConvergedOutOfTime);
    assert_eq!(status.iterations(), 12);
    assert_eq!(status.solve_time(), time);
    assert_eq!(status.norm_fpr().0, 0.5);
    assert_eq!(status.cost_value().0, -1.0);
}

#[test]
fn panoc_cache_starts_in_its_virgin_state() {
    let cache = PANOCCache::new(3, F64(1e-6), 5);
    assert_eq!(cache.gradient_u, vec![F64(0.0); 3]);
    assert_eq!(cache.u_half_step, vec![F64(0.0); 3]);
    assert_eq!(cache.gamma_fpr, vec![F64(0.0); 3]);
    assert_eq!(cache.direction_lbfgs, vec![F64(0.0); 3]);
    assert_eq!(cache.gradient_step, vec![F64(0.0); 3]);
    assert_eq!(cache.u_plus, vec![F64(0.0); 3]);
    assert!(cache.gradient_u_previous.is_none());
    assert!(cache.akkt_tolerance.is_none());
    assert_eq!(cache.tolerance.0, 1e-6);
    assert_eq!(cache.norm_gamma_fpr.0, f64::INFINITY);
    assert_eq!(cache.tau.0, 1.0);
    assert_eq!(cache.gamma.0, 0.0);
    assert_eq!(cache.lipschitz_constant.0, 0.0);
    assert_eq!(cache.sigma.0, 0.0);
    assert_eq!(cache.cost_value.0, 0.0);
    assert_eq!(cache.lhs_ls.0, 0.0);
    assert_eq!(cache.rhs_ls.0, 0.0);
    assert_eq!(cache.iteration, 0);
    assert_eq!(cache.lbfgs_memory_size, 5);
    assert_eq!(cache.cbfgs.alpha.0, 1.0);
    assert_eq!(cache.cbfgs.epsilon.0, 1e-8);
    assert_eq!(cache.cbfgs.sy_epsilon.0, 1e-10);
}

#[test]
fn panoc_cache_reset_keeps_the_tolerance() {
    let mut cache = PANOCCache::new(2, F64(1e-4), 3);
    cache.lhs_ls = F64(1.0);
    cache.rhs_ls = F64(2.0);
    cache.tau = F64(0.25);
    cache.lipschitz_constant = F64(10.0);
    cache.sigma = F64(0.3);
    cache.cost_value = F64(-5.0);
    cache.iteration = 17;
    cache.gamma = F64(0.095);
    cache.norm_gamma_fpr = F64(0.5);
    cache.reset();
    assert_eq!(cache.lhs_ls.0, 0.0);
    assert_eq!(cache.rhs_ls.0, 0.0);
    assert_eq!(cache.tau.0, 1.0);
    assert_eq!(cache.lipschitz_constant.0, 0.0);
    assert_eq!(cache.sigma.0, 0.0);
    assert_eq!(cache.cost_value.0, 0.0);
    assert_eq!(cache.iteration, 0);
    assert_eq!(cache.gamma.0, 0.0);
    assert_eq!(cache.tolerance.0, 1e-4);
    assert_eq!(cache.norm_gamma_fpr.0, 0.5);
}

#[test]
fn panoc_cache_exit_condition_without_akkt() {
    let mut cache = PANOCCache::new(2, F64(1e-4), 3);
    assert!(!cache.exit_condition());
    cache.gamma = F64(0.5);
    cache.norm_gamma_fpr = F64(4e-5);
    assert!(cache.fpr_exit_condition());
    assert!(cache.akkt_exit_condition());
    assert!(cache.exit_condition());
    // below the tolerance, but not below gamma times the tolerance
    cache.norm_gamma_fpr = F64(6e-5);
    assert!(!cache.fpr_exit_condition());
    assert!(!cache.exit_condition());
    cache.norm_gamma_fpr = F64(5e-5);
    assert!(!cache.fpr_exit_condition());
    // with gamma at zero nothing is below gamma times the tolerance
    cache.gamma = F64(0.0);
    cache.norm_gamma_fpr = F64(0.0);
    assert!(!cache.exit_condition());
    assert_eq!(cache.akkt_residual().0, 0.0);
}

#[test]
fn panoc_cache_exit_condition_with_akkt() {
    let mut cache = PANOCCache::new(2, F64(1e-4), 3);
    cache.set_akkt_tolerance(F64(0.1));
    assert_eq!(cache.akkt_tolerance, Some(F64(0.1)));
    assert_eq!(cache.gradient_u_previous, Some(vec![F64(0.0); 2]));
    cache.norm_gamma_fpr = F64(4e-5);
    cache.gamma = F64(0.5);
    cache.gamma_fpr = vec![F64(1.0), F64(-2.0)];
    cache.gradient_u = vec![F64(3.0), F64(1.0)];
    cache.gradient_u_previous = Some(vec![F64(1.0), F64(5.0)]);
    // (1 + 0.5 * 2, -2 + 0.5 * -4) = (2, -4)
    assert_eq!(cache.akkt_residual().0, 20.0_f64.sqrt());
    assert!(cache.fpr_exit_condition());
    assert!(!cache.akkt_exit_condition());
    assert!(!cache.exit_condition());
    cache.set_akkt_tolerance(F64(5.0));
    cache.gradient_u_previous = Some(vec![F64(1.0), F64(5.0)]);
    assert!(cache.akkt_exit_condition());
    assert!(cache.exit_condition());
    assert_eq!(
        akkt_residual_of(
            &[F64(3.0), F64(0.0)],
            &[F64(1.0), F64(2.0)],
            &[F64(1.0), F64(-2.0)],
            F64(1.0)
        )
        .0,
        5.0
    );
}

#[test]
fn panoc_cache_keeps_the_previous_gradient_from_the_first_iteration_on() {
    let mut cache = PANOCCache::new(2, F64(1e-4), 3);
    cache.gradient_u = vec![F64(3.0), F64(1.0)];
    cache.iteration = 1;
    cache.cache_previous_gradient();
    assert!(cache.gradient_u_previous.is_none());
    cache.set_akkt_tolerance(F64(0.1));
    cache.iteration = 0;
    cache.cache_previous_gradient();
    assert_eq!(cache.gradient_u_previous, Some(vec![F64(0.0); 2]));
    cache.iteration = 1;
    cache.cache_previous_gradient();
    assert_eq!(cache.gradient_u_previous, Some(vec![F64(3.0), F64(1.0)]));
}

#[test]
fn panoc_cache_takes_the_parameters_of_the_cautious_update() {
    let cache = PANOCCache::new(2, F64(1e-12), 2).with_cbfgs_parameters(
        F64(2.0),
        F64(1e-6),
        F64(1e-12),
    );
    assert_eq!(cache.cbfgs.alpha.0, 2.0);
    assert_eq!(cache.cbfgs.epsilon.0, 1e-6);
    assert_eq!(cache.cbfgs.sy_epsilon.0, 1e-12);
    assert!(cache.cbfgs.is_admissible());
    assert_eq!(cache.tolerance.0, 1e-12);
    assert_eq!(cache.lbfgs_memory_size, 2);
    let defaults = CbfgsParameters::<F64>::defaults();
    assert!(defaults.is_admissible());
    let negative = CbfgsParameters { alpha: F64(1.0), epsilon: F64(-1.0), sy_epsilon: F64(0.0) };
    assert!(!negative.is_admissible());
}

#[test]
fn time_is_left_while_the_elapsed_time_is_shorter_than_the_limit() {
    let limit = Some(Duration::from_millis(6));
    assert!(has_time_left(&Duration::from_millis(5), &limit));
    assert!(has_time_left(&Duration::from_nanos(5_999_999), &limit));
    assert!(!has_time_left(&Duration::from_millis(6), &limit));
    assert!(!has_time_left(&Duration::from_secs(1), &limit));
    assert!(!has_time_left(&Duration::from_secs(0), &Some(Duration::from_secs(0))));
    assert!(has_time_left(&Duration::from_secs(1_000_000), &None));
}

#[test]
fn fbs_gradient_step_hands_on_the_error_and_leaves_the_point() {
    let ball = Ball2::new(None, F64(0.2));
    let problem = Problem::new(&ball, failing_gradient, my_cost);
    let mut cache = FBSCache::new(2, F64(0.1), F64(1e-6));
    let mut engine = FBSEngine::new(problem, &mut cache);
    let mut u = [F64(0.5), F64(0.25)];
    assert_eq!(engine.gradient_step(&mut u), Err(SolverError::Cost));
    assert_eq!(u, [F64(0.5), F64(0.25)]);
}

#[test]
fn fbs_solve_reports_the_cost_that_the_callback_gave() {
    let ball = Ball2::new(None, F64(0.2));
    let problem = Problem::new(&ball, my_gradient, my_cost);
    let mut cache = FBSCache::new(2, F64(0.1), F64(1e-6));
    let mut u = [F64(0.0), F64(0.0)];
    let status = FBSOptimizer::new(problem, &mut cache).solve(&mut u).unwrap();
    let mut cost = F64(0.0);
    my_cost(&u, &mut cost).unwrap();
    assert_eq!(status.cost_value(), cost);
}

#[test]
fn fbs_solve_takes_no_more_steps_than_the_cap() {
    let ball = Ball2::new(None, F64(0.2));
    let gradient_calls = Cell::new(0usize);
    let cost_calls = Cell::new(0usize);
    let gradient = |u: &[F64], g: &mut [F64]| {
        gradient_calls.set(gradient_calls.get() + 1);
        my_gradient(u, g)
    };
    let cost = |u: &[F64], c: &mut F64| {
        cost_calls.set(cost_calls.get() + 1);
        my_cost(u, c)
    };
    let problem = Problem::new(&ball, gradient, cost);
    let mut cache = FBSCache::new(2, F64(0.1), F64(1e-12));
    let mut u = [F64(0.0), F64(0.0)];
    let status = FBSOptimizer::new(problem, &mut cache).with_max_iter(3).solve(&mut u).unwrap();
    assert_eq!(status.iterations(), 3);
    assert_eq!(gradient_calls.get(), 3);
    assert_eq!(cost_calls.get(), 1);
    assert_eq!(status.exit_status(), ExitStatus::NotConvergedIterations);
}

#[test]
fn fbs_solve_with_a_cap_of_zero_takes_no_step() {
    let ball = Ball2::new(None, F64(0.2));
    let gradient_calls = Cell::new(0usize);
    let gradient = |u: &[F64], g: &mut [F64]| {
        gradient_calls.set(gradient_calls.get() + 1);
        my_gradient(u, g)
    };
    let problem = Problem::new(&ball, gradient, my_cost);
    let mut cache = FBSCache::new(2, F64(0.1), F64(1e-6));
    let mut u = [F64(0.05), F64(-0.05)];
    let status = FBSOptimizer::new(problem, &mut cache).with_max_iter(0).solve(&mut u).unwrap();
    assert_eq!(gradient_calls.get(), 0);
    assert_eq!(status.iterations(), 0);
    assert_eq!(status.exit_status(), ExitStatus::NotConvergedIterations);
    assert_eq!(u, [F64(0.05), F64(-0.05)]);
    assert_eq!(status.norm_fpr().0, f64::INFINITY);
}

#[test]
fn fbs_solve_stops_at_the_first_step_within_the_tolerance() {
    let ball = Ball2::new(None, F64(0.2));
    let gradient_calls = Cell::new(0usize);
    let gradient = |u: &[F64], g: &mut [F64]| {
        gradient_calls.set(gradient_calls.get() + 1);
        my_gradient(u, g)
    };
    let problem = Problem::new(&ball, gradient, my_cost);
    // a tolerance that the first step, which moves the point by 0.1, meets
    let mut cache = FBSCache::new(2, F64(0.1), F64(0.5));
    let mut u = [F64(0.0), F64(0.0)];
    let status = FBSOptimizer::new(problem, &mut cache).solve(&mut u).unwrap();
    assert_eq!(status.exit_status(), ExitStatus::Converged);
    assert_eq!(status.iterations(), 1);
    assert_eq!(gradient_calls.get(), 1);
    assert_eq!(u, [F64(-0.1), F64(0.1)]);
    assert_eq!(status.norm_fpr().0, 0.1);
}
