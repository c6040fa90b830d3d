use optimization_engine::constraints::ball2::rescale_about_center;
use optimization_engine::constraints::{
    Ball1, Ball2, BallInf, Constraint, Hyperplane, NoConstraints, Rectangle, SecondOrderCone,
    Simplex, Sphere2, Zero,
};
use optimization_engine::engine::opt_float::Precision;
use optimization_engine::{matrix_operations, OptFloat};

#[derive(Clone, Copy, Debug, PartialEq, PartialOrd)]
struct F64(f64);

impl OptFloat for F64 {
    fn precision_spec() -> Precision {
        Precision::Double
    }
    fn zero_spec() -> Self {
        F64(0.0)
    }
    fn one_spec() -> Self {
        F64(1.0)
    }
    fn infinity_spec() -> Self {
        F64(f64::INFINITY)
    }
    fn from_u64_spec(n: u64) -> Self {
        F64(n as f64)
    }
    fn add_spec(self, rhs: Self) -> Self {
        F64(self.0 + rhs.0)
    }
    fn sub_spec(self, rhs: Self) -> Self {
        F64(self.0 - rhs.0)
    }
    fn mul_spec(self, rhs: Self) -> Self {
        F64(self.0 * rhs.0)
    }
    fn div_spec(self, rhs: Self) -> Self {
        F64(self.0 / rhs.0)
    }
    fn neg_spec(self) -> Self {
        F64(-self.0)
    }
    fn abs_spec(self) -> Self {
        F64(self.0.abs())
    }
    fn sqrt_spec(self) -> Self {
        F64(self.0.sqrt())
    }
    fn signum_spec(self) -> Self {
        F64(self.0.signum())
    }
    fn max_spec(self, rhs: Self) -> Self {
        F64(self.0.max(rhs.0))
    }
    fn lt_spec(self, rhs: Self) -> bool {
        self.0 < rhs.0
    }
    fn le_spec(self, rhs: Self) -> bool {
        self.0 <= rhs.0
    }
    fn is_finite_spec(self) -> bool {
        self.0.is_finite()
    }
    fn precision() -> Precision {
        Self::precision_spec()
    }
    fn zero() -> Self {
        Self::zero_spec()
    }
    fn one() -> Self {
        Self::one_spec()
    }
    fn infinity() -> Self {
        Self::infinity_spec()
    }
    fn from_u64(n: u64) -> Self {
        Self::from_u64_spec(n)
    }
    fn add(self, rhs: Self) -> Self {
        self.add_spec(rhs)
    }
    fn sub(self, rhs: Self) -> Self {
        self.sub_spec(rhs)
    }
    fn mul(self, rhs: Self) -> Self {
        self.mul_spec(rhs)
    }
    fn div(self, rhs: Self) -> Self {
        self.div_spec(rhs)
    }
    fn neg(self) -> Self {
        self.neg_spec()
    }
    fn abs(self) -> Self {
        self.abs_spec()
    }
    fn sqrt(self) -> Self {
        self.sqrt_spec()
    }
    fn signum(self) -> Self {
        self.signum_spec()
    }
    fn max(self, rhs: Self) -> Self {
        self.max_spec(rhs)
    }
    fn lt(self, rhs: Self) -> bool {
        self.lt_spec(rhs)
    }
    fn le(self, rhs: Self) -> bool {
        self.le_spec(rhs)
    }
    fn is_finite(self) -> bool {
        self.is_finite_spec()
    }
}

#[derive(Clone, Copy, Debug, PartialEq, PartialOrd)]
struct F32(f32);

impl OptFloat for F32 {
    fn precision_spec() -> Precision {
        Precision::Single
    }
    fn zero_spec() -> Self {
        F32(0.0)
    }
    fn one_spec() -> Self {
        F32(1.0)
    }
    fn infinity_spec() -> Self {
        F32(f32::INFINITY)
    }
    fn from_u64_spec(n: u64) -> Self {
        F32(n as f32)
    }
    fn add_spec(self, rhs: Self) -> Self {
        F32(self.0 + rhs.0)
    }
    fn sub_spec(self, rhs: Self) -> Self {
        F32(self.0 - rhs.0)
    }
    fn mul_spec(self, rhs: Self) -> Self {
        F32(self.0 * rhs.0)
    }
    fn div_spec(self, rhs: Self) -> Self {
        F32(self.0 / rhs.0)
    }
    fn neg_spec(self) -> Self {
        F32(-self.0)
    }
    fn abs_spec(self) -> Self {
        F32(self.0.abs())
    }
    fn sqrt_spec(self) -> Self {
        F32(self.0.sqrt())
    }
    fn signum_spec(self) -> Self {
        F32(self.0.signum())
    }
    fn max_spec(self, rhs: Self) -> Self {
        F32(self.0.max(rhs.0))
    }
    fn lt_spec(self, rhs: Self) -> bool {
        self.0 < rhs.0
    }
    fn le_spec(self, rhs: Self) -> bool {
        self.0 <= rhs.0
    }
    fn is_finite_spec(self) -> bool {
        self.0.is_finite()
    }
    fn precision() -> Precision {
        Self::precision_spec()
    }
    fn zero() -> Self {
        Self::zero_spec()
    }
    fn one() -> Self {
        Self::one_spec()
    }
    fn infinity() -> Self {
        Self::infinity_spec()
    }
    fn from_u64(n: u64) -> Self {
        Self::from_u64_spec(n)
    }
    fn add(self, rhs: Self) -> Self {
        self.add_spec(rhs)
    }
    fn sub(self, rhs: Self) -> Self {
        self.sub_spec(rhs)
    }
    fn mul(self, rhs: Self) -> Self {
        self.mul_spec(rhs)
    }
    fn div(self, rhs: Self) -> Self {
        self.div_spec(rhs)
    }
    fn neg(self) -> Self {
        self.neg_spec()
    }
    fn abs(self) -> Self {
        self.abs_spec()
    }
    fn sqrt(self) -> Self {
        self.sqrt_spec()
    }
    fn signum(self) -> Self {
        self.signum_spec()
    }
    fn max(self, rhs: Self) -> Self {
        self.max_spec(rhs)
    }
    fn lt(self, rhs: Self) -> bool {
        self.lt_spec(rhs)
    }
    fn le(self, rhs: Self) -> bool {
        self.le_spec(rhs)
    }
    fn is_finite(self) -> bool {
        self.is_finite_spec()
    }
}

fn v64(x: &[f64]) -> Vec<F64> {
    x.iter().map(|v| F64(*v)).collect()
}

fn values(x: &[F64]) -> Vec<f64> {
    x.iter().map(|v| v.0).collect()
}

fn assert_close(actual: &[F64], expected: &[f64], tolerance: f64) {
    assert_eq!(actual.len(), expected.len());
    for (a, e) in actual.iter().zip(expected.iter()) {
        assert!((a.0 - e).abs() <= tolerance, "{} is not within {} of {}", a.0, tolerance, e);
    }
}

fn distance(a: &[F64], b: &[F64]) -> f64 {
    a.iter().zip(b.iter()).map(|(p, q)| (p.0 - q.0) * (p.0 - q.0)).sum::<f64>().sqrt()
}

#[test]
fn test_f64_constants() {
    assert_eq!(F64::min_l_estimate().0, 1e-10);
    assert_eq!(F64::gamma_l_coeff().0, 0.95);
    assert_eq!(F64::delta_lipschitz().0, 1e-12);
    assert_eq!(F64::epsilon_lipschitz().0, 1e-6);
    assert_eq!(F64::lipschitz_update_epsilon().0, 1e-6);
    assert_eq!(F64::max_lipschitz_constant().0, 1e9);
}

#[test]
fn test_f32_constants() {
    assert_eq!(F32::min_l_estimate().0, 8.74e-6);
    assert_eq!(F32::gamma_l_coeff().0, 0.95);
    assert_eq!(F32::delta_lipschitz().0, 1.32e-6);
    assert_eq!(F32::epsilon_lipschitz().0, 7.32e-4);
    assert_eq!(F32::lipschitz_update_epsilon().0, 2.62e-4);
    assert_eq!(F32::max_lipschitz_constant().0, 1e9);
}

#[test]
fn provided_operations_follow_the_required_ones() {
    assert!(F64(2.0).gt(F64(1.0)));
    assert!(!F64(1.0).gt(F64(1.0)));
    assert!(F64(1.0).ge(F64(1.0)));
    assert!(!F64(0.5).ge(F64(1.0)));
    assert!(!F64(f64::NAN).ge(F64(1.0)));
    assert_eq!(F64(-3.0).square().0, 9.0);
    assert_eq!(F64::ratio(3, 4).0, 0.75);
    assert_eq!(F32::ratio(1, 8).0, 0.125);
}

#[test]
fn inner_product_multiplies_entry_by_entry() {
    let a = v64(&[1.0, 2.0, 3.0]);
    let b = v64(&[4.0, -5.0, 6.0]);
    assert_eq!(matrix_operations::inner_product(&a, &b).0, 12.0);
    assert_eq!(matrix_operations::inner_product::<F64>(&[], &[]).0, 0.0);
}

#[test]
fn norms_of_a_vector() {
    let a = v64(&[3.0, -4.0]);
    assert_eq!(matrix_operations::norm1(&a).0, 7.0);
    assert_eq!(matrix_operations::norm2_squared(&a).0, 25.0);
    assert_eq!(matrix_operations::norm2(&a).0, 5.0);
    assert_eq!(matrix_operations::norm1::<F64>(&[]).0, 0.0);
}

#[test]
fn distances_of_two_vectors() {
    let a = v64(&[1.0, 5.0, -2.0]);
    let b = v64(&[4.0, 1.0, -2.5]);
    assert_eq!(matrix_operations::norm2_squared_diff(&a, &b).0, 9.0 + 16.0 + 0.25);
    assert_eq!(matrix_operations::norm_inf_diff(&a, &b).0, 4.0);
    // only the entries that both vectors have count
    assert_eq!(matrix_operations::norm2_squared_diff(&a, &b[..1]).0, 9.0);
}

#[test]
fn finiteness_of_a_vector() {
    assert!(matrix_operations::is_finite(&v64(&[1.0, -2.0])));
    assert!(!matrix_operations::is_finite(&v64(&[1.0, f64::INFINITY])));
    assert!(!matrix_operations::is_finite(&v64(&[f64::NAN, 0.0])));
    assert!(matrix_operations::is_finite::<F64>(&[]));
}

#[test]
fn no_constraints_leave_a_vector_as_it_is() {
    let set = NoConstraints::new();
    let mut x = v64(&[1.0, -2.0, 3.5]);
    set.project(&mut x);
    assert_eq!(values(&x), vec![1.0, -2.0, 3.5]);
    assert!(Constraint::<F64>::is_convex(&set));
    let other = NoConstraints::default();
    other.project(&mut x);
    assert_eq!(values(&x), vec![1.0, -2.0, 3.5]);
}

#[test]
fn zero_maps_every_vector_to_the_origin() {
    let set = Zero::new();
    let mut x = v64(&[1.0, -2.0, 3.5]);
    set.project(&mut x);
    assert_eq!(values(&x), vec![0.0, 0.0, 0.0]);
    assert!(Constraint::<F64>::is_convex(&set));
    let mut y = v64(&[7.0]);
    Zero::default().project(&mut y);
    assert_eq!(values(&y), vec![0.0]);
}

#[test]
fn rectangle_clamps_to_both_bounds() {
    let xmin = v64(&[-1.0, 0.0, 2.0]);
    let xmax = v64(&[1.0, 0.5, 3.0]);
    let rectangle = Rectangle::new(Some(&xmin), Some(&xmax));
    let mut x = v64(&[-3.0, 0.25, 10.0]);
    rectangle.project(&mut x);
    assert_eq!(values(&x), vec![-1.0, 0.25, 3.0]);
    assert!(rectangle.is_convex());
}

#[test]
fn rectangle_with_one_bound_only() {
    let bound = v64(&[0.0, 0.0]);
    let below = Rectangle::new(Some(&bound), None);
    let mut x = v64(&[-1.0, 2.0]);
    below.project(&mut x);
    assert_eq!(values(&x), vec![0.0, 2.0]);
    let above = Rectangle::new(None, Some(&bound));
    let mut y = v64(&[-1.0, 2.0]);
    above.project(&mut y);
    assert_eq!(values(&y), vec![-1.0, 0.0]);
}

#[test]
fn rectangle_projection_is_idempotent_and_nonexpansive() {
    let xmin = v64(&[-1.0, -1.0]);
    let xmax = v64(&[1.0, 2.0]);
    let rectangle = Rectangle::new(Some(&xmin), Some(&xmax));
    let x0 = v64(&[5.0, -0.5]);
    let y0 = v64(&[0.5, 7.0]);
    let mut x = x0.clone();
    let mut y = y0.clone();
    rectangle.project(&mut x);
    rectangle.project(&mut y);
    assert!(distance(&x, &y) <= distance(&x0, &y0));
    let once = x.clone();
    rectangle.project(&mut x);
    assert_eq!(x, once);
}

#[test]
fn ball_inf_clips_each_entry() {
    let ball = BallInf::new(None, F64(1.0));
    let mut x = v64(&[2.0, -0.5, 3.0]);
    ball.project(&mut x);
    assert_eq!(values(&x), vec![1.0, -0.5, 1.0]);
    assert!(ball.is_convex());
}

#[test]
fn ball_inf_around_a_centre() {
    let center = v64(&[1.0, -1.0, 0.0]);
    let ball = BallInf::new(Some(&center), F64(0.5));
    let mut x = v64(&[3.0, -2.0, 0.25]);
    ball.project(&mut x);
    assert_eq!(values(&x), vec![1.5, -1.5, 0.25]);
    for (xi, ci) in x.iter().zip(center.iter()) {
        assert!((xi.0 - ci.0).abs() <= 0.5);
    }
}

#[test]
fn ball_inf_projection_is_idempotent_and_nonexpansive() {
    let ball = BallInf::new(None, F64(1.0));
    let x0 = v64(&[2.0, -0.5, 3.0]);
    let y0 = v64(&[-4.0, 0.25, 0.5]);
    let mut x = x0.clone();
    let mut y = y0.clone();
    ball.project(&mut x);
    ball.project(&mut y);
    assert!(distance(&x, &y) <= distance(&x0, &y0));
    let once = x.clone();
    ball.project(&mut x);
    assert_eq!(x, once);
}

#[test]
fn ball2_rescales_a_point_outside() {
    let ball = Ball2::new(None, F64(1.0));
    let mut x = v64(&[3.0, 4.0]);
    ball.project(&mut x);
    assert_close(&x, &[0.6, 0.8], 1e-15);
    assert!(ball.is_convex());
}

#[test]
fn ball2_leaves_a_point_inside() {
    let ball = Ball2::new(None, F64(6.0));
    let mut x = v64(&[3.0, 4.0]);
    ball.project(&mut x);
    assert_eq!(values(&x), vec![3.0, 4.0]);
}

#[test]
fn ball2_around_a_centre() {
    let center = v64(&[1.0, 1.0]);
    let ball = Ball2::new(Some(&center), F64(2.5));
    let mut x = v64(&[4.0, 5.0]);
    ball.project(&mut x);
    assert_close(&x, &[2.5, 3.0], 1e-15);
    assert!(distance(&x, &center) <= 2.5 + 1e-12);
    let mut inside = v64(&[1.5, 0.0]);
    ball.project(&mut inside);
    assert_eq!(values(&inside), vec![1.5, 0.0]);
}

#[test]
fn ball2_projection_is_nonexpansive() {
    let ball = Ball2::new(None, F64(1.0));
    let x0 = v64(&[3.0, 4.0]);
    let y0 = v64(&[-0.5, 10.0]);
    let mut x = x0.clone();
    let mut y = y0.clone();
    ball.project(&mut x);
    ball.project(&mut y);
    assert!(distance(&x, &y) <= distance(&x0, &y0));
    let once = x.clone();
    ball.project(&mut x);
    assert_close(&x, &values(&once), 1e-15);
}

#[test]
fn sphere2_moves_every_point_to_the_sphere() {
    let sphere = Sphere2::new(None, F64(2.0));
    let mut outside = v64(&[3.0, 4.0]);
    sphere.project(&mut outside);
    assert_close(&outside, &[1.2, 1.6], 1e-15);
    let mut inside = v64(&[0.0, 0.5]);
    sphere.project(&mut inside);
    assert_close(&inside, &[0.0, 2.0], 1e-15);
    assert!(!sphere.is_convex());
}

#[test]
fn sphere2_takes_the_first_axis_at_the_centre() {
    let sphere = Sphere2::new(None, F64(2.0));
    let mut x = v64(&[0.0, 0.0, 0.0]);
    sphere.project(&mut x);
    assert_eq!(values(&x), vec![2.0, 0.0, 0.0]);
    let center = v64(&[1.0, -1.0]);
    let centered = Sphere2::new(Some(&center), F64(0.5));
    let mut y = v64(&[1.0, -1.0]);
    centered.project(&mut y);
    assert_eq!(values(&y), vec![1.5, -1.0]);
    let mut z = v64(&[1.0, 2.0]);
    centered.project(&mut z);
    assert_close(&z, &[1.0, -0.5], 1e-15);
}

#[test]
fn hyperplane_projection_meets_the_equation() {
    let normal = v64(&[1.0, 2.0]);
    let hyperplane = Hyperplane::new(&normal, F64(1.0));
    let mut x = v64(&[-1.0, 3.0]);
    hyperplane.project(&mut x);
    assert_close(&x, &[-1.8, 1.4], 1e-15);
    let product = matrix_operations::inner_product(&x, &normal);
    assert!((product.0 - 1.0).abs() < 1e-14);
    assert!(hyperplane.is_convex());
    let once = x.clone();
    hyperplane.project(&mut x);
    assert_close(&x, &values(&once), 1e-15);
    let copy = hyperplane.clone();
    let mut y = v64(&[-1.0, 3.0]);
    copy.project(&mut y);
    assert_close(&y, &[-1.8, 1.4], 1e-15);
}

#[test]
fn soc_scales_a_point_outside() {
    let cone = SecondOrderCone::new(F64(1.0));
    let mut x = v64(&[3.0, 4.0, 0.0]);
    cone.project(&mut x);
    assert_eq!(values(&x), vec![1.5, 2.0, 2.5]);
    assert!(cone.is_convex());
}

#[test]
fn soc_maps_the_polar_cone_to_the_origin() {
    let cone = SecondOrderCone::new(F64(2.0));
    let mut x = v64(&[0.3, 0.4, -1.0]);
    cone.project(&mut x);
    assert_eq!(values(&x), vec![0.0, 0.0, 0.0]);
}

#[test]
fn soc_leaves_a_point_of_the_cone() {
    let cone = SecondOrderCone::new(F64(0.5));
    let mut x = v64(&[3.0, 4.0, 10.0]);
    cone.project(&mut x);
    assert_eq!(values(&x), vec![3.0, 4.0, 10.0]);
}

#[test]
fn soc_projection_lies_in_the_cone() {
    let alpha = 0.5;
    let cone = SecondOrderCone::new(F64(alpha));
    let mut x = v64(&[3.0, -4.0, 12.0, 1.0]);
    cone.project(&mut x);
    let norm_z = (x[0].0 * x[0].0 + x[1].0 * x[1].0 + x[2].0 * x[2].0).sqrt();
    assert!(norm_z <= alpha * x[3].0 + 1e-12);
    // beta = (alpha * 13 + 1) / (alpha^2 + 1)
    assert!((x[3].0 - 7.5 / 1.25).abs() < 1e-14);
}

#[test]
fn simplex_spreads_equal_entries() {
    let simplex = Simplex::new(F64(1.0));
    let mut x = v64(&[0.5, 0.5, 0.5]);
    simplex.project(&mut x);
    assert_close(&x, &[1.0 / 3.0, 1.0 / 3.0, 1.0 / 3.0], 1e-15);
    assert!(simplex.is_convex());
}

#[test]
fn simplex_projection_drops_small_entries() {
    let simplex = Simplex::new(F64(1.0));
    let mut x = v64(&[1.0, 0.5, -2.0, 0.1]);
    simplex.project(&mut x);
    assert_close(&x, &[0.75, 0.25, 0.0, 0.0], 1e-15);
}

#[test]
fn simplex_projection_is_not_negative_and_sums_to_the_level() {
    let alpha = 2.5;
    let simplex = Simplex::new(F64(alpha));
    let mut x = v64(&[0.3, -1.2, 4.0, 3.9, 0.0, 2.2, 7.5, -0.4, 7.4, 1.0]);
    simplex.project(&mut x);
    let total: f64 = x.iter().map(|v| v.0).sum();
    assert!((total - alpha).abs() <= 1e-10 * alpha);
    assert!(x.iter().all(|v| v.0 >= 0.0));
    let once = x.clone();
    simplex.project(&mut x);
    assert_close(&x, &values(&once), 1e-12);
}

#[test]
fn simplex_projection_of_one_entry_is_the_level() {
    let simplex = Simplex::new(F64(3.0));
    let mut x = v64(&[-5.0]);
    simplex.project(&mut x);
    assert_eq!(values(&x), vec![3.0]);
}

#[test]
fn simplex_projection_with_increasing_and_decreasing_entries() {
    let simplex = Simplex::new(F64(1.0));
    let mut up = v64(&[0.0, 1.0, 2.0, 3.0]);
    simplex.project(&mut up);
    assert_close(&up, &[0.0, 0.0, 0.0, 1.0], 1e-15);
    let mut down = v64(&[3.0, 2.5, 2.0, 0.0]);
    simplex.project(&mut down);
    assert_close(&down, &[0.75, 0.25, 0.0, 0.0], 1e-15);
}

#[test]
fn ball1_projects_through_the_simplex() {
    let ball = Ball1::new(None, F64(1.0));
    let mut x = v64(&[1.0, -0.5, 0.1]);
    ball.project(&mut x);
    assert_close(&x, &[0.75, -0.25, 0.0], 1e-15);
    let norm: f64 = x.iter().map(|v| v.0.abs()).sum();
    assert!(norm <= 1.0 + 1e-12);
    assert!(ball.is_convex());
}

#[test]
fn ball1_leaves_a_point_inside() {
    let ball = Ball1::new(None, F64(2.0));
    let mut x = v64(&[1.0, -0.5, 0.1]);
    ball.project(&mut x);
    assert_eq!(values(&x), vec![1.0, -0.5, 0.1]);
    let mut empty: Vec<F64> = Vec::new();
    ball.project(&mut empty);
    assert!(empty.is_empty());
    let copy = ball.clone();
    let mut y = v64(&[3.0, 0.0]);
    copy.project_on_ball1_centered_at_origin(&mut y);
    assert_close(&y, &[2.0, 0.0], 1e-15);
}

#[test]
fn ball1_around_a_centre() {
    let center = v64(&[1.0, 1.0]);
    let ball = Ball1::new(Some(&center), F64(1.0));
    let mut x = v64(&[3.0, 0.5]);
    ball.project(&mut x);
    assert_close(&x, &[2.0, 1.0], 1e-15);
    let once = x.clone();
    ball.project(&mut x);
    assert_close(&x, &values(&once), 1e-15);
}

#[test]
fn rescaling_about_a_centre() {
    let center = v64(&[1.0, 0.0]);
    let mut x = v64(&[1.0, 4.0]);
    rescale_about_center(&mut x, &center, F64(2.0), F64(4.0));
    assert_eq!(values(&x), vec![1.0, 2.0]);
}

#[test]
fn projections_in_single_precision() {
    let ball = Ball2::new(None, F32(1.0));
    let mut x = [F32(3.0), F32(4.0)];
    ball.project(&mut x);
    assert!((x[0].0 - 0.6).abs() < 1e-6);
    assert!((x[1].0 - 0.8).abs() < 1e-6);
}

fn projected<C: Constraint<F64>>(set: &C, x: &[f64]) -> Vec<F64> {
    let mut y = v64(x);
    set.project(&mut y);
    y
}

fn assert_nonexpansive<C: Constraint<F64>>(set: &C, x: &[f64], y: &[f64]) {
    let px = projected(set, x);
    let py = projected(set, y);
    assert!(distance(&px, &py) <= distance(&v64(x), &v64(y)) + 1e-12);
}

fn assert_idempotent<C: Constraint<F64>>(set: &C, x: &[f64]) {
    let once = projected(set, x);
    let twice = projected(set, &values(&once));
    assert_close(&twice, &values(&once), 1e-12);
}

fn assert_no_further<C: Constraint<F64>>(set: &C, x: &[f64], member: &[f64]) {
    let px = projected(set, x);
    assert!(distance(&v64(x), &px) <= distance(&v64(x), &v64(member)) + 1e-12);
}

#[test]
fn projections_on_convex_sets_are_nonexpansive() {
    let x = [2.0, -3.5, 0.75, 4.0];
    let y = [-1.0, 0.5, 6.0, -0.25];
    let center = v64(&[0.5, -0.5, 1.0, 0.0]);
    let normal = v64(&[1.0, -2.0, 0.5, 3.0]);
    assert_nonexpansive(&NoConstraints::new(), &x, &y);
    assert_nonexpansive(&Zero::new(), &x, &y);
    assert_nonexpansive(&Rectangle::new(Some(&center), None), &x, &y);
    assert_nonexpansive(&BallInf::new(Some(&center), F64(1.5)), &x, &y);
    assert_nonexpansive(&Ball2::new(None, F64(1.5)), &x, &y);
    assert_nonexpansive(&Ball2::new(Some(&center), F64(1.5)), &x, &y);
    assert_nonexpansive(&Ball1::new(None, F64(1.5)), &x, &y);
    assert_nonexpansive(&Ball1::new(Some(&center), F64(1.5)), &x, &y);
    assert_nonexpansive(&Simplex::new(F64(2.0)), &x, &y);
    assert_nonexpansive(&SecondOrderCone::new(F64(0.75)), &x, &y);
    assert_nonexpansive(&Hyperplane::new(&normal, F64(-1.0)), &x, &y);
}

#[test]
fn projections_are_idempotent() {
    let x = [2.0, -3.5, 0.75, 4.0];
    let center = v64(&[0.5, -0.5, 1.0, 0.0]);
    let normal = v64(&[1.0, -2.0, 0.5, 3.0]);
    assert_idempotent(&NoConstraints::new(), &x);
    assert_idempotent(&Zero::new(), &x);
    assert_idempotent(&Rectangle::new(None, Some(&center)), &x);
    assert_idempotent(&BallInf::new(Some(&center), F64(1.5)), &x);
    assert_idempotent(&Ball2::new(Some(&center), F64(1.5)), &x);
    assert_idempotent(&Ball1::new(Some(&center), F64(1.5)), &x);
    assert_idempotent(&Sphere2::new(Some(&center), F64(1.5)), &x);
    assert_idempotent(&Sphere2::new(None, F64(10.0)), &x);
    assert_idempotent(&Simplex::new(F64(2.0)), &x);
    assert_idempotent(&SecondOrderCone::new(F64(0.75)), &x);
    assert_idempotent(&SecondOrderCone::new(F64(0.75)), &[2.0, -3.5, 0.75, -4.0]);
    assert_idempotent(&Hyperplane::new(&normal, F64(-1.0)), &x);
}

#[test]
fn projections_are_no_further_than_the_points_of_the_set() {
    let x = [2.0, -3.5, 0.75, 4.0];
    let normal = v64(&[1.0, -2.0, 0.5, 3.0]);
    assert_no_further(&Ball2::new(None, F64(1.5)), &x, &[1.0, -1.0, 0.0, 0.5]);
    assert_no_further(&Ball2::new(None, F64(1.5)), &x, &[0.0, 0.0, 0.0, 1.5]);
    assert_no_further(&BallInf::new(None, F64(1.5)), &x, &[1.5, -1.5, 0.0, 1.5]);
    assert_no_further(&Ball1::new(None, F64(1.5)), &x, &[0.5, -0.5, 0.0, 0.5]);
    assert_no_further(&Ball1::new(None, F64(1.5)), &x, &[0.0, 0.0, 0.0, 1.5]);
    assert_no_further(&Simplex::new(F64(2.0)), &x, &[0.5, 0.0, 0.5, 1.0]);
    assert_no_further(&Simplex::new(F64(2.0)), &x, &[0.0, 0.0, 0.0, 2.0]);
    assert_no_further(&SecondOrderCone::new(F64(0.75)), &x, &[1.0, -2.0, 0.0, 3.0]);
    assert_no_further(&SecondOrderCone::new(F64(0.75)), &x, &[0.0, 0.0, 0.0, 0.0]);
    // <c, z> = 1 - 2 + 0 + 0 = -1
    assert_no_further(&Hyperplane::new(&normal, F64(-1.0)), &x, &[1.0, 1.0, 0.0, 0.0]);
    assert_no_further(&Sphere2::new(None, F64(1.5)), &x, &[0.0, -1.5, 0.0, 0.0]);
}

#[test]
fn hyperplane_projection_solves_the_equation_for_other_data() {
    let normal = v64(&[1.0, -2.0, 0.5, 3.0]);
    let hyperplane = Hyperplane::new(&normal, F64(-1.0));
    let y = projected(&hyperplane, &[2.0, -3.5, 0.75, 4.0]);
    let product = matrix_operations::inner_product(&y, &normal);
    assert!((product.0 + 1.0).abs() < 1e-12);
}

#[test]
fn ball1_projection_lies_in_the_ball() {
    let center = v64(&[0.5, -0.5, 1.0, 0.0]);
    let ball = Ball1::new(Some(&center), F64(1.5));
    let y = projected(&ball, &[2.0, -3.5, 0.75, 4.0]);
    let norm: f64 = y.iter().zip(center.iter()).map(|(a, c)| (a.0 - c.0).abs()).sum();
    assert!((norm - 1.5).abs() < 1e-12);
}

#[test]
fn sphere2_snaps_a_point_near_the_centre_to_the_centre() {
    let sphere = Sphere2::new(None, F64(1.0));
    let mut x = v64(&[0.0, 1e-13]);
    sphere.project(&mut x);
    assert_eq!(values(&x), vec![1.0, 0.0]);
    let once = x.clone();
    sphere.project(&mut x);
    assert_eq!(x, once);
    let center = v64(&[1.0, -1.0, 2.0]);
    let centered = Sphere2::new(Some(&center), F64(0.5));
    let mut y = v64(&[1.0, -1.0 + 1e-13, 2.0]);
    centered.project(&mut y);
    assert_eq!(values(&y), vec![1.5, -1.0, 2.0]);
    let small = Sphere2::new(None, F64(2e-12));
    let mut z = v64(&[0.0, 1e-12]);
    small.project(&mut z);
    assert_eq!(values(&z), vec![2e-12, 0.0]);
}
