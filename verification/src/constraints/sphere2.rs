//! Euclidean spheres
use super::ball2::{
    displacement, distance_from_center, lemma_distance_value, lemma_rescaled_at_radius,
    rescale_about, rescale_about_center,
};
use super::zero::zero_projection;
use super::Constraint;
use crate::engine::opt_float::{gt_spec, ratio_spec, OptFloat};
use crate::exact::{
    diff, dot, exact, lemma_dot_bounded, lemma_dot_of_prefix, lemma_dot_scaled,
    lemma_dot_scaled_left, lemma_dot_self_nonnegative, lemma_dot_shifted_self,
    lemma_dot_symmetric, lemma_inner_product_value, lemma_root_of_square, lemma_sq_dist_is_dot,
    sq_dist_values, values,
};
use crate::matrix_operations::{
    norm2, norm2_spec, norm2_squared_diff, norm2_squared_diff_spec, norm2_squared_spec,
};
use vstd::prelude::*;

verus! {

/// A Euclidean sphere, that is, a set given by `S = {x : ||x|| = r}` or a
/// Euclidean sphere centered at a point `xc`, that is,
/// `S = {x : ||x - xc|| = r}`
#[derive(Copy, Clone)]
pub struct Sphere2<'a, T: OptFloat> {
    center: Option<&'a [T]>,
    radius: T,
}

/// The distance from the centre, `1e-12`, up to which a point counts as the
/// centre itself.
pub open spec fn sphere_epsilon<T: OptFloat>() -> T {
    ratio_spec::<T>(1, 1_000_000_000_000)
}

/// The vector `x` with `radius` added to its first entry.
pub open spec fn shift_first<T: OptFloat>(x: Seq<T>, radius: T) -> Seq<T> {
    x.update(0, x[0].add_spec(radius))
}

/// Every entry of `x` multiplied by `factor`.
pub open spec fn scale_by<T: OptFloat>(x: Seq<T>, factor: T) -> Seq<T> {
    Seq::new(x.len(), |i: int| x[i].mul_spec(factor))
}

/// The projection on the sphere. A point is moved along the line to the
/// centre; a point that is the centre, up to [`sphere_epsilon`], has no
/// direction: it is put on the centre, and from there the point of the sphere
/// at `radius` along the first axis is taken.
pub open spec fn sphere2_projection<T: OptFloat>(
    x: Seq<T>,
    center: Option<Seq<T>>,
    radius: T,
) -> Seq<T> {
    match center {
        Some(c) => {
            let norm_difference = norm2_squared_diff_spec(x, c).sqrt_spec();
            if norm_difference.le_spec(sphere_epsilon()) {
                shift_first(c, radius)
            } else {
                rescale_about(x, c, radius, norm_difference)
            }
        },
        None => {
            let norm_x = norm2_spec(x);
            if norm_x.le_spec(sphere_epsilon()) {
                shift_first(zero_projection(x), radius)
            } else {
                scale_by(x, radius.div_spec(norm_x))
            }
        },
    }
}

impl<'a, T: OptFloat> Sphere2<'a, T> {
    /// The centre; `None` stands for the origin.
    pub closed spec fn center_spec(&self) -> Option<Seq<T>> {
        match self.center {
            Some(c) => Some(c@),
            None => None,
        }
    }

    /// The radius.
    pub closed spec fn radius_spec(&self) -> T {
        self.radius
    }

    /// The radius is positive.
    pub open spec fn wf(&self) -> bool {
        gt_spec(self.radius_spec(), T::zero_spec())
    }

    /// Construct a new Euclidean sphere with given center and radius
    /// If no `center` is given, then it is assumed to be in the origin
    pub fn new(center: Option<&'a [T]>, radius: T) -> (sphere: Self)
        requires
            gt_spec(radius, T::zero_spec()),
        ensures
            sphere.wf(),
            sphere.radius_spec() == radius,
            sphere.center_spec() == (match center {
                Some(c) => Some(c@),
                None => None,
            }),
    {
        Sphere2 { center, radius }
    }
}

impl<'a, T: OptFloat> Constraint<T> for Sphere2<'a, T> {
    /// A vector with at least one entry, and as many as the centre has.
    open spec fn admits_dimension(&self, n: nat) -> bool {
        &&& n >= 1
        &&& self.center_spec() matches Some(c) ==> c.len() == n
    }

    open spec fn contains(&self, x: Seq<T>) -> bool {
        distance_from_center(x, self.center_spec()) == self.radius_spec()
    }

    open spec fn projection(&self, x: Seq<T>) -> Seq<T> {
        sphere2_projection(x, self.center_spec(), self.radius_spec())
    }

    open spec fn convex(&self) -> bool {
        false
    }

    /// Projection onto the sphere with radius `r` and center `c`.
    /// If `x != c`, the projection is uniquely defined by
    ///
    /// ```text
    /// P(x) = c + r (x - c) / ||x - c||,
    /// ```
    ///
    /// but for `x = c`, the projection is multi-valued. In particular, let
    /// `y = P(c)`. Then `y_1 = c_1 + r` and `y_i = c_i` for `i = 2, ..., n`.
    /// A point within `1e-12` of the centre is taken for the centre.
    fn project(&self, x: &mut [T]) {
        let epsilon = T::ratio(1, 1_000_000_000_000);
        if let Some(center) = self.center {
            let norm_difference = norm2_squared_diff(x, center).sqrt();
            if norm_difference.le(epsilon) {
                let n = x.len();
                let mut i: usize = 0;
                while i < n
                    invariant
                        i <= n,
                        n == x@.len(),
                        n == center@.len(),
                        forall|j: int| 0 <= j < i ==> x@[j] == center@[j],
                    decreases n - i,
                {
                    x[i] = center[i];
                    i += 1;
                }
                assert(x@ =~= center@);
                x[0] = x[0].add(self.radius);
                return ;
            }
            rescale_about_center(x, center, self.radius, norm_difference);
        } else {
            let norm_x = norm2(x);
            if norm_x.le(epsilon) {
                let n = x.len();
                let mut i: usize = 0;
                while i < n
                    invariant
                        i <= n,
                        n == x@.len(),
                        n == old(x)@.len(),
                        forall|j: int| 0 <= j < i ==> x@[j] == T::zero_spec(),
                    decreases n - i,
                {
                    x[i] = T::zero();
                    i += 1;
                }
                assert(x@ =~= zero_projection(old(x)@));
                x[0] = x[0].add(self.radius);
                return ;
            }
            let norm_over_radius = self.radius.div(norm_x);
            let n = x.len();
            let mut i: usize = 0;
            while i < n
                invariant
                    i <= n,
                    n == x@.len(),
                    x@.len() == old(x)@.len(),
                    forall|j: int| 0 <= j < i ==> x@[j] == old(x)@[j].mul_spec(norm_over_radius),
                    forall|j: int| i <= j < x@.len() ==> x@[j] == old(x)@[j],
                decreases n - i,
            {
                x[i] = x[i].mul(norm_over_radius);
                i += 1;
            }
            assert(x@ =~= scale_by(old(x)@, norm_over_radius));
        }
    }

    /// Returns false (the sphere is not a convex set)
    fn is_convex(&self) -> bool {
        false
    }
}

/// In exact arithmetic the distance up to which a point counts as the
/// centre is positive.
pub proof fn lemma_sphere_epsilon_positive<T: OptFloat>(value: spec_fn(T) -> real)
    requires
        exact(value),
    ensures
        value(sphere_epsilon::<T>()) > 0real,
{
    let one = T::from_u64_spec(1);
    let large = T::from_u64_spec(1_000_000_000_000);
    assert(value(one) == 1u64 as real);
    assert(value(large) == 1_000_000_000_000u64 as real);
    let e = value(one.div_spec(large));
    assert(e * value(large) == value(one));
    assert(e > 0real) by (nonlinear_arith)
        requires
            e * value(large) == 1real,
            value(large) > 0real,
    ;
}

/// In exact arithmetic a vector that is scaled by the radius over its norm,
/// for a norm above zero, has the radius as its norm.
pub proof fn lemma_scaled_at_radius<T: OptFloat>(value: spec_fn(T) -> real, x: Seq<T>, radius: T)
    requires
        exact(value),
        gt_spec(radius, T::zero_spec()),
        value(norm2_spec(x)) > 0real,
    ensures
        value(norm2_spec(scale_by(x, radius.div_spec(norm2_spec(x))))) == value(radius),
{
    let n = x.len();
    let norm = norm2_spec(x);
    let factor = radius.div_spec(norm);
    let y = scale_by(x, factor);
    let vx = values(value, x);
    let vy = values(value, y);
    let r = value(radius);
    let nx = value(norm);
    let f = value(factor);
    lemma_inner_product_value(value, x, x, n);
    lemma_inner_product_value(value, y, y, n);
    lemma_dot_self_nonnegative(vx, n);
    lemma_dot_self_nonnegative(vy, n);
    let s = dot(vx, vx, n);
    assert(value(norm2_squared_spec(x)) == s);
    assert(nx >= 0real && nx * nx == s);
    assert(r > 0real);
    assert(f * nx == r);
    assert forall|i: int| 0 <= i < n implies #[trigger] vy[i] * nx == r * vx[i] by {
        assert(value(x[i].mul_spec(factor)) == vx[i] * f);
        assert((vx[i] * f) * nx == r * vx[i]) by (nonlinear_arith)
            requires
                f * nx == r,
        ;
    }
    lemma_dot_scaled(vy, vx, nx, r, n);
    let t = dot(vy, vy, n);
    assert(t == r * r) by (nonlinear_arith)
        requires
            t * (nx * nx) == (r * r) * s,
            nx * nx == s,
            nx > 0real,
    ;
    let out = norm2_spec(y);
    assert(value(norm2_squared_spec(y)) == t);
    assert(value(out) >= 0real && value(out) * value(out) == t);
    lemma_root_of_square(value(out), r);
}

/// The inner product with itself of a vector that has `r` as its first entry
/// and zero elsewhere is `r^2`.
pub proof fn lemma_dot_of_first_axis(w: Seq<real>, r: real, n: nat)
    requires
        n >= 1,
        w[0] == r,
        forall|i: int| 1 <= i < n ==> #[trigger] w[i] == 0real,
    ensures
        dot(w, w, n) == r * r,
    decreases n,
{
    if n > 1 {
        lemma_dot_of_first_axis(w, r, (n - 1) as nat);
        let last = w[n - 1];
        assert(last == 0real);
        assert(last * last == 0real) by (nonlinear_arith)
            requires
                last == 0real,
        ;
    } else {
        assert(dot(w, w, 0) == 0real);
        assert(dot(w, w, 1) == dot(w, w, 0) + w[0] * w[0]);
    }
}

/// In exact arithmetic the point at the radius from the centre along the
/// first axis lies on the sphere.
pub proof fn lemma_first_axis_on_sphere<T: OptFloat>(
    value: spec_fn(T) -> real,
    x: Seq<T>,
    center: Option<Seq<T>>,
    radius: T,
)
    requires
        exact(value),
        x.len() >= 1,
        center matches Some(c) ==> c.len() == x.len(),
        gt_spec(radius, T::zero_spec()),
    ensures
        distance_from_center(
            shift_first(
                match center {
                    Some(c) => c,
                    None => zero_projection(x),
                },
                radius,
            ),
            center,
        ) == radius,
{
    let start = match center {
        Some(c) => c,
        None => zero_projection(x),
    };
    let y = shift_first(start, radius);
    let r = value(radius);
    let w = displacement(value, y, center);
    assert(value(start[0].add_spec(radius)) == value(start[0]) + r);
    assert(w[0] == r);
    assert forall|i: int| 1 <= i < y.len() implies #[trigger] w[i] == 0real by {
        assert(y[i] == start[i]);
    }
    lemma_dot_of_first_axis(w, r, y.len());
    lemma_distance_value(value, y, center);
    assert(r > 0real);
    lemma_root_of_square(value(distance_from_center(y, center)), r);
}

/// The projection on a sphere lies on the sphere: in exact arithmetic its
/// distance from the centre is the radius.
pub proof fn law_sphere2_on_sphere<T: OptFloat>(
    value: spec_fn(T) -> real,
    sphere: Sphere2<'_, T>,
    x: Seq<T>,
)
    requires
        exact(value),
        sphere.wf(),
        sphere.admits_dimension(x.len()),
    ensures
        sphere.contains(sphere.projection(x)),
{
    let radius = sphere.radius_spec();
    let center = sphere.center_spec();
    lemma_sphere_epsilon_positive::<T>(value);
    if distance_from_center(x, center).le_spec(sphere_epsilon()) {
        lemma_first_axis_on_sphere(value, x, center, radius);
    } else {
        match center {
            Some(c) => {
                lemma_rescaled_at_radius(value, x, c, radius);
            },
            None => {
                lemma_scaled_at_radius(value, x, radius);
            },
        }
    }
}

/// The projection on a sphere is idempotent where the radius exceeds the
/// distance up to which a point counts as the centre: in exact arithmetic
/// the projection of a projection is that projection.
pub proof fn law_sphere2_idempotent<T: OptFloat>(
    value: spec_fn(T) -> real,
    sphere: Sphere2<'_, T>,
    x: Seq<T>,
)
    requires
        exact(value),
        sphere.wf(),
        sphere.admits_dimension(x.len()),
        gt_spec(sphere.radius_spec(), sphere_epsilon()),
    ensures
        sphere.projection(sphere.projection(x)) == sphere.projection(x),
{
    let radius = sphere.radius_spec();
    let r = value(radius);
    let y = sphere.projection(x);
    let z = sphere.projection(y);
    law_sphere2_on_sphere(value, sphere, x);
    lemma_sphere_epsilon_positive::<T>(value);
    assert(r > 0real);
    match sphere.center_spec() {
        Some(c) => {
            assert forall|i: int| 0 <= i < y.len() implies z[i] == y[i] by {
                let numerator = radius.mul_spec(y[i].sub_spec(c[i]));
                let d = value(y[i]) - value(c[i]);
                assert(value(y[i].sub_spec(c[i])) == d);
                assert(value(numerator) == r * d);
                let q = value(numerator.div_spec(radius));
                assert(q * r == value(numerator));
                assert(q == d) by (nonlinear_arith)
                    requires
                        q * r == r * d,
                        r > 0real,
                ;
                assert(value(c[i].add_spec(numerator.div_spec(radius))) == value(c[i]) + q);
                assert(value(z[i]) == value(y[i]));
            }
            assert(z =~= y);
        },
        None => {
            let factor = radius.div_spec(radius);
            let f = value(factor);
            assert(f * r == r);
            assert(f == 1real) by (nonlinear_arith)
                requires
                    f * r == r,
                    r > 0real,
            ;
            assert forall|i: int| 0 <= i < y.len() implies z[i] == y[i] by {
                assert(value(y[i].mul_spec(factor)) == value(y[i]) * f);
                assert(value(y[i]) * f == value(y[i])) by (nonlinear_arith)
                    requires
                        f == 1real,
                ;
                assert(value(z[i]) == value(y[i]));
            }
            assert(z =~= y);
        },
    }
}

/// In exact arithmetic the displacement of the projection on a sphere of a
/// point that does not count as the centre is that of the point, scaled by
/// the radius over its distance.
pub proof fn lemma_sphere2_values<T: OptFloat>(
    value: spec_fn(T) -> real,
    x: Seq<T>,
    center: Option<Seq<T>>,
    radius: T,
)
    requires
        exact(value),
        center matches Some(c) ==> c.len() == x.len(),
        gt_spec(radius, T::zero_spec()),
        gt_spec(distance_from_center(x, center), sphere_epsilon()),
    ensures
        ({
            let nd = value(distance_from_center(x, center));
            let d = displacement(value, x, center);
            let w = displacement(value, sphere2_projection(x, center, radius), center);
            &&& nd > 0real
            &&& forall|i: int| 0 <= i < x.len() ==> #[trigger] w[i] * nd == value(radius) * d[i]
        }),
{
    let n = x.len();
    let norm = distance_from_center(x, center);
    let nd = value(norm);
    let r = value(radius);
    let d = displacement(value, x, center);
    let y = sphere2_projection(x, center, radius);
    let w = displacement(value, y, center);
    lemma_sphere_epsilon_positive::<T>(value);
    assert(nd > 0real);
    match center {
        Some(c) => {
            assert forall|i: int| 0 <= i < n implies #[trigger] w[i] * nd == r * d[i] by {
                let numerator = radius.mul_spec(x[i].sub_spec(c[i]));
                assert(value(x[i].sub_spec(c[i])) == value(x[i]) - value(c[i]));
                assert(value(numerator) == r * (value(x[i]) - value(c[i])));
                assert(value(numerator.div_spec(norm)) * nd == value(numerator));
                assert(value(c[i].add_spec(numerator.div_spec(norm))) == value(c[i]) + value(
                    numerator.div_spec(norm),
                ));
            }
        },
        None => {
            let factor = radius.div_spec(norm);
            let f = value(factor);
            assert(f * nd == r);
            assert forall|i: int| 0 <= i < n implies #[trigger] w[i] * nd == r * d[i] by {
                assert(value(x[i].mul_spec(factor)) == value(x[i]) * f);
                assert((value(x[i]) * f) * nd == r * value(x[i])) by (nonlinear_arith)
                    requires
                        f * nd == r,
                ;
            }
        },
    }
}

/// The projection on a sphere of a point that does not count as the centre
/// is a nearest point of the sphere: in exact arithmetic it is no further
/// from `x` than any point of the sphere.
pub proof fn law_sphere2_nearest_point<T: OptFloat>(
    value: spec_fn(T) -> real,
    sphere: Sphere2<'_, T>,
    x: Seq<T>,
    z: Seq<T>,
)
    requires
        exact(value),
        sphere.wf(),
        sphere.admits_dimension(x.len()),
        z.len() == x.len(),
        gt_spec(distance_from_center(x, sphere.center_spec()), sphere_epsilon()),
        sphere.contains(z),
    ensures
        sq_dist_values(value, x, sphere.projection(x)) <= sq_dist_values(value, x, z),
{
    let center = sphere.center_spec();
    let radius = sphere.radius_spec();
    let r = value(radius);
    let n = x.len();
    let px = sphere.projection(x);
    let d = displacement(value, x, center);
    let w = displacement(value, px, center);
    let g = displacement(value, z, center);
    let nd = value(distance_from_center(x, center));
    lemma_sphere2_values(value, x, center, radius);
    lemma_distance_value(value, x, center);
    lemma_distance_value(value, z, center);
    assert(px.len() == n);
    assert(r > 0real);
    let dd = dot(d, d, n);
    let dw = dot(d, w, n);
    let wd = dot(w, d, n);
    let ww = dot(w, w, n);
    let dg = dot(d, g, n);
    let gg = dot(g, g, n);
    lemma_dot_scaled_left(w, d, d, nd, r, n);
    lemma_dot_scaled_left(w, d, w, nd, r, n);
    lemma_dot_symmetric(d, w, n);
    assert(wd == r * nd) by (nonlinear_arith)
        requires
            wd * nd == r * dd,
            dd == nd * nd,
            nd > 0real,
    ;
    assert(ww == r * r) by (nonlinear_arith)
        requires
            ww * nd == r * dw,
            dw == wd,
            wd == r * nd,
            nd > 0real,
    ;
    assert(gg == r * r);
    lemma_dot_bounded(d, g, n, nd, r);
    let one = 1real;
    let e = diff(d, w);
    let u = diff(d, g);
    assert forall|i: int| 0 <= i < n implies #[trigger] e[i] == d[i] - one * w[i] by {}
    assert forall|i: int| 0 <= i < n implies #[trigger] u[i] == d[i] - one * g[i] by {}
    lemma_dot_shifted_self(e, d, w, one, n);
    lemma_dot_shifted_self(u, d, g, one, n);
    assert(2real * one * dw == 2real * dw) by (nonlinear_arith)
        requires
            one == 1real,
    ;
    assert(one * one * ww == ww) by (nonlinear_arith)
        requires
            one == 1real,
    ;
    assert(2real * one * dg == 2real * dg) by (nonlinear_arith)
        requires
            one == 1real,
    ;
    assert(one * one * gg == gg) by (nonlinear_arith)
        requires
            one == 1real,
    ;
    assert(dot(e, e, n) <= dot(u, u, n));
    let vx = values(value, x);
    let vpx = values(value, px);
    let vz = values(value, z);
    lemma_sq_dist_is_dot(vx, vpx, n);
    lemma_sq_dist_is_dot(vx, vz, n);
    lemma_dot_of_prefix(diff(vx, vpx), diff(vx, vpx), e, e, n);
    lemma_dot_of_prefix(diff(vx, vz), diff(vx, vz), u, u, n);
}

} // verus!
