//! Balls of the 1-norm
use super::simplex::{condat_threshold, simplex_projection};
use super::simplex_proof::{
    law_simplex_projection_on_simplex, lemma_positive_part_against_sum,
    lemma_sum_abs_of_nonnegative, lemma_threshold,
};
use super::{Constraint, Simplex};
use crate::engine::opt_float::{gt_spec, OptFloat};
use crate::exact::{
    abs_real, diff, dot, exact, lemma_dot_lower_bound_by, lemma_dot_of_prefix,
    lemma_dot_with_zeros, lemma_nearest, lemma_nonexpansive, lemma_norm1_value,
    lemma_sum_abs_same,
    lemma_sum_against_abs, lemma_sum_of_nonnegative, max_real, sq_dist_values, sum, sum_abs,
    values,
};
use crate::matrix_operations::{common_len, norm1, norm1_spec};
use vstd::prelude::*;

verus! {

/// A norm-1 ball, that is, a set given by `B = {x : ||x||_1 <= r}` or a
/// ball-1 centered at a point `xc`, that is, `B = {x : ||x - xc||_1 <= r}`
pub struct Ball1<'a, T: OptFloat> {
    center: Option<&'a [T]>,
    radius: T,
    simplex: Simplex<T>,
}

impl<'a, T: OptFloat> Clone for Ball1<'a, T> {
    fn clone(&self) -> (ball: Self)
        ensures
            ball == *self,
    {
        *self
    }
}

impl<'a, T: OptFloat> Copy for Ball1<'a, T> {

}

/// The absolute values of the entries of `x`.
pub open spec fn abs_entries<T: OptFloat>(x: Seq<T>) -> Seq<T> {
    Seq::new(x.len(), |i: int| x[i].abs_spec())
}

/// The entries of `u`, each with the sign of the entry of `x`.
pub open spec fn with_signs_of<T: OptFloat>(x: Seq<T>, u: Seq<T>) -> Seq<T> {
    Seq::new(x.len(), |i: int| x[i].signum_spec().mul_spec(u[i]))
}

/// The projection on the 1-norm ball around the origin: a point outside the
/// ball has its absolute values projected on the simplex of level `radius`,
/// and the signs are put back.
pub open spec fn ball1_projection_at_origin<T: OptFloat>(x: Seq<T>, radius: T) -> Seq<T> {
    if x.len() > 0 && gt_spec(norm1_spec(x), radius) {
        with_signs_of(x, simplex_projection(abs_entries(x), radius))
    } else {
        x
    }
}

/// The difference `x - c`, over the entries that `c` has.
pub open spec fn minus_center<T: OptFloat>(x: Seq<T>, c: Seq<T>) -> Seq<T> {
    Seq::new(
        x.len(),
        |i: int|
            if i < c.len() {
                x[i].sub_spec(c[i])
            } else {
                x[i]
            },
    )
}

/// The sum `x + c`, over the entries that `c` has.
pub open spec fn plus_center<T: OptFloat>(x: Seq<T>, c: Seq<T>) -> Seq<T> {
    Seq::new(
        x.len(),
        |i: int|
            if i < c.len() {
                x[i].add_spec(c[i])
            } else {
                x[i]
            },
    )
}

/// The projection on the 1-norm ball: the centre is subtracted, the
/// difference is projected on the ball around the origin, and the centre is
/// added again.
pub open spec fn ball1_projection<T: OptFloat>(
    x: Seq<T>,
    center: Option<Seq<T>>,
    radius: T,
) -> Seq<T> {
    match center {
        Some(c) => plus_center(ball1_projection_at_origin(minus_center(x, c), radius), c),
        None => ball1_projection_at_origin(x, radius),
    }
}

impl<'a, T: OptFloat> Ball1<'a, T> {
    /// The centre; `None` stands for the origin.
    pub closed spec fn center_spec(&self) -> Option<Seq<T>> {
        match self.center {
            Some(c) => Some(c@),
            None => None,
        }
    }

    /// The radius.
    pub closed spec fn radius_spec(&self) -> T {
        self.radius
    }

    /// The simplex on which absolute values are projected has the radius as
    /// its level.
    #[verifier::type_invariant]
    spec fn level_is_radius(self) -> bool {
        self.simplex.alpha_spec() == self.radius
    }

    /// The radius is positive.
    pub open spec fn wf(&self) -> bool {
        gt_spec(self.radius_spec(), T::zero_spec())
    }

    /// Construct a new ball-1 with given center and radius.
    /// If no `center` is given, then it is assumed to be in the origin
    pub fn new(center: Option<&'a [T]>, radius: T) -> (ball: Self)
        requires
            gt_spec(radius, T::zero_spec()),
        ensures
            ball.wf(),
            ball.radius_spec() == radius,
            ball.center_spec() == (match center {
                Some(c) => Some(c@),
                None => None,
            }),
    {
        let simplex = Simplex::new(radius);
        Ball1 { center, radius, simplex }
    }

    /// Projection on the ball of this radius around the origin.
    pub fn project_on_ball1_centered_at_origin(&self, x: &mut [T])
        ensures
            final(x)@.len() == old(x)@.len(),
            final(x)@ == ball1_projection_at_origin(old(x)@, self.radius_spec()),
    {
        proof {
            use_type_invariant(self);
        }
        let n = x.len();
        if n > 0 && norm1(x).gt(self.radius) {
            // u = |x| (copied)
            let mut u: Vec<T> = Vec::with_capacity(n);
            let mut i: usize = 0;
            while i < n
                invariant
                    i <= n,
                    n == x@.len(),
                    x@ == old(x)@,
                    u@.len() == i,
                    forall|j: int| 0 <= j < i ==> u@[j] == x@[j].abs_spec(),
                decreases n - i,
            {
                u.push(x[i].abs());
                i += 1;
            }
            assert(u@ =~= abs_entries(old(x)@));
            // u = P_simplex(u)
            self.simplex.project(u.as_mut_slice());
            let mut i: usize = 0;
            while i < n
                invariant
                    i <= n,
                    n == x@.len(),
                    n == u@.len(),
                    x@.len() == old(x)@.len(),
                    forall|j: int| 0 <= j < i ==> x@[j] == old(x)@[j].signum_spec().mul_spec(u@[j]),
                    forall|j: int| i <= j < n ==> x@[j] == old(x)@[j],
                decreases n - i,
            {
                x[i] = x[i].signum().mul(u[i]);
                i += 1;
            }
            assert(x@ =~= with_signs_of(old(x)@, u@));
        }
    }
}

impl<'a, T: OptFloat> Constraint<T> for Ball1<'a, T> {
    open spec fn admits_dimension(&self, n: nat) -> bool {
        true
    }

    open spec fn contains(&self, x: Seq<T>) -> bool {
        norm1_spec(about_origin(x, self.center_spec())).le_spec(self.radius_spec())
    }

    open spec fn projection(&self, x: Seq<T>) -> Seq<T> {
        ball1_projection(x, self.center_spec(), self.radius_spec())
    }

    open spec fn convex(&self) -> bool {
        true
    }

    fn project(&self, x: &mut [T]) {
        if let Some(center) = self.center {
            let n = if x.len() <= center.len() {
                x.len()
            } else {
                center.len()
            };
            let mut i: usize = 0;
            while i < n
                invariant
                    i <= n,
                    n == common_len(x@, center@),
                    x@.len() == old(x)@.len(),
                    forall|j: int| 0 <= j < i ==> x@[j] == old(x)@[j].sub_spec(center@[j]),
                    forall|j: int| i <= j < x@.len() ==> x@[j] == old(x)@[j],
                decreases n - i,
            {
                x[i] = x[i].sub(center[i]);
                i += 1;
            }
            assert(x@ =~= minus_center(old(x)@, center@));
            self.project_on_ball1_centered_at_origin(x);
            let ghost projected = x@;
            let mut i: usize = 0;
            while i < n
                invariant
                    i <= n,
                    n == common_len(x@, center@),
                    x@.len() == projected.len(),
                    forall|j: int| 0 <= j < i ==> x@[j] == projected[j].add_spec(center@[j]),
                    forall|j: int| i <= j < x@.len() ==> x@[j] == projected[j],
                decreases n - i,
            {
                x[i] = x[i].add(center[i]);
                i += 1;
            }
            assert(x@ =~= plus_center(projected, center@));
        } else {
            self.project_on_ball1_centered_at_origin(x);
        }
    }

    fn is_convex(&self) -> bool {
        true
    }
}

/// Where no entry of `a` exceeds the entry of `b` in absolute value, the sum
/// of the absolute values of `a` does not exceed that of `b`.
pub proof fn lemma_sum_abs_entrywise(a: Seq<real>, b: Seq<real>, n: nat)
    requires
        forall|i: int| 0 <= i < n ==> abs_real(#[trigger] a[i]) <= abs_real(b[i]),
    ensures
        sum_abs(a, n) <= sum_abs(b, n),
    decreases n,
{
    if n > 0 {
        lemma_sum_abs_entrywise(a, b, (n - 1) as nat);
        assert(abs_real(a[n - 1]) <= abs_real(b[n - 1]));
    }
}

/// The sum of the absolute values over the first `n` entries depends on those
/// entries only.
pub proof fn lemma_sum_abs_of_prefix(a: Seq<real>, b: Seq<real>, n: nat)
    requires
        forall|i: int| 0 <= i < n ==> #[trigger] a[i] == b[i],
    ensures
        sum_abs(a, n) == sum_abs(b, n),
    decreases n,
{
    if n > 0 {
        lemma_sum_abs_of_prefix(a, b, (n - 1) as nat);
        assert(a[n - 1] == b[n - 1]);
    }
}

/// In exact arithmetic the projection on the ball around the origin has a
/// 1-norm that does not exceed the radius.
pub proof fn lemma_ball1_at_origin_within_radius<T: OptFloat>(
    value: spec_fn(T) -> real,
    x: Seq<T>,
    radius: T,
)
    requires
        exact(value),
        gt_spec(radius, T::zero_spec()),
        x.len() <= usize::MAX,
    ensures
        norm1_spec(ball1_projection_at_origin(x, radius)).le_spec(radius),
{
    let y = ball1_projection_at_origin(x, radius);
    let n = x.len();
    lemma_norm1_value(value, x, n);
    if n > 0 && gt_spec(norm1_spec(x), radius) {
        let a = abs_entries(x);
        let simplex = Simplex::<T>::with_level(radius);
        Simplex::<T>::lemma_with_level(radius);
        law_simplex_projection_on_simplex(value, simplex, a);
        let u = simplex_projection(a, radius);
        lemma_norm1_value(value, u, n);
        lemma_norm1_value(value, y, n);
        let vy = values(value, y);
        let vu = values(value, u);
        assert forall|i: int| 0 <= i < n implies abs_real(#[trigger] vy[i]) <= abs_real(vu[i]) by {
            let s = x[i].signum_spec();
            assert(T::zero_spec().le_spec(u[i]));
            assert(value(s.mul_spec(u[i])) == value(s) * value(u[i]));
            assert(-1real <= value(s) <= 1real);
            assert(abs_real(value(s) * value(u[i])) <= value(u[i])) by (nonlinear_arith)
                requires
                    -1real <= value(s) <= 1real,
                    value(u[i]) >= 0real,
            ;
        }
        lemma_sum_abs_entrywise(vy, vu, n);
    } else {
        assert(value(radius) > 0real);
    }
}

/// The projection on a ball of the 1-norm lies in the ball: in exact
/// arithmetic the 1-norm of its difference from the centre does not exceed
/// the radius.
pub proof fn law_ball1_within_radius<T: OptFloat>(
    value: spec_fn(T) -> real,
    ball: Ball1<'_, T>,
    x: Seq<T>,
)
    requires
        exact(value),
        ball.wf(),
        x.len() <= usize::MAX,
        ball.center_spec() matches Some(c) ==> c.len() == x.len(),
    ensures
        ball.contains(ball.projection(x)),
{
    let radius = ball.radius_spec();
    match ball.center_spec() {
        Some(c) => {
            let d = minus_center(x, c);
            let w = ball1_projection_at_origin(d, radius);
            let y = plus_center(w, c);
            let back = minus_center(y, c);
            lemma_ball1_at_origin_within_radius(value, d, radius);
            lemma_norm1_value(value, w, w.len());
            lemma_norm1_value(value, back, back.len());
            assert forall|i: int| 0 <= i < w.len() implies #[trigger] values(value, back)[i]
                == values(value, w)[i] by {
                assert(value(w[i].add_spec(c[i])) == value(w[i]) + value(c[i]));
                assert(value(y[i].sub_spec(c[i])) == value(y[i]) - value(c[i]));
            }
            lemma_sum_abs_of_prefix(values(value, back), values(value, w), w.len());
        },
        None => {
            lemma_ball1_at_origin_within_radius(value, x, radius);
        },
    }
}

/// The projection on a ball of the 1-norm is idempotent: in exact
/// arithmetic the projection of a projection is that projection.
pub proof fn law_ball1_idempotent<T: OptFloat>(
    value: spec_fn(T) -> real,
    ball: Ball1<'_, T>,
    x: Seq<T>,
)
    requires
        exact(value),
        ball.wf(),
        x.len() <= usize::MAX,
        ball.center_spec() matches Some(c) ==> c.len() == x.len(),
    ensures
        ball.projection(ball.projection(x)) == ball.projection(x),
{
    let radius = ball.radius_spec();
    let y = ball.projection(x);
    law_ball1_within_radius(value, ball, x);
    match ball.center_spec() {
        Some(c) => {
            let back = minus_center(y, c);
            assert(!gt_spec(norm1_spec(back), radius));
            let z = plus_center(back, c);
            assert forall|i: int| 0 <= i < y.len() implies z[i] == y[i] by {
                assert(value(y[i].sub_spec(c[i])) == value(y[i]) - value(c[i]));
                assert(value(back[i].add_spec(c[i])) == value(back[i]) + value(c[i]));
                assert(value(z[i]) == value(y[i]));
            }
            assert(z =~= y);
        },
        None => {
            assert(!gt_spec(norm1_spec(y), radius));
        },
    }
}

/// One entry of the inequality of the projection on a ball of the 1-norm:
/// for an entry `d` with sign `s`, the cut-off `u = max(0, |d| - rho)` at a
/// threshold `rho` that is not negative, and `w = s u`,
/// `(d - w) (w - g) >= rho (u - |g|)`.
pub proof fn lemma_soft_threshold_entry(d: real, s: real, u: real, w: real, g: real, rho: real)
    requires
        rho >= 0real,
        u == max_real(0real, abs_real(d) - rho),
        w == s * u,
        d > 0real ==> s == 1real,
        d < 0real ==> s == -1real,
        -1real <= s <= 1real,
    ensures
        (d - w) * (w - g) >= rho * (u - abs_real(g)),
{
    let a = abs_real(d);
    if a - rho >= 0real {
        if d > 0real {
            assert(w == u) by (nonlinear_arith)
                requires
                    w == s * u,
                    s == 1real,
            ;
            assert(d - w == rho);
            assert(rho * (u - g) >= rho * (u - abs_real(g))) by (nonlinear_arith)
                requires
                    rho >= 0real,
                    g <= abs_real(g),
            ;
        } else if d < 0real {
            assert(w == -u) by (nonlinear_arith)
                requires
                    w == s * u,
                    s == -1real,
            ;
            assert(d - w == -rho);
            assert((-rho) * (-u - g) >= rho * (u - abs_real(g))) by (nonlinear_arith)
                requires
                    rho >= 0real,
                    -g <= abs_real(g),
            ;
        } else {
            assert(rho == 0real);
            assert(u == 0real);
            assert(w == 0real) by (nonlinear_arith)
                requires
                    w == s * u,
                    u == 0real,
            ;
            assert((d - w) * (w - g) == 0real) by (nonlinear_arith)
                requires
                    d == 0real,
                    w == 0real,
            ;
            assert(rho * (u - abs_real(g)) == 0real) by (nonlinear_arith)
                requires
                    rho == 0real,
            ;
        }
    } else {
        assert(u == 0real);
        assert(w == 0real) by (nonlinear_arith)
            requires
                w == s * u,
                u == 0real,
        ;
        let b = abs_real(g);
        assert(d * (-g) >= -(a * b)) by (nonlinear_arith)
            requires
                a == abs_real(d),
                b == abs_real(g),
        ;
        assert(a * b <= rho * b) by (nonlinear_arith)
            requires
                a < rho,
                b >= 0real,
        ;
        assert(rho * (0real - b) == -(rho * b)) by (nonlinear_arith);
    }
}

/// In exact arithmetic the projection `w` of `d` on a ball of the 1-norm
/// around the origin and a vector `g` of the ball meet the inequality
/// `<d - w, w - g> >= 0`.
pub proof fn lemma_ball1_obtuse_at_origin<T: OptFloat>(
    value: spec_fn(T) -> real,
    d: Seq<T>,
    radius: T,
    g: Seq<real>,
)
    requires
        exact(value),
        gt_spec(radius, T::zero_spec()),
        d.len() <= usize::MAX,
        g.len() == d.len(),
        sum_abs(g, g.len()) <= value(radius),
    ensures
        dot(
            diff(values(value, d), values(value, ball1_projection_at_origin(d, radius))),
            diff(values(value, ball1_projection_at_origin(d, radius)), g),
            d.len(),
        ) >= 0real,
{
    let n = d.len();
    let r = value(radius);
    let w = ball1_projection_at_origin(d, radius);
    let vd = values(value, d);
    let vw = values(value, w);
    let e = diff(vd, vw);
    let h = diff(vw, g);
    if n > 0 && gt_spec(norm1_spec(d), radius) {
        let a = abs_entries(d);
        let simplex = Simplex::<T>::with_level(radius);
        Simplex::<T>::lemma_with_level(radius);
        let u = simplex_projection(a, radius);
        let threshold = condat_threshold(a, radius);
        let rho = value(threshold);
        let vu = values(value, u);
        law_simplex_projection_on_simplex(value, simplex, a);
        lemma_threshold(value, a, radius);
        lemma_norm1_value(value, d, n);
        lemma_norm1_value(value, u, n);
        assert forall|i: int| 0 <= i < n implies value(#[trigger] a[i]) >= 0real by {
            assert(value(d[i].abs_spec()) == abs_real(value(d[i])));
        }
        assert forall|i: int| 0 <= i < n implies #[trigger] vu[i] >= 0real by {
            assert(T::zero_spec().le_spec(u[i]));
        }
        // the threshold is not negative
        lemma_positive_part_against_sum(value, a, rho, n);
        lemma_sum_abs_of_nonnegative(value, a, n);
        let va = values(value, a);
        assert forall|i: int| 0 <= i < n implies abs_real(#[trigger] va[i]) == abs_real(vd[i]) by {
            assert(value(d[i].abs_spec()) == abs_real(value(d[i])));
        }
        lemma_sum_abs_same(va, vd, n);
        assert(sum_abs(vd, n) > r);
        assert(rho >= 0real);
        // the entries of the cut-off add up to the radius
        lemma_sum_of_nonnegative(vu, n);
        assert(sum(vu, n) == r);
        let k = Seq::new(n, |i: int| vu[i] - abs_real(g[i]));
        lemma_sum_against_abs(vu, g, k, n);
        assert forall|i: int| 0 <= i < n implies #[trigger] e[i] * h[i] >= rho * k[i] by {
            let s = d[i].signum_spec();
            assert(value(a[i].sub_spec(threshold)) == value(a[i]) - rho);
            assert(value(a[i]) == abs_real(vd[i]));
            assert(vu[i] == max_real(value(T::zero_spec()), value(a[i].sub_spec(threshold))));
            assert(vw[i] == value(s) * vu[i]);
            lemma_soft_threshold_entry(vd[i], value(s), vu[i], vw[i], g[i], rho);
        }
        lemma_dot_lower_bound_by(e, h, k, rho, n);
        assert(rho * sum(k, n) >= 0real) by (nonlinear_arith)
            requires
                rho >= 0real,
                sum(k, n) >= 0real,
        ;
    } else {
        lemma_dot_with_zeros(e, h, n);
    }
}

/// The vector that is projected on the ball around the origin: `x - c`, or
/// `x` where the centre is the origin.
pub open spec fn about_origin<T: OptFloat>(x: Seq<T>, center: Option<Seq<T>>) -> Seq<T> {
    match center {
        Some(c) => minus_center(x, c),
        None => x,
    }
}

/// The projection on a ball of the 1-norm is nonexpansive: in exact
/// arithmetic the projections of two vectors are no further apart than the
/// vectors.
pub proof fn law_ball1_nonexpansive<T: OptFloat>(
    value: spec_fn(T) -> real,
    ball: Ball1<'_, T>,
    x: Seq<T>,
    y: Seq<T>,
)
    requires
        exact(value),
        ball.wf(),
        x.len() == y.len(),
        x.len() <= usize::MAX,
        ball.center_spec() matches Some(c) ==> c.len() == x.len(),
    ensures
        sq_dist_values(value, ball.projection(x), ball.projection(y)) <= sq_dist_values(
            value,
            x,
            y,
        ),
{
    let center = ball.center_spec();
    let radius = ball.radius_spec();
    let n = x.len();
    let dx = about_origin(x, center);
    let dy = about_origin(y, center);
    let wx = ball1_projection_at_origin(dx, radius);
    let wy = ball1_projection_at_origin(dy, radius);
    let px = ball.projection(x);
    let py = ball.projection(y);
    assert(wx.len() == n && wy.len() == n);
    lemma_ball1_at_origin_within_radius(value, dx, radius);
    lemma_ball1_at_origin_within_radius(value, dy, radius);
    lemma_norm1_value(value, wx, n);
    lemma_norm1_value(value, wy, n);
    lemma_ball1_obtuse_at_origin(value, dx, radius, values(value, wy));
    lemma_ball1_obtuse_at_origin(value, dy, radius, values(value, wx));
    let vx = values(value, x);
    let vy = values(value, y);
    let vpx = values(value, px);
    let vpy = values(value, py);
    let vdx = values(value, dx);
    let vdy = values(value, dy);
    let vwx = values(value, wx);
    let vwy = values(value, wy);
    assert forall|i: int| 0 <= i < n implies #[trigger] diff(vx, vpx)[i] == diff(vdx, vwx)[i]
        && #[trigger] diff(vpx, vpy)[i] == diff(vwx, vwy)[i] && #[trigger] diff(vy, vpy)[i]
        == diff(vdy, vwy)[i] && #[trigger] diff(vpy, vpx)[i] == diff(vwy, vwx)[i] by {
        match center {
            Some(c) => {
                assert(value(x[i].sub_spec(c[i])) == value(x[i]) - value(c[i]));
                assert(value(y[i].sub_spec(c[i])) == value(y[i]) - value(c[i]));
                assert(value(wx[i].add_spec(c[i])) == value(wx[i]) + value(c[i]));
                assert(value(wy[i].add_spec(c[i])) == value(wy[i]) + value(c[i]));
            },
            None => {},
        }
    }
    lemma_dot_of_prefix(diff(vx, vpx), diff(vpx, vpy), diff(vdx, vwx), diff(vwx, vwy), n);
    lemma_dot_of_prefix(diff(vy, vpy), diff(vpy, vpx), diff(vdy, vwy), diff(vwy, vwx), n);
    lemma_nonexpansive(vx, vy, vpx, vpy, n);
}

/// The projection on a ball of the 1-norm is a nearest point of the ball: in
/// exact arithmetic it is no further from `x` than any point of the ball.
pub proof fn law_ball1_nearest_point<T: OptFloat>(
    value: spec_fn(T) -> real,
    ball: Ball1<'_, T>,
    x: Seq<T>,
    z: Seq<T>,
)
    requires
        exact(value),
        ball.wf(),
        x.len() <= usize::MAX,
        z.len() == x.len(),
        ball.center_spec() matches Some(c) ==> c.len() == x.len(),
        ball.contains(z),
    ensures
        sq_dist_values(value, x, ball.projection(x)) <= sq_dist_values(value, x, z),
{
    let center = ball.center_spec();
    let radius = ball.radius_spec();
    let n = x.len();
    let dx = about_origin(x, center);
    let dz = about_origin(z, center);
    let wx = ball1_projection_at_origin(dx, radius);
    let px = ball.projection(x);
    assert(wx.len() == n);
    lemma_norm1_value(value, dz, n);
    let g = values(value, dz);
    lemma_ball1_obtuse_at_origin(value, dx, radius, g);
    let vx = values(value, x);
    let vpx = values(value, px);
    let vz = values(value, z);
    let vdx = values(value, dx);
    let vwx = values(value, wx);
    assert forall|i: int| 0 <= i < n implies #[trigger] diff(vx, vpx)[i] == diff(vdx, vwx)[i]
        && #[trigger] diff(vpx, vz)[i] == diff(vwx, g)[i] by {
        match center {
            Some(c) => {
                assert(value(x[i].sub_spec(c[i])) == value(x[i]) - value(c[i]));
                assert(value(z[i].sub_spec(c[i])) == value(z[i]) - value(c[i]));
                assert(value(wx[i].add_spec(c[i])) == value(wx[i]) + value(c[i]));
            },
            None => {},
        }
    }
    lemma_dot_of_prefix(diff(vx, vpx), diff(vpx, vz), diff(vdx, vwx), diff(vwx, g), n);
    lemma_nearest(vx, vpx, vz, n);
}

} // verus!
