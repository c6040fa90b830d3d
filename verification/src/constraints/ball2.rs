//! Euclidean balls
use super::Constraint;
use crate::engine::opt_float::{gt_spec, OptFloat};
use crate::exact::{
    diff, dot, exact, lemma_dot_bounded, lemma_dot_diff, lemma_dot_of_prefix, lemma_dot_scaled,
    lemma_dot_scaled_left, lemma_dot_self_nonnegative, lemma_dot_symmetric, lemma_dot_with_zeros,
    lemma_inner_product_value, lemma_nonexpansive, lemma_root_of_square, lemma_sq_dist_is_dot,
    lemma_sq_dist_value, sq_dist_values, values,
};
use crate::matrix_operations::{
    common_len, norm2, norm2_spec, norm2_squared_diff, norm2_squared_diff_spec,
    norm2_squared_spec,
};
use vstd::prelude::*;

verus! {

/// A Euclidean ball, that is, a set given by `B = {x : ||x|| <= r}` or a
/// Euclidean ball centered at a point `xc`, that is,
/// `B = {x : ||x - xc|| <= r}`
#[derive(Copy, Clone)]
pub struct Ball2<'a, T: OptFloat> {
    center: Option<&'a [T]>,
    radius: T,
}

/// The point at distance `radius` from the centre in the direction of `x`,
/// for an `x` at distance `norm` from the centre. Entries for which the
/// centre has no entry stay as they are.
pub open spec fn rescale_about<T: OptFloat>(x: Seq<T>, c: Seq<T>, radius: T, norm: T) -> Seq<T> {
    Seq::new(
        x.len(),
        |i: int|
            if i < c.len() {
                c[i].add_spec(radius.mul_spec(x[i].sub_spec(c[i])).div_spec(norm))
            } else {
                x[i]
            },
    )
}

/// Every entry of `x` divided by `divisor`.
pub open spec fn divide_by<T: OptFloat>(x: Seq<T>, divisor: T) -> Seq<T> {
    Seq::new(x.len(), |i: int| x[i].div_spec(divisor))
}

/// The projection on the Euclidean ball: a point outside the ball is moved
/// to the sphere, along the line to the centre.
pub open spec fn ball2_projection<T: OptFloat>(
    x: Seq<T>,
    center: Option<Seq<T>>,
    radius: T,
) -> Seq<T> {
    match center {
        Some(c) => {
            let norm_difference = norm2_squared_diff_spec(x, c).sqrt_spec();
            if gt_spec(norm_difference, radius) {
                rescale_about(x, c, radius, norm_difference)
            } else {
                x
            }
        },
        None => {
            let norm_x = norm2_spec(x);
            if gt_spec(norm_x, radius) {
                divide_by(x, norm_x.div_spec(radius))
            } else {
                x
            }
        },
    }
}

/// Replaces the first entries of `x`, as far as `c` has entries, by those of
/// the point at distance `radius` from `c` in the direction of `x`.
pub fn rescale_about_center<T: OptFloat>(x: &mut [T], c: &[T], radius: T, norm: T)
    ensures
        final(x)@.len() == old(x)@.len(),
        final(x)@ == rescale_about(old(x)@, c@, radius, norm),
{
    let n = if x.len() <= c.len() {
        x.len()
    } else {
        c.len()
    };
    let mut i: usize = 0;
    while i < n
        invariant
            i <= n,
            n == common_len(x@, c@),
            x@.len() == old(x)@.len(),
            forall|j: int| 0 <= j < i ==> x@[j] == rescale_about(old(x)@, c@, radius, norm)[j],
            forall|j: int| i <= j < x@.len() ==> x@[j] == old(x)@[j],
        decreases n - i,
    {
        x[i] = c[i].add(radius.mul(x[i].sub(c[i])).div(norm));
        i += 1;
    }
    assert(x@ =~= rescale_about(old(x)@, c@, radius, norm));
}

impl<'a, T: OptFloat> Ball2<'a, T> {
    /// The centre; `None` stands for the origin.
    pub closed spec fn center_spec(&self) -> Option<Seq<T>> {
        match self.center {
            Some(c) => Some(c@),
            None => None,
        }
    }

    /// The radius.
    pub closed spec fn radius_spec(&self) -> T {
        self.radius
    }

    /// The radius is positive.
    pub open spec fn wf(&self) -> bool {
        gt_spec(self.radius_spec(), T::zero_spec())
    }

    /// Construct a new Euclidean ball with given center and radius
    /// If no `center` is given, then it is assumed to be in the origin
    pub fn new(center: Option<&'a [T]>, radius: T) -> (ball: Self)
        requires
            gt_spec(radius, T::zero_spec()),
        ensures
            ball.wf(),
            ball.radius_spec() == radius,
            ball.center_spec() == (match center {
                Some(c) => Some(c@),
                None => None,
            }),
    {
        Ball2 { center, radius }
    }
}

impl<'a, T: OptFloat> Constraint<T> for Ball2<'a, T> {
    open spec fn admits_dimension(&self, n: nat) -> bool {
        true
    }

    open spec fn contains(&self, x: Seq<T>) -> bool {
        distance_from_center(x, self.center_spec()).le_spec(self.radius_spec())
    }

    open spec fn projection(&self, x: Seq<T>) -> Seq<T> {
        ball2_projection(x, self.center_spec(), self.radius_spec())
    }

    open spec fn convex(&self) -> bool {
        true
    }

    fn project(&self, x: &mut [T]) {
        if let Some(center) = self.center {
            let norm_difference = norm2_squared_diff(x, center).sqrt();
            if norm_difference.gt(self.radius) {
                rescale_about_center(x, center, self.radius, norm_difference);
            }
        } else {
            let norm_x = norm2(x);
            if norm_x.gt(self.radius) {
                let norm_over_radius = norm_x.div(self.radius);
                let n = x.len();
                let mut i: usize = 0;
                while i < n
                    invariant
                        i <= n,
                        n == x@.len(),
                        x@.len() == old(x)@.len(),
                        forall|j: int|
                            0 <= j < i ==> x@[j] == old(x)@[j].div_spec(norm_over_radius),
                        forall|j: int| i <= j < x@.len() ==> x@[j] == old(x)@[j],
                    decreases n - i,
                {
                    x[i] = x[i].div(norm_over_radius);
                    i += 1;
                }
                assert(x@ =~= divide_by(old(x)@, norm_over_radius));
            }
        }
    }

    fn is_convex(&self) -> bool {
        true
    }
}

/// The Euclidean distance of `x` from the centre of a ball, as the
/// projection computes it.
pub open spec fn distance_from_center<T: OptFloat>(x: Seq<T>, center: Option<Seq<T>>) -> T {
    match center {
        Some(c) => norm2_squared_diff_spec(x, c).sqrt_spec(),
        None => norm2_spec(x),
    }
}

/// In exact arithmetic a vector that is rescaled about the centre, from a
/// distance above zero, lies at the radius from the centre.
pub proof fn lemma_rescaled_at_radius<T: OptFloat>(
    value: spec_fn(T) -> real,
    x: Seq<T>,
    c: Seq<T>,
    radius: T,
)
    requires
        exact(value),
        x.len() == c.len(),
        gt_spec(radius, T::zero_spec()),
        value(norm2_squared_diff_spec(x, c).sqrt_spec()) > 0real,
    ensures
        value(
            norm2_squared_diff_spec(
                rescale_about(x, c, radius, norm2_squared_diff_spec(x, c).sqrt_spec()),
                c,
            ).sqrt_spec(),
        ) == value(radius),
{
    let n = x.len();
    let norm = norm2_squared_diff_spec(x, c).sqrt_spec();
    let y = rescale_about(x, c, radius, norm);
    let vx = values(value, x);
    let vy = values(value, y);
    let vc = values(value, c);
    let r = value(radius);
    let nd = value(norm);
    lemma_sq_dist_value(value, x, c, n);
    lemma_sq_dist_value(value, y, c, n);
    lemma_sq_dist_is_dot(vx, vc, n);
    lemma_sq_dist_is_dot(vy, vc, n);
    let dx = diff(vx, vc);
    let dy = diff(vy, vc);
    lemma_dot_self_nonnegative(dx, n);
    lemma_dot_self_nonnegative(dy, n);
    let s = dot(dx, dx, n);
    assert(value(norm2_squared_diff_spec(x, c)) == s);
    assert(nd >= 0real && nd * nd == s);
    assert(r > 0real);
    assert forall|i: int| 0 <= i < n implies #[trigger] dy[i] * nd == r * dx[i] by {
        let numerator = radius.mul_spec(x[i].sub_spec(c[i]));
        assert(value(x[i].sub_spec(c[i])) == vx[i] - vc[i]);
        assert(value(numerator) == r * (vx[i] - vc[i]));
        assert(value(numerator.div_spec(norm)) * nd == value(numerator));
        assert(value(c[i].add_spec(numerator.div_spec(norm))) == vc[i] + value(
            numerator.div_spec(norm),
        ));
    }
    lemma_dot_scaled(dy, dx, nd, r, n);
    let t = dot(dy, dy, n);
    assert(t == r * r) by (nonlinear_arith)
        requires
            t * (nd * nd) == (r * r) * s,
            nd * nd == s,
            nd > 0real,
    ;
    let out = norm2_squared_diff_spec(y, c).sqrt_spec();
    assert(value(norm2_squared_diff_spec(y, c)) == t);
    assert(value(out) >= 0real && value(out) * value(out) == t);
    lemma_root_of_square(value(out), r);
}

/// In exact arithmetic a vector that is divided by its norm over the radius,
/// for a norm above the radius, has the radius as its norm.
pub proof fn lemma_divided_at_radius<T: OptFloat>(value: spec_fn(T) -> real, x: Seq<T>, radius: T)
    requires
        exact(value),
        gt_spec(radius, T::zero_spec()),
        gt_spec(norm2_spec(x), radius),
    ensures
        value(norm2_spec(divide_by(x, norm2_spec(x).div_spec(radius)))) == value(radius),
{
    let n = x.len();
    let norm = norm2_spec(x);
    let factor = norm.div_spec(radius);
    let y = divide_by(x, factor);
    let vx = values(value, x);
    let vy = values(value, y);
    let r = value(radius);
    let nx = value(norm);
    let f = value(factor);
    lemma_inner_product_value(value, x, x, n);
    lemma_inner_product_value(value, y, y, n);
    lemma_dot_self_nonnegative(vx, n);
    lemma_dot_self_nonnegative(vy, n);
    let s = dot(vx, vx, n);
    assert(value(norm2_squared_spec(x)) == s);
    assert(nx >= 0real && nx * nx == s);
    assert(r > 0real);
    assert(nx > r);
    assert(f * r == nx);
    assert(f > 0real) by (nonlinear_arith)
        requires
            f * r == nx,
            nx > 0real,
            r > 0real,
    ;
    assert forall|i: int| 0 <= i < n implies #[trigger] vy[i] * f == 1real * vx[i] by {
        assert(value(x[i].div_spec(factor)) * f == value(x[i]));
    }
    lemma_dot_scaled(vy, vx, f, 1real, n);
    let t = dot(vy, vy, n);
    assert(t == r * r) by (nonlinear_arith)
        requires
            t * (f * f) == (1real * 1real) * s,
            nx * nx == s,
            f * r == nx,
            f > 0real,
    ;
    let out = norm2_spec(y);
    assert(value(norm2_squared_spec(y)) == t);
    assert(value(out) >= 0real && value(out) * value(out) == t);
    lemma_root_of_square(value(out), r);
}

/// The projection on a Euclidean ball lies in the ball: in exact arithmetic
/// its distance from the centre does not exceed the radius.
pub proof fn law_ball2_within_radius<T: OptFloat>(
    value: spec_fn(T) -> real,
    ball: Ball2<'_, T>,
    x: Seq<T>,
)
    requires
        exact(value),
        ball.wf(),
        ball.center_spec() matches Some(c) ==> c.len() == x.len(),
    ensures
        ball.contains(ball.projection(x)),
{
    let radius = ball.radius_spec();
    match ball.center_spec() {
        Some(c) => {
            let norm = norm2_squared_diff_spec(x, c).sqrt_spec();
            if gt_spec(norm, radius) {
                assert(value(norm) > value(radius) > 0real);
                lemma_rescaled_at_radius(value, x, c, radius);
            }
        },
        None => {
            if gt_spec(norm2_spec(x), radius) {
                lemma_divided_at_radius(value, x, radius);
            }
        },
    }
}

/// The projection on a Euclidean ball is idempotent: in exact arithmetic
/// the projection of a projection is that projection.
pub proof fn law_ball2_idempotent<T: OptFloat>(
    value: spec_fn(T) -> real,
    ball: Ball2<'_, T>,
    x: Seq<T>,
)
    requires
        exact(value),
        ball.wf(),
        ball.center_spec() matches Some(c) ==> c.len() == x.len(),
    ensures
        ball.projection(ball.projection(x)) == ball.projection(x),
{
    law_ball2_within_radius(value, ball, x);
    let y = ball.projection(x);
    let distance = distance_from_center(y, ball.center_spec());
    assert(!gt_spec(distance, ball.radius_spec()));
}

/// The inequality of the projection on a ball, in displacements from the
/// centre: for the displacement `d` of a point at a distance `nd` above the
/// radius `r`, the displacement `w = (r / nd) d` of its projection, and the
/// displacement `g` of a point of the ball, `<d - w, w - g> >= 0`.
pub proof fn lemma_ball_obtuse_outside(
    d: Seq<real>,
    w: Seq<real>,
    g: Seq<real>,
    nd: real,
    r: real,
    n: nat,
)
    requires
        n <= d.len(),
        n <= w.len(),
        r > 0real,
        nd > r,
        nd * nd == dot(d, d, n),
        dot(g, g, n) <= r * r,
        forall|i: int| 0 <= i < n ==> #[trigger] w[i] * nd == r * d[i],
    ensures
        dot(diff(d, w), diff(w, g), n) >= 0real,
{
    let dd = dot(d, d, n);
    let dg = dot(d, g, n);
    let wg = dot(w, g, n);
    let wd = dot(w, d, n);
    let ww = dot(w, w, n);
    let dw = dot(d, w, n);
    lemma_dot_scaled_left(w, d, g, nd, r, n);
    lemma_dot_scaled_left(w, d, d, nd, r, n);
    lemma_dot_scaled_left(w, d, w, nd, r, n);
    lemma_dot_symmetric(d, w, n);
    // <w, d> = r nd
    assert(wd == r * nd) by (nonlinear_arith)
        requires
            wd * nd == r * dd,
            dd == nd * nd,
            nd > 0real,
    ;
    // <w, w> = r^2
    assert(ww == r * r) by (nonlinear_arith)
        requires
            ww * nd == r * dw,
            dw == wd,
            wd == r * nd,
            nd > 0real,
    ;
    // <d, g> <= nd r
    lemma_dot_bounded(d, g, n, nd, r);
    // <d - w, w - g> = <d, w> - <w, w> - <d, g> + <w, g>
    let e = diff(d, w);
    let h = diff(w, g);
    lemma_dot_diff(d, w, h, n);
    lemma_dot_symmetric(d, h, n);
    lemma_dot_symmetric(w, h, n);
    lemma_dot_diff(w, g, d, n);
    lemma_dot_diff(w, g, w, n);
    lemma_dot_symmetric(g, d, n);
    lemma_dot_symmetric(g, w, n);
    let t = dot(e, h, n);
    assert(t == (wd - dg) - (ww - wg));
    assert(t * nd == (nd - r) * (r * nd - dg)) by (nonlinear_arith)
        requires
            t == (wd - dg) - (ww - wg),
            wd == r * nd,
            ww == r * r,
            wg * nd == r * dg,
    ;
    assert((nd - r) * (r * nd - dg) >= 0real) by (nonlinear_arith)
        requires
            nd - r > 0real,
            r * nd - dg >= 0real,
    {
        assert(dg <= nd * r);
    }
    assert(t >= 0real) by (nonlinear_arith)
        requires
            t * nd >= 0real,
            nd > 0real,
    ;
}

/// The values of the entries of `x`, each less the value of the entry of the
/// centre; the values themselves where the centre is the origin.
pub open spec fn displacement<T: OptFloat>(
    value: spec_fn(T) -> real,
    x: Seq<T>,
    center: Option<Seq<T>>,
) -> Seq<real> {
    match center {
        Some(c) => Seq::new(x.len(), |i: int| value(x[i]) - value(c[i])),
        None => Seq::new(x.len(), |i: int| value(x[i])),
    }
}

/// In exact arithmetic the distance from the centre has a value that is not
/// negative and whose square is the squared norm of the displacement.
pub proof fn lemma_distance_value<T: OptFloat>(
    value: spec_fn(T) -> real,
    x: Seq<T>,
    center: Option<Seq<T>>,
)
    requires
        exact(value),
        center matches Some(c) ==> c.len() == x.len(),
    ensures
        ({
            let nd = value(distance_from_center(x, center));
            let d = displacement(value, x, center);
            &&& nd >= 0real
            &&& nd * nd == dot(d, d, x.len())
        }),
{
    let n = x.len();
    let d = displacement(value, x, center);
    lemma_dot_self_nonnegative(d, n);
    match center {
        Some(c) => {
            lemma_sq_dist_value(value, x, c, n);
            lemma_sq_dist_is_dot(values(value, x), values(value, c), n);
            let e = diff(values(value, x), values(value, c));
            lemma_dot_of_prefix(e, e, d, d, n);
            assert(value(norm2_squared_diff_spec(x, c)) == dot(d, d, n));
        },
        None => {
            lemma_inner_product_value(value, x, x, n);
            let vx = values(value, x);
            lemma_dot_of_prefix(vx, vx, d, d, n);
            assert(value(norm2_squared_spec(x)) == dot(d, d, n));
        },
    }
}

/// In exact arithmetic the displacement of the projection of a point outside
/// the ball is that of the point, scaled by the radius over its distance.
pub proof fn lemma_ball2_outside_values<T: OptFloat>(
    value: spec_fn(T) -> real,
    x: Seq<T>,
    center: Option<Seq<T>>,
    radius: T,
)
    requires
        exact(value),
        center matches Some(c) ==> c.len() == x.len(),
        gt_spec(radius, T::zero_spec()),
        gt_spec(distance_from_center(x, center), radius),
    ensures
        ({
            let nd = value(distance_from_center(x, center));
            let d = displacement(value, x, center);
            let w = displacement(value, ball2_projection(x, center, radius), center);
            forall|i: int| 0 <= i < x.len() ==> #[trigger] w[i] * nd == value(radius) * d[i]
        }),
{
    let n = x.len();
    let norm = distance_from_center(x, center);
    let nd = value(norm);
    let r = value(radius);
    let d = displacement(value, x, center);
    let y = ball2_projection(x, center, radius);
    let w = displacement(value, y, center);
    assert(r > 0real);
    assert(nd > r);
    match center {
        Some(c) => {
            assert forall|i: int| 0 <= i < n implies #[trigger] w[i] * nd == r * d[i] by {
                let numerator = radius.mul_spec(x[i].sub_spec(c[i]));
                assert(value(x[i].sub_spec(c[i])) == value(x[i]) - value(c[i]));
                assert(value(numerator) == r * (value(x[i]) - value(c[i])));
                assert(value(numerator.div_spec(norm)) * nd == value(numerator));
                assert(value(c[i].add_spec(numerator.div_spec(norm))) == value(c[i]) + value(
                    numerator.div_spec(norm),
                ));
            }
        },
        None => {
            let factor = norm.div_spec(radius);
            let f = value(factor);
            assert(f * r == nd);
            assert(f != 0real) by (nonlinear_arith)
                requires
                    f * r == nd,
                    nd > 0real,
            ;
            assert forall|i: int| 0 <= i < n implies #[trigger] w[i] * nd == r * d[i] by {
                let q = value(x[i].div_spec(factor));
                assert(q * f == value(x[i]));
                assert(q * nd == r * value(x[i])) by (nonlinear_arith)
                    requires
                        q * f == value(x[i]),
                        f * r == nd,
                ;
            }
        },
    }
}

/// In exact arithmetic the projection `px` of `x` on a ball and a point `z`
/// of the ball meet the inequality `<x - px, px - z> >= 0`, in displacements
/// from the centre.
pub proof fn lemma_ball2_obtuse<T: OptFloat>(
    value: spec_fn(T) -> real,
    ball: Ball2<'_, T>,
    x: Seq<T>,
    g: Seq<real>,
)
    requires
        exact(value),
        ball.wf(),
        ball.center_spec() matches Some(c) ==> c.len() == x.len(),
        dot(g, g, x.len()) <= value(ball.radius_spec()) * value(ball.radius_spec()),
    ensures
        dot(
            diff(
                displacement(value, x, ball.center_spec()),
                displacement(value, ball.projection(x), ball.center_spec()),
            ),
            diff(displacement(value, ball.projection(x), ball.center_spec()), g),
            x.len(),
        ) >= 0real,
{
    let center = ball.center_spec();
    let radius = ball.radius_spec();
    let n = x.len();
    let d = displacement(value, x, center);
    let w = displacement(value, ball.projection(x), center);
    if gt_spec(distance_from_center(x, center), radius) {
        lemma_distance_value(value, x, center);
        lemma_ball2_outside_values(value, x, center, radius);
        let nd = value(distance_from_center(x, center));
        assert(value(radius) > 0real);
        lemma_ball_obtuse_outside(d, w, g, nd, value(radius), n);
    } else {
        assert(ball.projection(x) == x);
        lemma_dot_with_zeros(diff(d, w), diff(w, g), n);
    }
}

/// The projection on a Euclidean ball is nonexpansive: in exact arithmetic
/// the projections of two vectors are no further apart than the vectors.
pub proof fn law_ball2_nonexpansive<T: OptFloat>(
    value: spec_fn(T) -> real,
    ball: Ball2<'_, T>,
    x: Seq<T>,
    y: Seq<T>,
)
    requires
        exact(value),
        ball.wf(),
        x.len() == y.len(),
        ball.center_spec() matches Some(c) ==> c.len() == x.len(),
    ensures
        sq_dist_values(value, ball.projection(x), ball.projection(y)) <= sq_dist_values(
            value,
            x,
            y,
        ),
{
    let center = ball.center_spec();
    let r = value(ball.radius_spec());
    let n = x.len();
    let px = ball.projection(x);
    let py = ball.projection(y);
    assert(px.len() == n && py.len() == n);
    let wx = displacement(value, px, center);
    let wy = displacement(value, py, center);
    let dx = displacement(value, x, center);
    let dy = displacement(value, y, center);
    law_ball2_within_radius(value, ball, x);
    law_ball2_within_radius(value, ball, y);
    lemma_distance_value(value, px, center);
    lemma_distance_value(value, py, center);
    assert(r > 0real);
    let nx = value(distance_from_center(px, center));
    let ny = value(distance_from_center(py, center));
    assert(nx * nx <= r * r) by (nonlinear_arith)
        requires
            0real <= nx <= r,
    ;
    assert(ny * ny <= r * r) by (nonlinear_arith)
        requires
            0real <= ny <= r,
    ;
    lemma_ball2_obtuse(value, ball, x, wy);
    lemma_ball2_obtuse(value, ball, y, wx);
    let vx = values(value, x);
    let vy = values(value, y);
    let vpx = values(value, px);
    let vpy = values(value, py);
    lemma_dot_of_prefix(diff(vx, vpx), diff(vpx, vpy), diff(dx, wx), diff(wx, wy), n);
    lemma_dot_of_prefix(diff(vy, vpy), diff(vpy, vpx), diff(dy, wy), diff(wy, wx), n);
    lemma_nonexpansive(vx, vy, vpx, vpy, n);
}

} // verus!
