//! Second-order cones
use super::zero::zero_projection;
use super::Constraint;
use crate::engine::opt_float::{gt_spec, OptFloat};
use crate::exact::{
    diff, dot, exact, lemma_dot_bounded, lemma_dot_diff, lemma_dot_of_prefix,
    lemma_dot_scaled_left, lemma_dot_symmetric,
    lemma_dot_of_zeros, lemma_dot_opposite, lemma_dot_scaled, lemma_dot_self_nonnegative,
    lemma_dot_with_zeros, lemma_inner_product_value, lemma_nearest, lemma_nonexpansive,
    lemma_root_of_square,
    sq_dist_values, values,
};
use crate::matrix_operations::{norm2, norm2_spec, norm2_squared_spec};
use vstd::prelude::*;
use vstd::slice::slice_subrange;

verus! {

/// A second-order cone (SOC)
///
/// A set of the form `C = {x = (z, t) : ||z|| <= alpha t}`, where `alpha` is
/// a positive scalar.
///
/// Projections on the second-order cone are computed as in H.H. Bauschke's
/// 1996 doctoral dissertation: Projection Algorithms and Monotone Operators
/// (p. 40, Theorem 3.3.6).
#[derive(Clone, Copy)]
pub struct SecondOrderCone<T: OptFloat> {
    alpha: T,
}

/// The last entry of the projection of a point outside the cone and outside
/// its polar: `(alpha ||z|| + t) / (alpha^2 + 1)`.
pub open spec fn soc_beta<T: OptFloat>(alpha: T, norm_z: T, t: T) -> T {
    alpha.mul_spec(norm_z).add_spec(t).div_spec(alpha.mul_spec(alpha).add_spec(T::one_spec()))
}

/// The point `(z alpha beta / ||z||, beta)` for `x = (z, t)`.
pub open spec fn soc_scaled<T: OptFloat>(x: Seq<T>, alpha: T, beta: T, norm_z: T) -> Seq<T> {
    Seq::new(
        x.len(),
        |i: int|
            if i < x.len() - 1 {
                x[i].mul_spec(alpha).mul_spec(beta).div_spec(norm_z)
            } else {
                beta
            },
    )
}

/// The projection of `x = (z, t)` on the cone of parameter `alpha`: the
/// origin if `alpha ||z|| <= -t`, the scaled point if `||z|| > alpha t`, and
/// `x` itself otherwise.
pub open spec fn soc_projection<T: OptFloat>(x: Seq<T>, alpha: T) -> Seq<T> {
    let t = x[x.len() - 1];
    let norm_z = norm2_spec(x.subrange(0, x.len() - 1));
    if alpha.mul_spec(norm_z).le_spec(t.neg_spec()) {
        zero_projection(x)
    } else if gt_spec(norm_z, alpha.mul_spec(t)) {
        soc_scaled(x, alpha, soc_beta(alpha, norm_z, t), norm_z)
    } else {
        x
    }
}

impl<T: OptFloat> SecondOrderCone<T> {
    /// The parameter `alpha`.
    pub closed spec fn alpha_spec(&self) -> T {
        self.alpha
    }

    /// The parameter is positive.
    pub open spec fn wf(&self) -> bool {
        gt_spec(self.alpha_spec(), T::zero_spec())
    }

    /// Construct a new instance of SecondOrderCone with parameter `alpha`
    ///
    /// A second-order cone with parameter alpha is the set
    /// `C = {x = (y, t) : ||y|| <= alpha t}`, where `alpha` is a positive
    /// parameter.
    pub fn new(alpha: T) -> (cone: SecondOrderCone<T>)
        requires
            gt_spec(alpha, T::zero_spec()),
        ensures
            cone.wf(),
            cone.alpha_spec() == alpha,
    {
        SecondOrderCone { alpha }
    }
}

impl<T: OptFloat> Constraint<T> for SecondOrderCone<T> {
    /// A vector with at least two entries.
    open spec fn admits_dimension(&self, n: nat) -> bool {
        n >= 2
    }

    open spec fn contains(&self, x: Seq<T>) -> bool {
        x.len() >= 2 && in_cone(x, self.alpha_spec())
    }

    open spec fn projection(&self, x: Seq<T>) -> Seq<T> {
        soc_projection(x, self.alpha_spec())
    }

    open spec fn convex(&self) -> bool {
        true
    }

    /// Project on the second-order cone (updates the given vector/slice)
    fn project(&self, x: &mut [T]) {
        // x = (z, r)
        let n = x.len();
        let r = x[n - 1];
        let norm_z = norm2(slice_subrange(x, 0, n - 1));
        if self.alpha.mul(norm_z).le(r.neg()) {
            let mut i: usize = 0;
            while i < n
                invariant
                    i <= n,
                    n == x@.len(),
                    n == old(x)@.len(),
                    forall|j: int| 0 <= j < i ==> x@[j] == T::zero_spec(),
                decreases n - i,
            {
                x[i] = T::zero();
                i += 1;
            }
            assert(x@ =~= zero_projection(old(x)@));
        } else if norm_z.gt(self.alpha.mul(r)) {
            let beta = self.alpha.mul(norm_z).add(r).div(self.alpha.mul(self.alpha).add(T::one()));
            let mut i: usize = 0;
            while i < n - 1
                invariant
                    i <= n - 1,
                    n >= 2,
                    n == x@.len(),
                    n == old(x)@.len(),
                    forall|j: int|
                        0 <= j < i ==> x@[j] == old(x)@[j].mul_spec(self.alpha_spec()).mul_spec(
                            beta,
                        ).div_spec(norm_z),
                    forall|j: int| i <= j < n ==> x@[j] == old(x)@[j],
                decreases n - 1 - i,
            {
                x[i] = x[i].mul(self.alpha).mul(beta).div(norm_z);
                i += 1;
            }
            x[n - 1] = beta;
            assert(x@ =~= soc_scaled(old(x)@, self.alpha_spec(), beta, norm_z));
        }
    }

    fn is_convex(&self) -> bool {
        true
    }
}

/// The vector `y = (z, t)` lies in the cone of parameter `alpha`:
/// `||z|| <= alpha t`.
pub open spec fn in_cone<T: OptFloat>(y: Seq<T>, alpha: T) -> bool {
    norm2_spec(y.subrange(0, y.len() - 1)).le_spec(alpha.mul_spec(y[y.len() - 1]))
}

/// In exact arithmetic the norm of the first entries of a vector has a value
/// that is not negative and whose square is the sum of the squares of their
/// values.
pub proof fn lemma_norm_of_head<T: OptFloat>(value: spec_fn(T) -> real, x: Seq<T>)
    requires
        exact(value),
        x.len() >= 1,
    ensures
        ({
            let norm = value(norm2_spec(x.subrange(0, x.len() - 1)));
            let vx = values(value, x);
            &&& norm >= 0real
            &&& norm * norm == dot(vx, vx, (x.len() - 1) as nat)
        }),
{
    let m = (x.len() - 1) as nat;
    let head = x.subrange(0, m as int);
    let vh = values(value, head);
    let vx = values(value, x);
    lemma_inner_product_value(value, head, head, m);
    lemma_dot_self_nonnegative(vh, m);
    lemma_dot_of_prefix(vh, vh, vx, vx, m);
    assert(value(norm2_squared_spec(head)) == dot(vx, vx, m));
}

/// In exact arithmetic the scaled point `(z alpha beta / ||z||, beta)`, for a
/// positive `beta` and a `z` other than zero, lies on the boundary of the
/// cone: the norm of its first entries is `alpha beta`.
pub proof fn lemma_soc_scaled_on_boundary<T: OptFloat>(
    value: spec_fn(T) -> real,
    x: Seq<T>,
    alpha: T,
    beta: T,
)
    requires
        exact(value),
        x.len() >= 2,
        value(alpha) > 0real,
        value(beta) > 0real,
        value(norm2_spec(x.subrange(0, x.len() - 1))) > 0real,
    ensures
        ({
            let y = soc_scaled(x, alpha, beta, norm2_spec(x.subrange(0, x.len() - 1)));
            value(norm2_spec(y.subrange(0, y.len() - 1))) == value(alpha) * value(beta)
        }),
{
    let m = (x.len() - 1) as nat;
    let norm_z = norm2_spec(x.subrange(0, m as int));
    let y = soc_scaled(x, alpha, beta, norm_z);
    let vx = values(value, x);
    let vy = values(value, y);
    let a = value(alpha);
    let b = value(beta);
    let nz = value(norm_z);
    lemma_norm_of_head(value, x);
    lemma_norm_of_head(value, y);
    assert forall|i: int| 0 <= i < m implies #[trigger] vy[i] * nz == (a * b) * vx[i] by {
        let numerator = x[i].mul_spec(alpha).mul_spec(beta);
        assert(value(x[i].mul_spec(alpha)) == vx[i] * a);
        assert(value(numerator) == (vx[i] * a) * b);
        assert(value(numerator.div_spec(norm_z)) * nz == value(numerator));
        assert((vx[i] * a) * b == (a * b) * vx[i]) by (nonlinear_arith);
    }
    lemma_dot_scaled(vy, vx, nz, a * b, m);
    let s = dot(vx, vx, m);
    let t = dot(vy, vy, m);
    assert(t == (a * b) * (a * b)) by (nonlinear_arith)
        requires
            t * (nz * nz) == ((a * b) * (a * b)) * s,
            nz * nz == s,
            nz > 0real,
    ;
    assert(a * b >= 0real) by (nonlinear_arith)
        requires
            a > 0real,
            b > 0real,
    ;
    lemma_root_of_square(value(norm2_spec(y.subrange(0, y.len() - 1))), a * b);
}

/// What exact arithmetic gives for the three cases of the projection of
/// `x = (z, t)`: in the first the projection is zero; in the second `z` is
/// not zero, `beta` is positive and the projection lies on the boundary of
/// the cone; in the third `x` lies in the cone.
pub proof fn lemma_soc_cases<T: OptFloat>(value: spec_fn(T) -> real, x: Seq<T>, alpha: T)
    requires
        exact(value),
        x.len() >= 2,
        gt_spec(alpha, T::zero_spec()),
    ensures
        ({
            let t = x[x.len() - 1];
            let norm_z = norm2_spec(x.subrange(0, x.len() - 1));
            let beta = soc_beta(alpha, norm_z, t);
            let y = soc_projection(x, alpha);
            &&& y.len() == x.len()
            &&& value(alpha) > 0real
            &&& value(norm_z) >= 0real
            &&& alpha.mul_spec(norm_z).le_spec(t.neg_spec()) <==> value(alpha) * value(norm_z)
                <= -value(t)
            &&& gt_spec(norm_z, alpha.mul_spec(t)) <==> value(norm_z) > value(alpha) * value(t)
            &&& !alpha.mul_spec(norm_z).le_spec(t.neg_spec()) && gt_spec(
                norm_z,
                alpha.mul_spec(t),
            ) ==> {
                &&& value(norm_z) > 0real
                &&& value(beta) > 0real
                &&& y[y.len() - 1] == beta
                &&& value(norm2_spec(y.subrange(0, y.len() - 1))) == value(alpha) * value(beta)
            }
        }),
{
    let t = x[x.len() - 1];
    let norm_z = norm2_spec(x.subrange(0, x.len() - 1));
    let beta = soc_beta(alpha, norm_z, t);
    let a = value(alpha);
    let nz = value(norm_z);
    let vt = value(t);
    lemma_norm_of_head(value, x);
    assert(a > 0real);
    assert(value(alpha.mul_spec(norm_z)) == a * nz);
    assert(value(t.neg_spec()) == -vt);
    assert(value(alpha.mul_spec(t)) == a * vt);
    if !alpha.mul_spec(norm_z).le_spec(t.neg_spec()) && gt_spec(norm_z, alpha.mul_spec(t)) {
        assert(a * nz > -vt);
        assert(nz > a * vt);
        assert(nz > 0real) by (nonlinear_arith)
            requires
                nz >= 0real,
                a > 0real,
                a * nz > -vt,
                nz > a * vt,
        ;
        let numerator = alpha.mul_spec(norm_z).add_spec(t);
        let denominator = alpha.mul_spec(alpha).add_spec(T::one_spec());
        assert(value(numerator) == a * nz + vt);
        assert(value(alpha.mul_spec(alpha)) == a * a);
        assert(value(denominator) == a * a + 1real);
        assert(a * a + 1real > 0real) by (nonlinear_arith);
        assert(value(beta) * value(denominator) == value(numerator));
        assert(value(beta) > 0real) by (nonlinear_arith)
            requires
                value(beta) * (a * a + 1real) == a * nz + vt,
                a * a + 1real > 0real,
                a * nz + vt > 0real,
        ;
        lemma_soc_scaled_on_boundary(value, x, alpha, beta);
    }
}

/// The projection on a second-order cone lies in the cone: in exact
/// arithmetic the norm of its first entries does not exceed `alpha` times its
/// last entry.
pub proof fn law_soc_within_cone<T: OptFloat>(
    value: spec_fn(T) -> real,
    cone: SecondOrderCone<T>,
    x: Seq<T>,
)
    requires
        exact(value),
        cone.wf(),
        x.len() >= 2,
    ensures
        cone.contains(cone.projection(x)),
{
    let alpha = cone.alpha_spec();
    let t = x[x.len() - 1];
    let norm_z = norm2_spec(x.subrange(0, x.len() - 1));
    let y = soc_projection(x, alpha);
    lemma_soc_cases(value, x, alpha);
    if alpha.mul_spec(norm_z).le_spec(t.neg_spec()) {
        let m = (y.len() - 1) as nat;
        let vy = values(value, y);
        lemma_norm_of_head(value, y);
        lemma_dot_of_zeros(vy, m);
        let norm = value(norm2_spec(y.subrange(0, y.len() - 1)));
        lemma_root_of_square(norm, 0real);
        assert(value(alpha.mul_spec(y[y.len() - 1])) == value(alpha) * value(y[y.len() - 1]));
        assert(value(alpha) * 0real == 0real) by (nonlinear_arith);
    } else if gt_spec(norm_z, alpha.mul_spec(t)) {
        assert(value(alpha.mul_spec(y[y.len() - 1])) == value(alpha) * value(y[y.len() - 1]));
    } else {
        assert(value(alpha.mul_spec(t)) == value(alpha) * value(t));
    }
}

/// The projection on a second-order cone is idempotent: in exact arithmetic
/// the projection of a projection is that projection.
pub proof fn law_soc_idempotent<T: OptFloat>(
    value: spec_fn(T) -> real,
    cone: SecondOrderCone<T>,
    x: Seq<T>,
)
    requires
        exact(value),
        cone.wf(),
        x.len() >= 2,
    ensures
        cone.projection(cone.projection(x)) == cone.projection(x),
{
    let alpha = cone.alpha_spec();
    let t = x[x.len() - 1];
    let norm_z = norm2_spec(x.subrange(0, x.len() - 1));
    let y = soc_projection(x, alpha);
    let a = value(alpha);
    lemma_soc_cases(value, x, alpha);
    lemma_soc_cases(value, y, alpha);
    let ty = y[y.len() - 1];
    let norm_y = norm2_spec(y.subrange(0, y.len() - 1));
    if alpha.mul_spec(norm_z).le_spec(t.neg_spec()) {
        let m = (y.len() - 1) as nat;
        let vy = values(value, y);
        lemma_norm_of_head(value, y);
        lemma_dot_of_zeros(vy, m);
        assert(value(norm_y) * value(norm_y) == 0real * 0real);
        lemma_root_of_square(value(norm_y), 0real);
        assert(a * 0real == 0real) by (nonlinear_arith);
        assert(alpha.mul_spec(norm_y).le_spec(ty.neg_spec()));
        assert(zero_projection(y) =~= y);
    } else if gt_spec(norm_z, alpha.mul_spec(t)) {
        let b = value(ty);
        assert(value(norm_y) == a * b);
        assert(a * (a * b) > -b) by (nonlinear_arith)
            requires
                a > 0real,
                b > 0real,
        ;
        assert(!alpha.mul_spec(norm_y).le_spec(ty.neg_spec()));
        assert(!gt_spec(norm_y, alpha.mul_spec(ty)));
    } else {
    }
}

/// The inequality of the projection on a second-order cone for a point that
/// is projected to the origin: for `x = (z, t)` with `alpha ||z|| <= -t` and
/// a point `g = (v, s)` of the cone, `<x, g> <= 0`.
pub proof fn lemma_cone_polar(
    x: Seq<real>,
    g: Seq<real>,
    a: real,
    nz: real,
    nv: real,
    m: nat,
)
    requires
        a > 0real,
        nz >= 0real,
        nz * nz == dot(x, x, m),
        a * nz <= -x[m as int],
        nv >= 0real,
        nv * nv == dot(g, g, m),
        nv <= a * g[m as int],
    ensures
        dot(x, g, m + 1) <= 0real,
{
    let t = x[m as int];
    let s = g[m as int];
    let head = dot(x, g, m);
    lemma_dot_bounded(x, g, m, nz, nv);
    assert(s >= 0real) by (nonlinear_arith)
        requires
            0real <= nv <= a * s,
            a > 0real,
    ;
    assert(nz * nv <= nz * (a * s)) by (nonlinear_arith)
        requires
            nv <= a * s,
            nz >= 0real,
    ;
    assert(nz * (a * s) + t * s == s * (a * nz + t)) by (nonlinear_arith);
    assert(s * (a * nz + t) <= 0real) by (nonlinear_arith)
        requires
            s >= 0real,
            a * nz + t <= 0real,
    ;
    assert(dot(x, g, m + 1) == head + t * s);
}

/// The inequality of the projection on a second-order cone for a point
/// `x = (z, t)` that is scaled to the boundary, `y = (z q / ||z||, beta)` with
/// `q = alpha beta`: for a point `g = (v, s)` of the cone,
/// `<x - y, y - g> >= 0`.
pub proof fn lemma_cone_obtuse_scaled(
    x: Seq<real>,
    y: Seq<real>,
    g: Seq<real>,
    a: real,
    beta: real,
    nz: real,
    nv: real,
    m: nat,
)
    requires
        m + 1 <= x.len(),
        m + 1 <= y.len(),
        a > 0real,
        nz > 0real,
        nz * nz == dot(x, x, m),
        nz > a * x[m as int],
        beta * (a * a + 1real) == a * nz + x[m as int],
        y[m as int] == beta,
        forall|i: int| 0 <= i < m ==> #[trigger] y[i] * nz == (a * beta) * x[i],
        nv >= 0real,
        nv * nv == dot(g, g, m),
        nv <= a * g[m as int],
    ensures
        dot(diff(x, y), diff(y, g), m + 1) >= 0real,
{
    let t = x[m as int];
    let s = g[m as int];
    let q = a * beta;
    let c = nz - q;
    let delta = beta - s;
    let xx = dot(x, x, m);
    let yx = dot(y, x, m);
    let xy = dot(x, y, m);
    let yy = dot(y, y, m);
    let xg = dot(x, g, m);
    let yg = dot(y, g, m);
    // the inner products of the heads
    lemma_dot_scaled_left(y, x, x, nz, q, m);
    lemma_dot_scaled_left(y, x, y, nz, q, m);
    lemma_dot_scaled_left(y, x, g, nz, q, m);
    lemma_dot_symmetric(x, y, m);
    assert(yx == q * nz) by (nonlinear_arith)
        requires
            yx * nz == q * xx,
            xx == nz * nz,
            nz > 0real,
    ;
    assert(yy == q * q) by (nonlinear_arith)
        requires
            yy * nz == q * xy,
            xy == yx,
            yx == q * nz,
            nz > 0real,
    ;
    lemma_dot_bounded(x, g, m, nz, nv);
    assert(nz * nv <= nz * (a * s)) by (nonlinear_arith)
        requires
            nv <= a * s,
            nz >= 0real,
    ;
    assert(xg <= nz * (a * s));
    // q < nz
    let k = a * a + 1real;
    assert(k > 0real) by (nonlinear_arith)
        requires
            k == a * a + 1real,
    ;
    assert(q * k == a * (a * nz) + a * t) by (nonlinear_arith)
        requires
            q == a * beta,
            beta * k == a * nz + t,
    ;
    assert(a * t < nz) by (nonlinear_arith)
        requires
            nz > a * t,
    ;
    assert(nz * k == a * (a * nz) + nz) by (nonlinear_arith)
        requires
            k == a * a + 1real,
    ;
    assert(q * k < nz * k);
    assert(q < nz) by (nonlinear_arith)
        requires
            q * k < nz * k,
            k > 0real,
    ;
    assert(c > 0real);
    // the inner product of the heads of x - y and y - g
    let e = diff(x, y);
    let h = diff(y, g);
    lemma_dot_diff(x, y, h, m);
    lemma_dot_symmetric(x, h, m);
    lemma_dot_symmetric(y, h, m);
    lemma_dot_diff(y, g, x, m);
    lemma_dot_diff(y, g, y, m);
    lemma_dot_symmetric(g, x, m);
    lemma_dot_symmetric(g, y, m);
    let head = dot(e, h, m);
    assert(head == (yx - xg) - (yy - yg));
    let last = (t - beta) * delta;
    assert(dot(e, h, m + 1) == head + last);
    // head nz = c (q nz - <x, g>)
    let u = q * nz - xg;
    assert(head * nz == c * u) by (nonlinear_arith)
        requires
            head == (yx - xg) - (yy - yg),
            yx == q * nz,
            yy == q * q,
            yg * nz == q * xg,
            c == nz - q,
            u == q * nz - xg,
    ;
    // q nz - <x, g> >= nz a delta
    let span = nz * delta;
    assert(u >= a * span) by (nonlinear_arith)
        requires
            u == q * nz - xg,
            xg <= nz * (a * s),
            q == a * beta,
            delta == beta - s,
            span == nz * delta,
    ;
    let slope = c * a;
    assert(c * u >= slope * span) by (nonlinear_arith)
        requires
            u >= a * span,
            c > 0real,
            slope == c * a,
    ;
    // c a + t - beta = 0
    let kappa = slope + t - beta;
    assert(kappa == 0real) by (nonlinear_arith)
        requires
            kappa == slope + t - beta,
            slope == c * a,
            c == nz - q,
            q == a * beta,
            beta * (a * a + 1real) == a * nz + t,
    ;
    assert(last * nz == (t - beta) * span) by (nonlinear_arith)
        requires
            last == (t - beta) * delta,
            span == nz * delta,
    ;
    assert(slope * span + (t - beta) * span == kappa * span) by (nonlinear_arith)
        requires
            kappa == slope + t - beta,
    ;
    assert(kappa * span == 0real) by (nonlinear_arith)
        requires
            kappa == 0real,
    ;
    let total = head + last;
    assert(total * nz == head * nz + last * nz) by (nonlinear_arith)
        requires
            total == head + last,
    ;
    assert(total * nz >= 0real);
    assert(total >= 0real) by (nonlinear_arith)
        requires
            total * nz >= 0real,
            nz > 0real,
    ;
}

/// In exact arithmetic the values of the scaled point
/// `(z alpha beta / ||z||, beta)`, for a `z` other than zero: its first entries
/// times `||z||` are those of `z` times `alpha beta`, its last entry is
/// `beta`, and `beta (alpha^2 + 1) = alpha ||z|| + t`.
pub proof fn lemma_soc_scaled_values<T: OptFloat>(value: spec_fn(T) -> real, x: Seq<T>, alpha: T)
    requires
        exact(value),
        x.len() >= 2,
        value(norm2_spec(x.subrange(0, x.len() - 1))) > 0real,
    ensures
        ({
            let t = x[x.len() - 1];
            let norm_z = norm2_spec(x.subrange(0, x.len() - 1));
            let beta = soc_beta(alpha, norm_z, t);
            let y = soc_scaled(x, alpha, beta, norm_z);
            let a = value(alpha);
            &&& value(beta) * (a * a + 1real) == a * value(norm_z) + value(t)
            &&& value(y[x.len() - 1]) == value(beta)
            &&& forall|i: int|
                0 <= i < x.len() - 1 ==> #[trigger] values(value, y)[i] * value(norm_z) == (a
                    * value(beta)) * values(value, x)[i]
        }),
{
    let m = (x.len() - 1) as nat;
    let t = x[x.len() - 1];
    let norm_z = norm2_spec(x.subrange(0, x.len() - 1));
    let beta = soc_beta(alpha, norm_z, t);
    let y = soc_scaled(x, alpha, beta, norm_z);
    let a = value(alpha);
    let b = value(beta);
    let nz = value(norm_z);
    let vx = values(value, x);
    let vy = values(value, y);
    let numerator = alpha.mul_spec(norm_z).add_spec(t);
    let denominator = alpha.mul_spec(alpha).add_spec(T::one_spec());
    assert(value(alpha.mul_spec(norm_z)) == a * nz);
    assert(value(numerator) == a * nz + value(t));
    assert(value(alpha.mul_spec(alpha)) == a * a);
    assert(value(denominator) == a * a + 1real);
    assert(a * a + 1real > 0real) by (nonlinear_arith);
    assert(b * value(denominator) == value(numerator));
    assert forall|i: int| 0 <= i < m implies #[trigger] vy[i] * nz == (a * b) * vx[i] by {
        let product = x[i].mul_spec(alpha).mul_spec(beta);
        assert(value(x[i].mul_spec(alpha)) == vx[i] * a);
        assert(value(product) == (vx[i] * a) * b);
        assert(value(product.div_spec(norm_z)) * nz == value(product));
        assert((vx[i] * a) * b == (a * b) * vx[i]) by (nonlinear_arith);
    }
}

/// In exact arithmetic the projection `y` of `x` on a second-order cone and
/// a point `g = (v, s)` of the cone, with `||v|| = nv`, meet the inequality
/// `<x - y, y - g> >= 0`.
pub proof fn lemma_soc_obtuse<T: OptFloat>(
    value: spec_fn(T) -> real,
    cone: SecondOrderCone<T>,
    x: Seq<T>,
    g: Seq<real>,
    nv: real,
)
    requires
        exact(value),
        cone.wf(),
        x.len() >= 2,
        g.len() == x.len(),
        nv >= 0real,
        nv * nv == dot(g, g, (x.len() - 1) as nat),
        nv <= value(cone.alpha_spec()) * g[x.len() - 1],
    ensures
        dot(
            diff(values(value, x), values(value, cone.projection(x))),
            diff(values(value, cone.projection(x)), g),
            x.len(),
        ) >= 0real,
{
    let n = x.len();
    let m = (n - 1) as nat;
    let alpha = cone.alpha_spec();
    let a = value(alpha);
    let t = x[n - 1];
    let norm_z = norm2_spec(x.subrange(0, n - 1));
    let nz = value(norm_z);
    let beta = soc_beta(alpha, norm_z, t);
    let y = soc_projection(x, alpha);
    let vx = values(value, x);
    let vy = values(value, y);
    let e = diff(vx, vy);
    let h = diff(vy, g);
    lemma_soc_cases(value, x, alpha);
    lemma_norm_of_head(value, x);
    if alpha.mul_spec(norm_z).le_spec(t.neg_spec()) {
        lemma_cone_polar(vx, g, a, nz, nv, m);
        let opposite = Seq::new(n, |i: int| -g[i]);
        lemma_dot_opposite(vx, g, opposite, n);
        lemma_dot_of_prefix(e, h, vx, opposite, n);
    } else if gt_spec(norm_z, alpha.mul_spec(t)) {
        lemma_soc_scaled_values(value, x, alpha);
        lemma_cone_obtuse_scaled(vx, vy, g, a, value(beta), nz, nv, m);
    } else {
        lemma_dot_with_zeros(e, h, n);
    }
}

/// The projection on a second-order cone is nonexpansive: in exact
/// arithmetic the projections of two vectors are no further apart than the
/// vectors.
pub proof fn law_soc_nonexpansive<T: OptFloat>(
    value: spec_fn(T) -> real,
    cone: SecondOrderCone<T>,
    x: Seq<T>,
    y: Seq<T>,
)
    requires
        exact(value),
        cone.wf(),
        x.len() >= 2,
        x.len() == y.len(),
    ensures
        sq_dist_values(value, cone.projection(x), cone.projection(y)) <= sq_dist_values(
            value,
            x,
            y,
        ),
{
    let n = x.len();
    let alpha = cone.alpha_spec();
    let px = cone.projection(x);
    let py = cone.projection(y);
    lemma_soc_cases(value, x, alpha);
    lemma_soc_cases(value, y, alpha);
    law_soc_within_cone(value, cone, x);
    law_soc_within_cone(value, cone, y);
    lemma_norm_of_head(value, px);
    lemma_norm_of_head(value, py);
    let nx = value(norm2_spec(px.subrange(0, n - 1)));
    let ny = value(norm2_spec(py.subrange(0, n - 1)));
    assert(value(alpha.mul_spec(px[n - 1])) == value(alpha) * value(px[n - 1]));
    assert(value(alpha.mul_spec(py[n - 1])) == value(alpha) * value(py[n - 1]));
    lemma_soc_obtuse(value, cone, x, values(value, py), ny);
    lemma_soc_obtuse(value, cone, y, values(value, px), nx);
    lemma_nonexpansive(
        values(value, x),
        values(value, y),
        values(value, px),
        values(value, py),
        n,
    );
}

/// The projection on a second-order cone is a nearest point of the cone: in
/// exact arithmetic it is no further from `x` than any point of the cone.
pub proof fn law_soc_nearest_point<T: OptFloat>(
    value: spec_fn(T) -> real,
    cone: SecondOrderCone<T>,
    x: Seq<T>,
    z: Seq<T>,
)
    requires
        exact(value),
        cone.wf(),
        x.len() >= 2,
        z.len() == x.len(),
        cone.contains(z),
    ensures
        sq_dist_values(value, x, cone.projection(x)) <= sq_dist_values(value, x, z),
{
    let n = x.len();
    let alpha = cone.alpha_spec();
    lemma_norm_of_head(value, z);
    let nv = value(norm2_spec(z.subrange(0, n - 1)));
    assert(value(alpha.mul_spec(z[n - 1])) == value(alpha) * value(z[n - 1]));
    lemma_soc_obtuse(value, cone, x, values(value, z), nv);
    assert(cone.projection(x).len() == n) by {
        lemma_soc_cases(value, x, alpha);
    }
    lemma_nearest(values(value, x), values(value, cone.projection(x)), values(value, z), n);
}

} // verus!
