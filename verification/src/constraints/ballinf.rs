//! Balls of the infinity norm
use super::Constraint;
use crate::engine::opt_float::{gt_spec, OptFloat};
use crate::exact::{abs_real, clamp_real, exact, lemma_sq_dist_entrywise, sq_dist_values, values};
use vstd::prelude::*;

verus! {

/// An infinity ball defined as `B = {x : ||x||_inf <= r}`, where `||.||_inf`
/// is the infinity norm. The infinity ball centered at a point `xc` is
/// defined as `B = {x : ||x - xc||_inf <= r}`.
#[derive(Copy, Clone)]
pub struct BallInf<'a, T: OptFloat> {
    center: Option<&'a [T]>,
    radius: T,
}

/// One entry of the projection on the ball around the origin.
pub open spec fn ball_inf_entry<T: OptFloat>(xi: T, radius: T) -> T {
    if gt_spec(xi.abs_spec(), radius) {
        xi.signum_spec().mul_spec(radius)
    } else {
        xi
    }
}

/// One entry of the projection on the ball around a centre with entry `ci`.
pub open spec fn ball_inf_entry_centered<T: OptFloat>(xi: T, ci: T, radius: T) -> T {
    if gt_spec(xi.sub_spec(ci).abs_spec(), radius) {
        ci.add_spec(xi.sub_spec(ci).signum_spec().mul_spec(radius))
    } else {
        xi
    }
}

/// No entry of `x` is further than the radius from the entry of the centre,
/// as far as the centre has entries.
pub open spec fn within_ball_inf<T: OptFloat>(
    x: Seq<T>,
    center: Option<Seq<T>>,
    radius: T,
) -> bool {
    match center {
        Some(c) => forall|i: int|
            0 <= i < x.len() && i < c.len() ==> !gt_spec(
                (#[trigger] x[i]).sub_spec(c[i]).abs_spec(),
                radius,
            ),
        None => forall|i: int| 0 <= i < x.len() ==> !gt_spec((#[trigger] x[i]).abs_spec(), radius),
    }
}

/// The projection on the infinity ball; entries for which the centre has no
/// entry stay as they are.
pub open spec fn ball_inf_projection<T: OptFloat>(
    x: Seq<T>,
    center: Option<Seq<T>>,
    radius: T,
) -> Seq<T> {
    match center {
        Some(c) => Seq::new(
            x.len(),
            |i: int|
                if i < c.len() {
                    ball_inf_entry_centered(x[i], c[i], radius)
                } else {
                    x[i]
                },
        ),
        None => Seq::new(x.len(), |i: int| ball_inf_entry(x[i], radius)),
    }
}

impl<'a, T: OptFloat> BallInf<'a, T> {
    /// The centre; `None` stands for the origin.
    pub closed spec fn center_spec(&self) -> Option<Seq<T>> {
        match self.center {
            Some(c) => Some(c@),
            None => None,
        }
    }

    /// The radius.
    pub closed spec fn radius_spec(&self) -> T {
        self.radius
    }

    /// The radius is positive.
    pub open spec fn wf(&self) -> bool {
        gt_spec(self.radius_spec(), T::zero_spec())
    }

    /// Construct a new infinity-norm ball with given center and radius
    /// If no `center` is given, then it is assumed to be in the origin
    pub fn new(center: Option<&'a [T]>, radius: T) -> (ball: Self)
        requires
            gt_spec(radius, T::zero_spec()),
        ensures
            ball.wf(),
            ball.radius_spec() == radius,
            ball.center_spec() == (match center {
                Some(c) => Some(c@),
                None => None,
            }),
    {
        BallInf { center, radius }
    }
}

impl<'a, T: OptFloat> Constraint<T> for BallInf<'a, T> {
    open spec fn admits_dimension(&self, n: nat) -> bool {
        true
    }

    open spec fn contains(&self, x: Seq<T>) -> bool {
        within_ball_inf(x, self.center_spec(), self.radius_spec())
    }

    open spec fn projection(&self, x: Seq<T>) -> Seq<T> {
        ball_inf_projection(x, self.center_spec(), self.radius_spec())
    }

    open spec fn convex(&self) -> bool {
        true
    }

    /// Computes the projection of a given vector `x` on the current infinity
    /// ball.
    ///
    /// The projection of a `v` on the ball of radius `r` around the origin is
    /// `z` with `z_i = v_i` if `|v_i| <= r`, and `z_i = sgn(v_i) r` otherwise.
    /// Around a centre `xc`, `z_i = v_i` if `|v_i - xc_i| <= r`, and
    /// `z_i = xc_i + sgn(v_i - xc_i) r` otherwise.
    fn project(&self, x: &mut [T]) {
        if let Some(center) = self.center {
            let n = if x.len() <= center.len() {
                x.len()
            } else {
                center.len()
            };
            let mut i: usize = 0;
            while i < n
                invariant
                    i <= n,
                    n <= center@.len(),
                    n <= x@.len(),
                    x@.len() == old(x)@.len(),
                    forall|j: int|
                        0 <= j < i ==> x@[j] == ball_inf_entry_centered(
                            old(x)@[j],
                            center@[j],
                            self.radius_spec(),
                        ),
                    forall|j: int| i <= j < x@.len() ==> x@[j] == old(x)@[j],
                decreases n - i,
            {
                let xi = x[i];
                let ci = center[i];
                if xi.sub(ci).abs().gt(self.radius) {
                    x[i] = ci.add(xi.sub(ci).signum().mul(self.radius));
                }
                i += 1;
            }
            assert(x@ =~= ball_inf_projection(old(x)@, Some(center@), self.radius_spec()));
        } else {
            let n = x.len();
            let mut i: usize = 0;
            while i < n
                invariant
                    i <= n,
                    n == x@.len(),
                    x@.len() == old(x)@.len(),
                    forall|j: int|
                        0 <= j < i ==> x@[j] == ball_inf_entry(old(x)@[j], self.radius_spec()),
                    forall|j: int| i <= j < x@.len() ==> x@[j] == old(x)@[j],
                decreases n - i,
            {
                let xi = x[i];
                if xi.abs().gt(self.radius) {
                    x[i] = xi.signum().mul(self.radius);
                }
                i += 1;
            }
            assert(x@ =~= ball_inf_projection(old(x)@, None, self.radius_spec()));
        }
    }

    fn is_convex(&self) -> bool {
        true
    }
}

/// In exact arithmetic an entry of the projection on the ball around the
/// origin is the entry of `x`, clamped to `[-radius, radius]`.
pub proof fn lemma_ball_inf_entry_clamps<T: OptFloat>(value: spec_fn(T) -> real, xi: T, radius: T)
    requires
        exact(value),
        gt_spec(radius, T::zero_spec()),
    ensures
        value(ball_inf_entry(xi, radius)) == clamp_real(value(xi), -value(radius), value(radius)),
{
    assert(value(radius) > 0real);
    assert(value(xi.abs_spec()) == abs_real(value(xi)));
    if gt_spec(xi.abs_spec(), radius) {
        let s = xi.signum_spec();
        assert(value(s.mul_spec(radius)) == value(s) * value(radius));
        if value(xi) > 0real {
            assert(value(s) == 1real);
        } else {
            assert(value(xi) < 0real);
            assert(value(s) == -1real);
        }
    }
}

/// In exact arithmetic an entry of the projection on the ball around a
/// centre with entry `ci` is the entry of `x`, clamped to
/// `[ci - radius, ci + radius]`.
pub proof fn lemma_ball_inf_entry_centered_clamps<T: OptFloat>(
    value: spec_fn(T) -> real,
    xi: T,
    ci: T,
    radius: T,
)
    requires
        exact(value),
        gt_spec(radius, T::zero_spec()),
    ensures
        value(ball_inf_entry_centered(xi, ci, radius)) == clamp_real(
            value(xi),
            value(ci) - value(radius),
            value(ci) + value(radius),
        ),
{
    assert(value(radius) > 0real);
    let d = xi.sub_spec(ci);
    assert(value(d) == value(xi) - value(ci));
    assert(value(d.abs_spec()) == abs_real(value(d)));
    if gt_spec(d.abs_spec(), radius) {
        let s = d.signum_spec();
        assert(value(s.mul_spec(radius)) == value(s) * value(radius));
        assert(value(ci.add_spec(s.mul_spec(radius))) == value(ci) + value(s.mul_spec(radius)));
        if value(d) > 0real {
            assert(value(s) == 1real);
            assert(value(s) * value(radius) == value(radius)) by (nonlinear_arith)
                requires
                    value(s) == 1real,
            ;
        } else {
            assert(value(d) < 0real);
            assert(value(s) == -1real);
            assert(value(s) * value(radius) == -value(radius)) by (nonlinear_arith)
                requires
                    value(s) == -1real,
            ;
        }
    } else {
        assert(!(value(d.abs_spec()) > value(radius)));
    }
}

/// The value of the entry `i` of the centre of the ball; zero where the
/// ball is around the origin.
pub open spec fn center_value<T: OptFloat>(
    value: spec_fn(T) -> real,
    center: Option<Seq<T>>,
    i: int,
) -> real {
    match center {
        Some(c) => value(c[i]),
        None => 0real,
    }
}

/// In exact arithmetic an entry of the projection, for which the centre has
/// an entry, is the entry of `x` clamped to the radius around the entry of
/// the centre.
pub proof fn lemma_ball_inf_projection_clamps<T: OptFloat>(
    value: spec_fn(T) -> real,
    ball: BallInf<'_, T>,
    x: Seq<T>,
    i: int,
)
    requires
        exact(value),
        ball.wf(),
        0 <= i < x.len(),
        ball.center_spec() matches Some(c) ==> i < c.len(),
    ensures
        value(ball.projection(x)[i]) == clamp_real(
            value(x[i]),
            center_value(value, ball.center_spec(), i) - value(ball.radius_spec()),
            center_value(value, ball.center_spec(), i) + value(ball.radius_spec()),
        ),
{
    match ball.center_spec() {
        Some(c) => {
            lemma_ball_inf_entry_centered_clamps(value, x[i], c[i], ball.radius_spec());
        },
        None => {
            lemma_ball_inf_entry_clamps(value, x[i], ball.radius_spec());
        },
    }
}

/// The projection on an infinity ball lies in the ball: in exact arithmetic
/// no entry of it is further than the radius from the entry of the centre.
pub proof fn law_ball_inf_within_radius<T: OptFloat>(
    value: spec_fn(T) -> real,
    ball: BallInf<'_, T>,
    x: Seq<T>,
    i: int,
)
    requires
        exact(value),
        ball.wf(),
        0 <= i < x.len(),
        ball.center_spec() matches Some(c) ==> i < c.len(),
    ensures
        abs_real(value(ball.projection(x)[i]) - center_value(value, ball.center_spec(), i))
            <= value(ball.radius_spec()),
{
    lemma_ball_inf_projection_clamps(value, ball, x, i);
    assert(value(ball.radius_spec()) > 0real);
}

/// The projection on an infinity ball is idempotent: in exact arithmetic
/// the projection of a projection is that projection.
pub proof fn law_ball_inf_idempotent<T: OptFloat>(
    value: spec_fn(T) -> real,
    ball: BallInf<'_, T>,
    x: Seq<T>,
)
    requires
        exact(value),
        ball.wf(),
    ensures
        ball.projection(ball.projection(x)) == ball.projection(x),
{
    let y = ball.projection(x);
    let z = ball.projection(y);
    let radius = ball.radius_spec();
    assert(value(radius) > 0real);
    assert forall|i: int| 0 <= i < y.len() implies z[i] == y[i] by {
        match ball.center_spec() {
            Some(c) => {
                if i < c.len() {
                    law_ball_inf_within_radius(value, ball, x, i);
                    let d = y[i].sub_spec(c[i]);
                    assert(value(d) == value(y[i]) - value(c[i]));
                    assert(value(d.abs_spec()) == abs_real(value(d)));
                    assert(!gt_spec(d.abs_spec(), radius));
                }
            },
            None => {
                law_ball_inf_within_radius(value, ball, x, i);
                assert(value(y[i].abs_spec()) == abs_real(value(y[i])));
                assert(!gt_spec(y[i].abs_spec(), radius));
            },
        }
    }
    assert(z =~= y);
}

/// The projection on an infinity ball is nonexpansive: in exact arithmetic
/// the projections of two vectors are no further apart than the vectors.
pub proof fn law_ball_inf_nonexpansive<T: OptFloat>(
    value: spec_fn(T) -> real,
    ball: BallInf<'_, T>,
    x: Seq<T>,
    y: Seq<T>,
)
    requires
        exact(value),
        ball.wf(),
        x.len() == y.len(),
    ensures
        sq_dist_values(value, ball.projection(x), ball.projection(y)) <= sq_dist_values(
            value,
            x,
            y,
        ),
{
    let px = values(value, ball.projection(x));
    let py = values(value, ball.projection(y));
    let vx = values(value, x);
    let vy = values(value, y);
    assert forall|i: int| 0 <= i < x.len() implies abs_real(#[trigger] px[i] - py[i]) <= abs_real(
        vx[i] - vy[i],
    ) by {
        if ball.center_spec() is Some && i >= ball.center_spec()->0.len() {
        } else {
            lemma_ball_inf_projection_clamps(value, ball, x, i);
            lemma_ball_inf_projection_clamps(value, ball, y, i);
            assert(value(ball.radius_spec()) > 0real);
        }
    }
    lemma_sq_dist_entrywise(px, py, vx, vy, x.len());
}

/// The projection on an infinity ball lies in the ball: in exact arithmetic
/// no entry of it is further than the radius from the entry of the centre.
pub proof fn law_ball_inf_projection_in_set<T: OptFloat>(
    value: spec_fn(T) -> real,
    ball: BallInf<'_, T>,
    x: Seq<T>,
)
    requires
        exact(value),
        ball.wf(),
    ensures
        ball.contains(ball.projection(x)),
{
    let y = ball.projection(x);
    let radius = ball.radius_spec();
    assert(value(radius) > 0real);
    match ball.center_spec() {
        Some(c) => {
            assert forall|i: int| 0 <= i < y.len() && i < c.len() implies !gt_spec(
                (#[trigger] y[i]).sub_spec(c[i]).abs_spec(),
                radius,
            ) by {
                lemma_ball_inf_projection_clamps(value, ball, x, i);
                let d = y[i].sub_spec(c[i]);
                assert(value(d) == value(y[i]) - value(c[i]));
                assert(value(d.abs_spec()) == abs_real(value(d)));
            }
        },
        None => {
            assert forall|i: int| 0 <= i < y.len() implies !gt_spec(
                (#[trigger] y[i]).abs_spec(),
                radius,
            ) by {
                lemma_ball_inf_projection_clamps(value, ball, x, i);
                assert(value(y[i].abs_spec()) == abs_real(value(y[i])));
            }
        },
    }
}

/// The projection on an infinity ball is a nearest point of the ball: in
/// exact arithmetic it is no further from `x` than any point of the ball.
pub proof fn law_ball_inf_nearest_point<T: OptFloat>(
    value: spec_fn(T) -> real,
    ball: BallInf<'_, T>,
    x: Seq<T>,
    z: Seq<T>,
)
    requires
        exact(value),
        ball.wf(),
        z.len() == x.len(),
        ball.contains(z),
    ensures
        sq_dist_values(value, x, ball.projection(x)) <= sq_dist_values(value, x, z),
{
    let radius = ball.radius_spec();
    let vx = values(value, x);
    let vp = values(value, ball.projection(x));
    let vz = values(value, z);
    assert(value(radius) > 0real);
    assert forall|i: int| 0 <= i < x.len() implies abs_real(#[trigger] vx[i] - vp[i]) <= abs_real(
        vx[i] - vz[i],
    ) by {
        match ball.center_spec() {
            Some(c) => {
                if i < c.len() {
                    lemma_ball_inf_projection_clamps(value, ball, x, i);
                    let d = z[i].sub_spec(c[i]);
                    assert(!gt_spec(d.abs_spec(), radius));
                    assert(value(d) == value(z[i]) - value(c[i]));
                    assert(value(d.abs_spec()) == abs_real(value(d)));
                }
            },
            None => {
                lemma_ball_inf_projection_clamps(value, ball, x, i);
                assert(!gt_spec(z[i].abs_spec(), radius));
                assert(value(z[i].abs_spec()) == abs_real(value(z[i])));
            },
        }
    }
    lemma_sq_dist_entrywise(vx, vp, vx, vz, x.len());
}

} // verus!
