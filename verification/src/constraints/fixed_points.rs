//! The points that a projection leaves where they are
//!
//! These properties need no exact arithmetic: they hold for every scalar type
//! whose comparisons and signs behave as those of floating-point numbers do.
use super::ball1::Ball1;
use super::ball2::Ball2;
use super::ballinf::{ball_inf_entry, BallInf};
use super::Constraint;
use crate::engine::opt_float::{
    gt_spec, le_excludes_gt, lt_is_irreflexive, signs_keep_magnitude, OptFloat,
};
use vstd::prelude::*;

verus! {

/// The projection on a Euclidean ball leaves the points of the ball where
/// they are, for scalars of which one that is at most another is not greater
/// than it.
pub proof fn law_ball2_fixes_its_points<T: OptFloat>(ball: Ball2<'_, T>, x: Seq<T>)
    requires
        le_excludes_gt::<T>(),
        ball.contains(x),
    ensures
        ball.projection(x) == x,
{
}

/// The projection on a ball of the 1-norm around the origin leaves the
/// points of the ball where they are, for scalars of which one that is at
/// most another is not greater than it.
pub proof fn law_ball1_fixes_its_points<T: OptFloat>(ball: Ball1<'_, T>, x: Seq<T>)
    requires
        le_excludes_gt::<T>(),
        ball.center_spec() is None,
        ball.contains(x),
    ensures
        ball.projection(x) == x,
{
}

/// The projection on an infinity ball around the origin is idempotent, for
/// scalars none of which is less than itself and whose signs keep the
/// magnitude: the projection of a projection is that projection.
pub proof fn law_ball_inf_idempotent_at_origin<T: OptFloat>(ball: BallInf<'_, T>, x: Seq<T>)
    requires
        lt_is_irreflexive::<T>(),
        signs_keep_magnitude::<T>(),
        ball.wf(),
        ball.center_spec() is None,
    ensures
        ball.projection(ball.projection(x)) == ball.projection(x),
{
    let radius = ball.radius_spec();
    let y = ball.projection(x);
    let z = ball.projection(y);
    assert forall|i: int| 0 <= i < y.len() implies z[i] == y[i] by {
        assert(y[i] == ball_inf_entry(x[i], radius));
        assert(z[i] == ball_inf_entry(y[i], radius));
        assert(!radius.lt_spec(radius));
        if gt_spec(x[i].abs_spec(), radius) {
            assert(x[i].signum_spec().mul_spec(radius).abs_spec() == radius);
        }
    }
    assert(z =~= y);
}

} // verus!
