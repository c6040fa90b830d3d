//! The projection on a Euclidean ball as a nearest point
use super::ball2::{
    displacement, distance_from_center, lemma_ball2_obtuse, lemma_distance_value, Ball2,
};
use super::Constraint;
use crate::engine::opt_float::OptFloat;
use crate::exact::{diff, exact, lemma_dot_of_prefix, lemma_nearest, sq_dist_values, values};
use vstd::prelude::*;

verus! {

/// The projection on a Euclidean ball is a nearest point of the ball: in
/// exact arithmetic it is no further from `x` than any point of the ball.
pub proof fn law_ball2_nearest_point<T: OptFloat>(
    value: spec_fn(T) -> real,
    ball: Ball2<'_, T>,
    x: Seq<T>,
    z: Seq<T>,
)
    requires
        exact(value),
        ball.wf(),
        z.len() == x.len(),
        ball.center_spec() matches Some(c) ==> c.len() == x.len(),
        ball.contains(z),
    ensures
        sq_dist_values(value, x, ball.projection(x)) <= sq_dist_values(value, x, z),
{
    let center = ball.center_spec();
    let r = value(ball.radius_spec());
    let n = x.len();
    let px = ball.projection(x);
    assert(px.len() == n);
    let g = displacement(value, z, center);
    lemma_distance_value(value, z, center);
    let nz = value(distance_from_center(z, center));
    assert(r > 0real);
    assert(nz * nz <= r * r) by (nonlinear_arith)
        requires
            0real <= nz <= r,
    ;
    lemma_ball2_obtuse(value, ball, x, g);
    let vx = values(value, x);
    let vpx = values(value, px);
    let vz = values(value, z);
    let dx = displacement(value, x, center);
    let wx = displacement(value, px, center);
    lemma_dot_of_prefix(diff(vx, vpx), diff(vpx, vz), diff(dx, wx), diff(wx, g), n);
    lemma_nearest(vx, vpx, vz, n);
}

} // verus!
