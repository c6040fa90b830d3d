//! Closed sets and the projections onto them
use crate::engine::opt_float::OptFloat;
use vstd::prelude::*;

pub mod ball1;
pub mod ball2;
pub mod ball2_nearest;
pub mod ballinf;
pub mod fixed_points;
pub mod hyperplane;
pub mod no_constraints;
pub mod rectangle;
pub mod simplex;
pub mod simplex_proof;
pub mod soc;
pub mod sphere2;
pub mod zero;

pub use ball1::Ball1;
pub use ball2::Ball2;
pub use ballinf::BallInf;
pub use hyperplane::Hyperplane;
pub use no_constraints::NoConstraints;
pub use rectangle::Rectangle;
pub use simplex::Simplex;
pub use soc::SecondOrderCone;
pub use sphere2::Sphere2;
pub use zero::Zero;

verus! {

/// A set which can be used as a constraint
///
/// This trait defines an abstract function that allows to compute projections
/// on sets; this is implemented by a series of structures (see below for
/// details)
pub trait Constraint<T: OptFloat> {
    /// The dimensions of the vectors that can be projected on the set.
    spec fn admits_dimension(&self, n: nat) -> bool;

    /// Whether `x` lies in the set, as the operations of `T` decide it.
    spec fn contains(&self, x: Seq<T>) -> bool;

    /// The projection of `x` on the set, as the operations of `T` compute it.
    spec fn projection(&self, x: Seq<T>) -> Seq<T>;

    /// Whether the set is convex.
    spec fn convex(&self) -> bool;

    /// Projection onto the set, that is,
    ///
    /// ```text
    /// proj(x) = argmin over y in C of ||y - x||
    /// ```
    ///
    /// The given vector `x` is updated with the projection on the set.
    fn project(&self, x: &mut [T])
        requires
            self.admits_dimension(old(x)@.len()),
        ensures
            final(x)@.len() == old(x)@.len(),
            final(x)@ == self.projection(old(x)@),
    ;

    /// Returns true if and only if the set is convex
    fn is_convex(&self) -> (b: bool)
        ensures
            b == self.convex(),
    ;
}

} // verus!
