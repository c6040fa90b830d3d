//! The whole space
use super::Constraint;
use crate::engine::opt_float::OptFloat;
use crate::exact::{abs_real, lemma_sq_dist_entrywise, sq_dist_values, values};
use vstd::prelude::*;

verus! {

/// The whole space, no constraints
#[derive(Clone, Copy)]
pub struct NoConstraints {}

impl NoConstraints {
    /// Constructs new instance of `NoConstraints`
    pub fn new() -> (set: NoConstraints)
        ensures
            set == (NoConstraints {  }),
    {
        NoConstraints {  }
    }
}

impl Default for NoConstraints {
    fn default() -> (set: NoConstraints)
        ensures
            set == (NoConstraints {  }),
    {
        NoConstraints::new()
    }
}

impl<T: OptFloat> Constraint<T> for NoConstraints {
    open spec fn admits_dimension(&self, n: nat) -> bool {
        true
    }

    open spec fn contains(&self, x: Seq<T>) -> bool {
        true
    }

    open spec fn projection(&self, x: Seq<T>) -> Seq<T> {
        x
    }

    open spec fn convex(&self) -> bool {
        true
    }

    fn project(&self, _x: &mut [T]) {
    }

    fn is_convex(&self) -> bool {
        true
    }
}

/// The projection on the whole space leaves every vector as it is; so it is
/// idempotent, and the projections of two vectors are as far apart as the
/// vectors.
pub proof fn law_no_constraints_identity<T: OptFloat>(set: NoConstraints, x: Seq<T>)
    ensures
        Constraint::<T>::projection(&set, x) == x,
        Constraint::<T>::projection(&set, Constraint::<T>::projection(&set, x))
            == Constraint::<T>::projection(&set, x),
{
}

/// The projection on the whole space is a nearest point: in exact
/// arithmetic it is no further from `x` than any vector.
pub proof fn law_no_constraints_nearest_point<T: OptFloat>(
    value: spec_fn(T) -> real,
    set: NoConstraints,
    x: Seq<T>,
    z: Seq<T>,
)
    requires
        z.len() == x.len(),
    ensures
        Constraint::<T>::contains(&set, Constraint::<T>::projection(&set, x)),
        sq_dist_values(value, x, Constraint::<T>::projection(&set, x)) <= sq_dist_values(
            value,
            x,
            z,
        ),
{
    let vx = values(value, x);
    let vz = values(value, z);
    assert forall|i: int| 0 <= i < x.len() implies abs_real(#[trigger] vx[i] - vx[i]) <= abs_real(
        vx[i] - vz[i],
    ) by {}
    lemma_sq_dist_entrywise(vx, vx, vx, vz, x.len());
}

} // verus!
