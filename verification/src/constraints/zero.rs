//! The origin
use super::Constraint;
use crate::engine::opt_float::OptFloat;
use crate::exact::{abs_real, exact, lemma_sq_dist_entrywise, sq_dist_values, values};
use vstd::prelude::*;

verus! {

/// Set Zero, `{0}`
#[derive(Clone, Copy)]
pub struct Zero {}

impl Zero {
    /// Constructs new instance of `Zero`
    pub fn new() -> (set: Self)
        ensures
            set == (Zero {  }),
    {
        Zero {  }
    }
}

impl Default for Zero {
    fn default() -> (set: Zero)
        ensures
            set == (Zero {  }),
    {
        Zero::new()
    }
}

/// The zero vector of the length of `x`.
pub open spec fn zero_projection<T: OptFloat>(x: Seq<T>) -> Seq<T> {
    Seq::new(x.len(), |i: int| T::zero_spec())
}

impl<T: OptFloat> Constraint<T> for Zero {
    open spec fn admits_dimension(&self, n: nat) -> bool {
        true
    }

    open spec fn contains(&self, x: Seq<T>) -> bool {
        forall|i: int| 0 <= i < x.len() ==> #[trigger] x[i] == T::zero_spec()
    }

    open spec fn projection(&self, x: Seq<T>) -> Seq<T> {
        zero_projection(x)
    }

    open spec fn convex(&self) -> bool {
        true
    }

    /// Computes the projection on `{0}`, that is, `proj(x) = 0` for all `x`
    fn project(&self, x: &mut [T]) {
        let n = x.len();
        let mut i: usize = 0;
        while i < n
            invariant
                i <= n,
                n == x@.len(),
                n == old(x)@.len(),
                forall|j: int| 0 <= j < i ==> x@[j] == T::zero_spec(),
            decreases n - i,
        {
            x[i] = T::zero();
            i += 1;
        }
        assert(x@ =~= zero_projection(old(x)@));
    }

    fn is_convex(&self) -> bool {
        true
    }
}

/// The projection on the origin is idempotent.
pub proof fn law_zero_idempotent<T: OptFloat>(x: Seq<T>)
    ensures
        zero_projection(zero_projection(x)) == zero_projection(x),
{
    assert(zero_projection(zero_projection(x)) =~= zero_projection(x));
}

/// The projection on the origin is nonexpansive: in exact arithmetic the
/// projections of two vectors are no further apart than the vectors.
pub proof fn law_zero_nonexpansive<T: OptFloat>(value: spec_fn(T) -> real, x: Seq<T>, y: Seq<T>)
    requires
        exact(value),
        x.len() == y.len(),
    ensures
        sq_dist_values(value, zero_projection(x), zero_projection(y)) <= sq_dist_values(
            value,
            x,
            y,
        ),
{
    let px = values(value, zero_projection(x));
    let py = values(value, zero_projection(y));
    lemma_sq_dist_entrywise(px, py, values(value, x), values(value, y), x.len());
}

/// The projection on the origin lies in the set, and it is the only point of
/// the set: in exact arithmetic it is no further from `x` than any point of
/// the set.
pub proof fn law_zero_nearest_point<T: OptFloat>(
    value: spec_fn(T) -> real,
    set: Zero,
    x: Seq<T>,
    z: Seq<T>,
)
    requires
        exact(value),
        z.len() == x.len(),
        Constraint::<T>::contains(&set, z),
    ensures
        Constraint::<T>::contains(&set, zero_projection(x)),
        sq_dist_values(value, x, zero_projection(x)) <= sq_dist_values(value, x, z),
{
    let vx = values(value, x);
    let vp = values(value, zero_projection(x));
    let vz = values(value, z);
    assert forall|i: int| 0 <= i < x.len() implies abs_real(#[trigger] vx[i] - vp[i]) <= abs_real(
        vx[i] - vz[i],
    ) by {
        assert(z[i] == T::zero_spec());
    }
    lemma_sq_dist_entrywise(vx, vp, vx, vz, x.len());
}

} // verus!
