//! Boxes
use super::Constraint;
use crate::engine::opt_float::{gt_spec, lt_is_irreflexive, OptFloat};
use crate::exact::{abs_real, exact, lemma_sq_dist_entrywise, sq_dist_values, values};
use vstd::prelude::*;

verus! {

/// A rectangle, `R = {x : xmin <= x <= xmax}`
///
/// A set of the form `{x : xmin <= x <= xmax}`, where `<=` is meant in the
/// element-wise sense and either of `xmin` and `xmax` can be absent.
#[derive(Clone, Copy)]
pub struct Rectangle<'a, T: OptFloat> {
    xmin: Option<&'a [T]>,
    xmax: Option<&'a [T]>,
}

/// The entries of `x` raised to the lower bounds, as far as there are bounds.
pub open spec fn clamp_below<T: OptFloat>(x: Seq<T>, xmin: Seq<T>) -> Seq<T> {
    Seq::new(
        x.len(),
        |i: int|
            if i < xmin.len() && x[i].lt_spec(xmin[i]) {
                xmin[i]
            } else {
                x[i]
            },
    )
}

/// The entries of `x` lowered to the upper bounds, as far as there are
/// bounds.
pub open spec fn clamp_above<T: OptFloat>(x: Seq<T>, xmax: Seq<T>) -> Seq<T> {
    Seq::new(
        x.len(),
        |i: int|
            if i < xmax.len() && gt_spec(x[i], xmax[i]) {
                xmax[i]
            } else {
                x[i]
            },
    )
}

/// No entry of `x` lies below the lower bound or above the upper bound that
/// there is for it.
pub open spec fn within_bounds<T: OptFloat>(
    x: Seq<T>,
    xmin: Option<Seq<T>>,
    xmax: Option<Seq<T>>,
) -> bool {
    forall|i: int|
        0 <= i < x.len() ==> {
            &&& (xmin is Some && i < xmin->0.len()) ==> !(#[trigger] x[i]).lt_spec(xmin->0[i])
            &&& (xmax is Some && i < xmax->0.len()) ==> !gt_spec(x[i], xmax->0[i])
        }
}

/// The projection on a rectangle: the lower bounds are applied first, then
/// the upper bounds.
pub open spec fn rectangle_projection<T: OptFloat>(
    x: Seq<T>,
    xmin: Option<Seq<T>>,
    xmax: Option<Seq<T>>,
) -> Seq<T> {
    let raised = match xmin {
        Some(lo) => clamp_below(x, lo),
        None => x,
    };
    match xmax {
        Some(hi) => clamp_above(raised, hi),
        None => raised,
    }
}

impl<'a, T: OptFloat> Rectangle<'a, T> {
    /// The lower bounds.
    pub closed spec fn xmin_spec(&self) -> Option<Seq<T>> {
        match self.xmin {
            Some(lo) => Some(lo@),
            None => None,
        }
    }

    /// The upper bounds.
    pub closed spec fn xmax_spec(&self) -> Option<Seq<T>> {
        match self.xmax {
            Some(hi) => Some(hi@),
            None => None,
        }
    }

    /// At least one of the bounds is present, and where both are, they have
    /// one length.
    pub open spec fn wf(&self) -> bool {
        &&& self.xmin_spec() is Some || self.xmax_spec() is Some
        &&& (self.xmin_spec() is Some && self.xmax_spec() is Some) ==> self.xmin_spec()->0.len()
            == self.xmax_spec()->0.len()
    }

    /// Construct a new rectangle with given `xmin` and `xmax`
    ///
    /// # Note
    ///
    /// Rectangle does not copy `xmin` and `xmax` internally; it only keeps
    /// a reference. You may set one of `xmin` and `xmax` to `None` (but not
    /// both).
    pub fn new(xmin: Option<&'a [T]>, xmax: Option<&'a [T]>) -> (r: Self)
        requires
            xmin is Some || xmax is Some,
            (xmin is Some && xmax is Some) ==> xmin->0@.len() == xmax->0@.len(),
        ensures
            r.wf(),
            r.xmin_spec() == (match xmin {
                Some(lo) => Some(lo@),
                None => None,
            }),
            r.xmax_spec() == (match xmax {
                Some(hi) => Some(hi@),
                None => None,
            }),
    {
        Rectangle { xmin, xmax }
    }
}

impl<'a, T: OptFloat> Constraint<T> for Rectangle<'a, T> {
    open spec fn admits_dimension(&self, n: nat) -> bool {
        true
    }

    open spec fn contains(&self, x: Seq<T>) -> bool {
        within_bounds(x, self.xmin_spec(), self.xmax_spec())
    }

    open spec fn projection(&self, x: Seq<T>) -> Seq<T> {
        rectangle_projection(x, self.xmin_spec(), self.xmax_spec())
    }

    open spec fn convex(&self) -> bool {
        true
    }

    fn project(&self, x: &mut [T]) {
        if let Some(xmin) = self.xmin {
            let n = if x.len() <= xmin.len() {
                x.len()
            } else {
                xmin.len()
            };
            let mut i: usize = 0;
            while i < n
                invariant
                    i <= n,
                    n <= xmin@.len(),
                    n <= x@.len(),
                    x@.len() == old(x)@.len(),
                    forall|j: int| 0 <= j < i ==> x@[j] == clamp_below(old(x)@, xmin@)[j],
                    forall|j: int| i <= j < x@.len() ==> x@[j] == old(x)@[j],
                decreases n - i,
            {
                if x[i].lt(xmin[i]) {
                    x[i] = xmin[i];
                }
                i += 1;
            }
            assert(x@ =~= clamp_below(old(x)@, xmin@));
        }
        let ghost raised = x@;
        if let Some(xmax) = self.xmax {
            let n = if x.len() <= xmax.len() {
                x.len()
            } else {
                xmax.len()
            };
            let mut i: usize = 0;
            while i < n
                invariant
                    i <= n,
                    n <= xmax@.len(),
                    n <= x@.len(),
                    x@.len() == raised.len(),
                    forall|j: int| 0 <= j < i ==> x@[j] == clamp_above(raised, xmax@)[j],
                    forall|j: int| i <= j < x@.len() ==> x@[j] == raised[j],
                decreases n - i,
            {
                if x[i].gt(xmax[i]) {
                    x[i] = xmax[i];
                }
                i += 1;
            }
            assert(x@ =~= clamp_above(raised, xmax@));
        }
    }

    fn is_convex(&self) -> bool {
        true
    }
}

/// The real number `a`, raised to the lower bound and then lowered to the
/// upper bound, as far as the bounds have an entry `i`.
pub open spec fn clamp_to_bounds<T: OptFloat>(
    value: spec_fn(T) -> real,
    a: real,
    xmin: Option<Seq<T>>,
    xmax: Option<Seq<T>>,
    i: int,
) -> real {
    let raised = if xmin is Some && i < xmin->0.len() && a < value(xmin->0[i]) {
        value(xmin->0[i])
    } else {
        a
    };
    if xmax is Some && i < xmax->0.len() && raised > value(xmax->0[i]) {
        value(xmax->0[i])
    } else {
        raised
    }
}

/// In exact arithmetic the value of an entry of the projection on a
/// rectangle is the value of the entry of `x`, clamped to the bounds.
pub proof fn lemma_rectangle_projection_clamps<T: OptFloat>(
    value: spec_fn(T) -> real,
    x: Seq<T>,
    xmin: Option<Seq<T>>,
    xmax: Option<Seq<T>>,
    i: int,
)
    requires
        exact(value),
        0 <= i < x.len(),
    ensures
        rectangle_projection(x, xmin, xmax).len() == x.len(),
        value(rectangle_projection(x, xmin, xmax)[i]) == clamp_to_bounds(
            value,
            value(x[i]),
            xmin,
            xmax,
            i,
        ),
{
    let raised = match xmin {
        Some(lo) => clamp_below(x, lo),
        None => x,
    };
    assert(raised.len() == x.len());
    if xmin is Some && i < xmin->0.len() {
        assert(x[i].lt_spec(xmin->0[i]) <==> value(x[i]) < value(xmin->0[i]));
    }
    if xmax is Some && i < xmax->0.len() {
        assert(gt_spec(raised[i], xmax->0[i]) <==> value(raised[i]) > value(xmax->0[i]));
    }
}

/// The projection on a rectangle is idempotent: for scalars none of which
/// is less than itself, as it is with floating-point numbers and in exact
/// arithmetic, the projection of a projection is that projection.
pub proof fn law_rectangle_idempotent<T: OptFloat>(rectangle: Rectangle<'_, T>, x: Seq<T>)
    requires
        lt_is_irreflexive::<T>(),
    ensures
        rectangle.projection(rectangle.projection(x)) == rectangle.projection(x),
{
    let xmin = rectangle.xmin_spec();
    let xmax = rectangle.xmax_spec();
    let raised = match xmin {
        Some(lo) => clamp_below(x, lo),
        None => x,
    };
    let y = rectangle_projection(x, xmin, xmax);
    let raised_again = match xmin {
        Some(lo) => clamp_below(y, lo),
        None => y,
    };
    let z = rectangle_projection(y, xmin, xmax);
    assert(raised.len() == x.len());
    assert(y.len() == x.len());
    assert(raised_again.len() == x.len());
    assert(z.len() == y.len());
    assert forall|i: int| 0 <= i < y.len() implies z[i] == y[i] by {
        if xmin is Some && i < xmin->0.len() {
            assert(!xmin->0[i].lt_spec(xmin->0[i]));
        }
        if xmax is Some && i < xmax->0.len() {
            assert(!xmax->0[i].lt_spec(xmax->0[i]));
        }
    }
    assert(z =~= y);
}

/// The projection on a rectangle is nonexpansive: in exact arithmetic the
/// projections of two vectors are no further apart than the vectors.
pub proof fn law_rectangle_nonexpansive<T: OptFloat>(
    value: spec_fn(T) -> real,
    rectangle: Rectangle<'_, T>,
    x: Seq<T>,
    y: Seq<T>,
)
    requires
        exact(value),
        x.len() == y.len(),
    ensures
        sq_dist_values(value, rectangle.projection(x), rectangle.projection(y)) <= sq_dist_values(
            value,
            x,
            y,
        ),
{
    let xmin = rectangle.xmin_spec();
    let xmax = rectangle.xmax_spec();
    let px = values(value, rectangle.projection(x));
    let py = values(value, rectangle.projection(y));
    let vx = values(value, x);
    let vy = values(value, y);
    assert(rectangle.projection(x).len() == x.len());
    assert forall|i: int| 0 <= i < x.len() implies abs_real(#[trigger] px[i] - py[i]) <= abs_real(
        vx[i] - vy[i],
    ) by {
        lemma_rectangle_projection_clamps(value, x, xmin, xmax, i);
        lemma_rectangle_projection_clamps(value, y, xmin, xmax, i);
    }
    lemma_sq_dist_entrywise(px, py, vx, vy, x.len());
}

/// Where both bounds have an entry, the lower bound does not exceed the
/// upper bound.
pub open spec fn ordered_bounds<T: OptFloat>(xmin: Option<Seq<T>>, xmax: Option<Seq<T>>) -> bool {
    xmin is Some && xmax is Some ==> forall|i: int|
        0 <= i < xmin->0.len() && i < xmax->0.len() ==> !gt_spec(
            #[trigger] xmin->0[i],
            xmax->0[i],
        )
}

/// The projection on a rectangle lies in the rectangle: in exact arithmetic,
/// for lower bounds that do not exceed the upper bounds, no entry of it lies
/// below the lower or above the upper bound.
pub proof fn law_rectangle_projection_in_set<T: OptFloat>(
    value: spec_fn(T) -> real,
    rectangle: Rectangle<'_, T>,
    x: Seq<T>,
)
    requires
        exact(value),
        ordered_bounds(rectangle.xmin_spec(), rectangle.xmax_spec()),
    ensures
        rectangle.contains(rectangle.projection(x)),
{
    let xmin = rectangle.xmin_spec();
    let xmax = rectangle.xmax_spec();
    let y = rectangle_projection(x, xmin, xmax);
    assert(y.len() == x.len());
    assert forall|i: int| 0 <= i < y.len() implies {
        &&& (xmin is Some && i < xmin->0.len()) ==> !(#[trigger] y[i]).lt_spec(xmin->0[i])
        &&& (xmax is Some && i < xmax->0.len()) ==> !gt_spec(y[i], xmax->0[i])
    } by {
        lemma_rectangle_projection_clamps(value, x, xmin, xmax, i);
        if xmin is Some && xmax is Some && i < xmin->0.len() && i < xmax->0.len() {
            assert(!gt_spec(xmin->0[i], xmax->0[i]));
        }
    }
}

/// The projection on a rectangle is a nearest point of the rectangle: in
/// exact arithmetic it is no further from `x` than any point of the
/// rectangle.
pub proof fn law_rectangle_nearest_point<T: OptFloat>(
    value: spec_fn(T) -> real,
    rectangle: Rectangle<'_, T>,
    x: Seq<T>,
    z: Seq<T>,
)
    requires
        exact(value),
        z.len() == x.len(),
        rectangle.contains(z),
    ensures
        sq_dist_values(value, x, rectangle.projection(x)) <= sq_dist_values(value, x, z),
{
    let xmin = rectangle.xmin_spec();
    let xmax = rectangle.xmax_spec();
    let vx = values(value, x);
    let vp = values(value, rectangle.projection(x));
    let vz = values(value, z);
    assert(rectangle.projection(x).len() == x.len());
    assert forall|i: int| 0 <= i < x.len() implies abs_real(#[trigger] vx[i] - vp[i]) <= abs_real(
        vx[i] - vz[i],
    ) by {
        lemma_rectangle_projection_clamps(value, x, xmin, xmax, i);
        if xmin is Some && i < xmin->0.len() {
            assert(!z[i].lt_spec(xmin->0[i]));
        }
        if xmax is Some && i < xmax->0.len() {
            assert(!gt_spec(z[i], xmax->0[i]));
        }
    }
    lemma_sq_dist_entrywise(vx, vp, vx, vz, x.len());
}

} // verus!
