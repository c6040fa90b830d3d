//! Hyperplanes
use super::Constraint;
use crate::engine::opt_float::OptFloat;
use crate::exact::{
    diff, dot, exact, lemma_dot_diff, lemma_dot_scaled_left, lemma_dot_self_nonnegative,
    lemma_dot_shifted, lemma_dot_symmetric, lemma_nearest,
    lemma_dot_shifted_self, lemma_inner_product_value, lemma_sq_dist_is_dot, sq_dist_values,
    values,
};
use crate::matrix_operations::{
    inner_product, inner_product_spec, norm2_squared, norm2_squared_spec,
};
use vstd::prelude::*;

verus! {

/// A hyperplane is a set given by `H = {x : <c, x> = b}`.
pub struct Hyperplane<'a, T: OptFloat> {
    /// normal vector
    normal_vector: &'a [T],
    /// offset
    offset: T,
    /// squared Euclidean norm of the normal vector (computed once upon
    /// construction)
    normal_vector_squared_norm: T,
}

impl<'a, T: OptFloat> Clone for Hyperplane<'a, T> {
    fn clone(&self) -> (h: Self)
        ensures
            h == *self,
    {
        *self
    }
}

impl<'a, T: OptFloat> Copy for Hyperplane<'a, T> {

}

/// The multiple of the normal vector by which `x` misses the hyperplane.
pub open spec fn hyperplane_factor<T: OptFloat>(x: Seq<T>, normal: Seq<T>, offset: T) -> T {
    inner_product_spec(x, normal).sub_spec(offset).div_spec(norm2_squared_spec(normal))
}

/// The projection on the hyperplane, `x - ((<c, x> - b) / ||c||^2) c`.
pub open spec fn hyperplane_projection<T: OptFloat>(x: Seq<T>, normal: Seq<T>, offset: T) -> Seq<
    T,
> {
    let factor = hyperplane_factor(x, normal, offset);
    Seq::new(x.len(), |i: int| x[i].sub_spec(factor.mul_spec(normal[i])))
}

impl<'a, T: OptFloat> Hyperplane<'a, T> {
    /// The normal vector `c`.
    pub closed spec fn normal_spec(&self) -> Seq<T> {
        self.normal_vector@
    }

    /// The offset `b`.
    pub closed spec fn offset_spec(&self) -> T {
        self.offset
    }

    /// The squared norm that is kept is that of the normal vector.
    #[verifier::type_invariant]
    spec fn squared_norm_is_kept(self) -> bool {
        self.normal_vector_squared_norm == norm2_squared_spec(self.normal_vector@)
    }

    /// A hyperplane is a set given by `H = {x : <c, x> = b}`, where `c` is the
    /// normal vector of the hyperplane and `b` is an offset.
    ///
    /// This method constructs a new instance of `Hyperplane` with a given
    /// normal vector and bias
    ///
    /// # Arguments
    ///
    /// - `normal_vector`: the normal vector, `c`, as a slice
    /// - `offset`: the offset parameter, `b`
    pub fn new(normal_vector: &'a [T], offset: T) -> (h: Self)
        ensures
            h.normal_spec() == normal_vector@,
            h.offset_spec() == offset,
    {
        let normal_vector_squared_norm = norm2_squared(normal_vector);
        Hyperplane { normal_vector, offset, normal_vector_squared_norm }
    }
}

impl<'a, T: OptFloat> Constraint<T> for Hyperplane<'a, T> {
    /// A vector of the length of the normal vector.
    open spec fn admits_dimension(&self, n: nat) -> bool {
        n == self.normal_spec().len()
    }

    open spec fn contains(&self, x: Seq<T>) -> bool {
        &&& x.len() == self.normal_spec().len()
        &&& inner_product_spec(x, self.normal_spec()) == self.offset_spec()
    }

    open spec fn projection(&self, x: Seq<T>) -> Seq<T> {
        hyperplane_projection(x, self.normal_spec(), self.offset_spec())
    }

    open spec fn convex(&self) -> bool {
        true
    }

    /// Projects on the hyperplane using the formula:
    ///
    /// ```text
    /// proj(x) = x - ((<c, x> - b) / ||c||^2) c
    /// ```
    fn project(&self, x: &mut [T]) {
        proof {
            use_type_invariant(self);
        }
        let product = inner_product(x, self.normal_vector);
        let factor = product.sub(self.offset).div(self.normal_vector_squared_norm);
        let n = x.len();
        let mut i: usize = 0;
        while i < n
            invariant
                i <= n,
                n == x@.len(),
                n == self.normal_vector@.len(),
                x@.len() == old(x)@.len(),
                forall|j: int|
                    0 <= j < i ==> x@[j] == old(x)@[j].sub_spec(
                        factor.mul_spec(self.normal_vector@[j]),
                    ),
                forall|j: int| i <= j < x@.len() ==> x@[j] == old(x)@[j],
            decreases n - i,
        {
            x[i] = x[i].sub(factor.mul(self.normal_vector[i]));
            i += 1;
        }
        assert(x@ =~= self.projection(old(x)@));
    }

    /// Hyperplanes are convex sets
    fn is_convex(&self) -> bool {
        true
    }
}

/// In exact arithmetic, for a normal vector other than zero, the values of
/// the projection are those of `x - k c`, where `k <c, c> = <x, c> - b`.
pub proof fn lemma_hyperplane_projection_values<T: OptFloat>(
    value: spec_fn(T) -> real,
    x: Seq<T>,
    normal: Seq<T>,
    offset: T,
)
    requires
        exact(value),
        x.len() == normal.len(),
        norm2_squared_spec(normal) != T::zero_spec(),
    ensures
        ({
            let k = value(hyperplane_factor(x, normal, offset));
            let vc = values(value, normal);
            let vx = values(value, x);
            let vy = values(value, hyperplane_projection(x, normal, offset));
            let n = x.len();
            &&& dot(vc, vc, n) > 0real
            &&& k * dot(vc, vc, n) == dot(vx, vc, n) - value(offset)
            &&& forall|i: int| 0 <= i < n ==> #[trigger] vy[i] == vx[i] - k * vc[i]
        }),
{
    let n = x.len();
    let vc = values(value, normal);
    let vx = values(value, x);
    let y = hyperplane_projection(x, normal, offset);
    let vy = values(value, y);
    let factor = hyperplane_factor(x, normal, offset);
    let k = value(factor);
    lemma_inner_product_value(value, normal, normal, n);
    lemma_inner_product_value(value, x, normal, n);
    lemma_dot_self_nonnegative(vc, n);
    let squared_norm = norm2_squared_spec(normal);
    assert(value(squared_norm) != 0real) by {
        if value(squared_norm) == 0real {
            assert(value(squared_norm) == value(T::zero_spec()));
        }
    }
    let numerator = inner_product_spec(x, normal).sub_spec(offset);
    assert(value(numerator) == value(inner_product_spec(x, normal)) - value(offset));
    assert(value(numerator.div_spec(squared_norm)) * value(squared_norm) == value(numerator));
    assert forall|i: int| 0 <= i < n implies #[trigger] vy[i] == vx[i] - k * vc[i] by {
        assert(value(factor.mul_spec(normal[i])) == k * value(normal[i]));
        assert(value(x[i].sub_spec(factor.mul_spec(normal[i]))) == value(x[i]) - value(
            factor.mul_spec(normal[i]),
        ));
    }
}

/// The projection on a hyperplane lies on the hyperplane: in exact
/// arithmetic, for a normal vector other than zero, its inner product with
/// the normal vector is the offset.
pub proof fn law_hyperplane_projection_on_hyperplane<T: OptFloat>(
    value: spec_fn(T) -> real,
    hyperplane: Hyperplane<'_, T>,
    x: Seq<T>,
)
    requires
        exact(value),
        x.len() == hyperplane.normal_spec().len(),
        norm2_squared_spec(hyperplane.normal_spec()) != T::zero_spec(),
    ensures
        hyperplane.contains(hyperplane.projection(x)),
{
    let normal = hyperplane.normal_spec();
    let offset = hyperplane.offset_spec();
    let n = x.len();
    let y = hyperplane_projection(x, normal, offset);
    let k = value(hyperplane_factor(x, normal, offset));
    let vc = values(value, normal);
    lemma_hyperplane_projection_values(value, x, normal, offset);
    lemma_dot_shifted(values(value, y), values(value, x), vc, k, n);
    lemma_inner_product_value(value, y, normal, n);
    assert(value(inner_product_spec(y, normal)) == value(offset));
}

/// The projection on a hyperplane is idempotent: in exact arithmetic, for a
/// normal vector other than zero, the projection of a projection is that
/// projection.
pub proof fn law_hyperplane_idempotent<T: OptFloat>(
    value: spec_fn(T) -> real,
    hyperplane: Hyperplane<'_, T>,
    x: Seq<T>,
)
    requires
        exact(value),
        x.len() == hyperplane.normal_spec().len(),
        norm2_squared_spec(hyperplane.normal_spec()) != T::zero_spec(),
    ensures
        hyperplane.projection(hyperplane.projection(x)) == hyperplane.projection(x),
{
    let normal = hyperplane.normal_spec();
    let offset = hyperplane.offset_spec();
    let n = x.len();
    let y = hyperplane_projection(x, normal, offset);
    let z = hyperplane_projection(y, normal, offset);
    law_hyperplane_projection_on_hyperplane(value, hyperplane, x);
    lemma_hyperplane_projection_values(value, y, normal, offset);
    lemma_inner_product_value(value, y, normal, n);
    let k = value(hyperplane_factor(y, normal, offset));
    let vc = values(value, normal);
    assert(k == 0real) by (nonlinear_arith)
        requires
            k * dot(vc, vc, n) == 0real,
            dot(vc, vc, n) > 0real,
    ;
    assert forall|i: int| 0 <= i < n implies z[i] == y[i] by {
        assert(values(value, z)[i] == values(value, y)[i] - k * vc[i]);
        assert(k * vc[i] == 0real) by (nonlinear_arith)
            requires
                k == 0real,
        ;
        assert(value(z[i]) == value(y[i]));
    }
    assert(z =~= y);
}

/// The projection on a hyperplane is nonexpansive: in exact arithmetic, for
/// a normal vector other than zero, the projections of two vectors are no
/// further apart than the vectors.
pub proof fn law_hyperplane_nonexpansive<T: OptFloat>(
    value: spec_fn(T) -> real,
    hyperplane: Hyperplane<'_, T>,
    x: Seq<T>,
    y: Seq<T>,
)
    requires
        exact(value),
        x.len() == hyperplane.normal_spec().len(),
        y.len() == hyperplane.normal_spec().len(),
        norm2_squared_spec(hyperplane.normal_spec()) != T::zero_spec(),
    ensures
        sq_dist_values(value, hyperplane.projection(x), hyperplane.projection(y)) <= sq_dist_values(
            value,
            x,
            y,
        ),
{
    let normal = hyperplane.normal_spec();
    let offset = hyperplane.offset_spec();
    let n = x.len();
    let vc = values(value, normal);
    let vx = values(value, x);
    let vy = values(value, y);
    let px = values(value, hyperplane_projection(x, normal, offset));
    let py = values(value, hyperplane_projection(y, normal, offset));
    let kx = value(hyperplane_factor(x, normal, offset));
    let ky = value(hyperplane_factor(y, normal, offset));
    lemma_hyperplane_projection_values(value, x, normal, offset);
    lemma_hyperplane_projection_values(value, y, normal, offset);
    let k = kx - ky;
    let d = diff(vx, vy);
    let pd = diff(px, py);
    assert forall|i: int| 0 <= i < n implies #[trigger] pd[i] == d[i] - k * vc[i] by {
        assert(px[i] == vx[i] - kx * vc[i]);
        assert(py[i] == vy[i] - ky * vc[i]);
        assert((kx - ky) * vc[i] == kx * vc[i] - ky * vc[i]) by (nonlinear_arith);
    }
    lemma_dot_shifted_self(pd, d, vc, k, n);
    lemma_dot_diff(vx, vy, vc, n);
    lemma_sq_dist_is_dot(px, py, n);
    lemma_sq_dist_is_dot(vx, vy, n);
    let cc = dot(vc, vc, n);
    let dc = dot(d, vc, n);
    assert(k * cc == dc) by (nonlinear_arith)
        requires
            k == kx - ky,
            kx * cc == dot(vx, vc, n) - value(offset),
            ky * cc == dot(vy, vc, n) - value(offset),
            dc == dot(vx, vc, n) - dot(vy, vc, n),
    ;
    assert(dot(pd, pd, n) <= dot(d, d, n)) by (nonlinear_arith)
        requires
            dot(pd, pd, n) == dot(d, d, n) - 2real * k * dc + k * k * cc,
            k * cc == dc,
            cc > 0real,
    ;
}

/// The projection on a hyperplane is a nearest point of the hyperplane: in
/// exact arithmetic, for a normal vector other than zero, it is no further
/// from `x` than any point of the hyperplane.
pub proof fn law_hyperplane_nearest_point<T: OptFloat>(
    value: spec_fn(T) -> real,
    hyperplane: Hyperplane<'_, T>,
    x: Seq<T>,
    z: Seq<T>,
)
    requires
        exact(value),
        x.len() == hyperplane.normal_spec().len(),
        norm2_squared_spec(hyperplane.normal_spec()) != T::zero_spec(),
        hyperplane.contains(z),
    ensures
        sq_dist_values(value, x, hyperplane.projection(x)) <= sq_dist_values(value, x, z),
{
    let normal = hyperplane.normal_spec();
    let offset = hyperplane.offset_spec();
    let n = x.len();
    let y = hyperplane_projection(x, normal, offset);
    let k = value(hyperplane_factor(x, normal, offset));
    let vc = values(value, normal);
    let vx = values(value, x);
    let vy = values(value, y);
    let vz = values(value, z);
    lemma_hyperplane_projection_values(value, x, normal, offset);
    law_hyperplane_projection_on_hyperplane(value, hyperplane, x);
    lemma_inner_product_value(value, y, normal, n);
    lemma_inner_product_value(value, z, normal, n);
    let e = diff(vx, vy);
    let h = diff(vy, vz);
    assert forall|i: int| 0 <= i < n implies #[trigger] e[i] * 1real == k * vc[i] by {
        assert(vy[i] == vx[i] - k * vc[i]);
    }
    lemma_dot_scaled_left(e, vc, h, 1real, k, n);
    lemma_dot_symmetric(vc, h, n);
    lemma_dot_diff(vy, vz, vc, n);
    assert(dot(h, vc, n) == 0real);
    assert(k * dot(vc, h, n) == 0real) by (nonlinear_arith)
        requires
            dot(vc, h, n) == 0real,
    ;
    lemma_nearest(vx, vy, vz, n);
}

} // verus!
