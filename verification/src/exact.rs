//! Scalars without rounding
//!
//! The contracts of the library say which operations are applied; what is
//! true of the numbers that come out depends on the arithmetic. This module
//! states when the arithmetic of a scalar type is that of the real numbers,
//! and what then follows for the vectors of the library. The properties of
//! the projections are proved under that hypothesis; floating-point numbers
//! round, and have them up to rounding only.
use crate::engine::opt_float::{square_spec, OptFloat};
use crate::matrix_operations::{
    inner_product_upto, norm1_upto, norm2_squared_diff_upto, norm_inf_diff_upto,
};
use vstd::prelude::*;

verus! {

/// The absolute value of a real number.
pub open spec fn abs_real(a: real) -> real {
    if a >= 0real {
        a
    } else {
        -a
    }
}

/// The larger of two real numbers.
pub open spec fn max_real(a: real, b: real) -> real {
    if a >= b {
        a
    } else {
        b
    }
}

/// The number in `[lo, hi]` that is nearest to `a`.
pub open spec fn clamp_real(a: real, lo: real, hi: real) -> real {
    if a < lo {
        lo
    } else if a > hi {
        hi
    } else {
        a
    }
}

/// Under the interpretation `value` of the scalars as real numbers, the
/// arithmetic of `T` is exact: a scalar is determined by its value, every
/// operation gives the scalar of the exact result, comparisons are those of
/// the values, and every scalar is finite. Division is exact for a divisor
/// other than zero, the square root for a number that is not negative, and
/// the sign is `1` above zero, `-1` below, and one of `-1`, `0`, `1` at zero.
pub open spec fn exact<T: OptFloat>(value: spec_fn(T) -> real) -> bool {
    &&& forall|a: T, b: T| #[trigger] value(a) == #[trigger] value(b) ==> a == b
    &&& value(T::zero_spec()) == 0real
    &&& value(T::one_spec()) == 1real
    &&& forall|n: u64| #[trigger] value(T::from_u64_spec(n)) == n as real
    &&& forall|a: T, b: T| #[trigger] value(a.add_spec(b)) == value(a) + value(b)
    &&& forall|a: T, b: T| #[trigger] value(a.sub_spec(b)) == value(a) - value(b)
    &&& forall|a: T, b: T| #[trigger] value(a.mul_spec(b)) == value(a) * value(b)
    &&& forall|a: T, b: T|
        value(b) != 0real ==> #[trigger] value(a.div_spec(b)) * value(b) == value(a)
    &&& forall|a: T| #[trigger] value(a.neg_spec()) == -value(a)
    &&& forall|a: T| #[trigger] value(a.abs_spec()) == abs_real(value(a))
    &&& forall|a: T|
        value(a) >= 0real ==> value(#[trigger] a.sqrt_spec()) >= 0real && value(a.sqrt_spec())
            * value(a.sqrt_spec()) == value(a)
    &&& forall|a: T|
        value(a) > 0real ==> value(#[trigger] a.signum_spec()) == 1real
    &&& forall|a: T|
        value(a) < 0real ==> value(#[trigger] a.signum_spec()) == -1real
    &&& forall|a: T|
        value(a) == 0real ==> -1real <= value(#[trigger] a.signum_spec()) <= 1real
    &&& forall|a: T, b: T| #[trigger] value(a.max_spec(b)) == max_real(value(a), value(b))
    &&& forall|a: T, b: T| #[trigger] a.lt_spec(b) <==> value(a) < value(b)
    &&& forall|a: T, b: T| #[trigger] a.le_spec(b) <==> value(a) <= value(b)
    &&& forall|a: T| #[trigger] a.is_finite_spec()
}

/// The values of the entries of `x`.
pub open spec fn values<T>(value: spec_fn(T) -> real, x: Seq<T>) -> Seq<real> {
    Seq::new(x.len(), |i: int| value(x[i]))
}

/// The sum `a[0]*b[0] + ... + a[n-1]*b[n-1]`.
pub open spec fn dot(a: Seq<real>, b: Seq<real>, n: nat) -> real
    decreases n,
{
    if n == 0 {
        0real
    } else {
        dot(a, b, (n - 1) as nat) + a[n - 1] * b[n - 1]
    }
}

/// The sum `a[0] + ... + a[n-1]`.
pub open spec fn sum(a: Seq<real>, n: nat) -> real
    decreases n,
{
    if n == 0 {
        0real
    } else {
        sum(a, (n - 1) as nat) + a[n - 1]
    }
}

/// The sum `|a[0]| + ... + |a[n-1]|`.
pub open spec fn sum_abs(a: Seq<real>, n: nat) -> real
    decreases n,
{
    if n == 0 {
        0real
    } else {
        sum_abs(a, (n - 1) as nat) + abs_real(a[n - 1])
    }
}

/// The sum of the squares of `a[i] - b[i]` over the first `n` entries.
pub open spec fn sq_dist(a: Seq<real>, b: Seq<real>, n: nat) -> real
    decreases n,
{
    if n == 0 {
        0real
    } else {
        sq_dist(a, b, (n - 1) as nat) + (a[n - 1] - b[n - 1]) * (a[n - 1] - b[n - 1])
    }
}

/// The largest of `|a[i] - b[i]|` over the first `n` entries, and zero.
pub open spec fn max_dist(a: Seq<real>, b: Seq<real>, n: nat) -> real
    decreases n,
{
    if n == 0 {
        0real
    } else {
        max_real(abs_real(a[n - 1] - b[n - 1]), max_dist(a, b, (n - 1) as nat))
    }
}

/// The squared Euclidean distance of the values of two vectors of one
/// length.
pub open spec fn sq_dist_values<T>(value: spec_fn(T) -> real, a: Seq<T>, b: Seq<T>) -> real {
    sq_dist(values(value, a), values(value, b), a.len())
}

/// In exact arithmetic the inner product that the library computes has the
/// inner product of the values as its value.
pub proof fn lemma_inner_product_value<T: OptFloat>(
    value: spec_fn(T) -> real,
    a: Seq<T>,
    b: Seq<T>,
    n: nat,
)
    requires
        exact(value),
        n <= a.len(),
        n <= b.len(),
    ensures
        value(inner_product_upto(a, b, n)) == dot(values(value, a), values(value, b), n),
    decreases n,
{
    if n > 0 {
        lemma_inner_product_value(value, a, b, (n - 1) as nat);
        let prev = inner_product_upto(a, b, (n - 1) as nat);
        let term = a[n - 1].mul_spec(b[n - 1]);
        assert(value(term) == value(a[n - 1]) * value(b[n - 1]));
        assert(value(prev.add_spec(term)) == value(prev) + value(term));
    }
}

/// In exact arithmetic the 1-norm that the library computes has the sum of
/// the absolute values as its value.
pub proof fn lemma_norm1_value<T: OptFloat>(value: spec_fn(T) -> real, a: Seq<T>, n: nat)
    requires
        exact(value),
        n <= a.len(),
    ensures
        value(norm1_upto(a, n)) == sum_abs(values(value, a), n),
    decreases n,
{
    if n > 0 {
        lemma_norm1_value(value, a, (n - 1) as nat);
        let prev = norm1_upto(a, (n - 1) as nat);
        let term = a[n - 1].abs_spec();
        assert(value(term) == abs_real(value(a[n - 1])));
        assert(value(prev.add_spec(term)) == value(prev) + value(term));
    }
}

/// In exact arithmetic the squared distance that the library computes has
/// the squared distance of the values as its value.
pub proof fn lemma_sq_dist_value<T: OptFloat>(
    value: spec_fn(T) -> real,
    a: Seq<T>,
    b: Seq<T>,
    n: nat,
)
    requires
        exact(value),
        n <= a.len(),
        n <= b.len(),
    ensures
        value(norm2_squared_diff_upto(a, b, n)) == sq_dist(values(value, a), values(value, b), n),
    decreases n,
{
    if n > 0 {
        lemma_sq_dist_value(value, a, b, (n - 1) as nat);
        let prev = norm2_squared_diff_upto(a, b, (n - 1) as nat);
        let d = a[n - 1].sub_spec(b[n - 1]);
        assert(value(d) == value(a[n - 1]) - value(b[n - 1]));
        assert(value(square_spec(d)) == value(d) * value(d));
        assert(value(prev.add_spec(square_spec(d))) == value(prev) + value(square_spec(d)));
    }
}

/// In exact arithmetic the infinity norm of a difference that the library
/// computes has the largest distance of the values as its value.
pub proof fn lemma_max_dist_value<T: OptFloat>(
    value: spec_fn(T) -> real,
    a: Seq<T>,
    b: Seq<T>,
    n: nat,
)
    requires
        exact(value),
        n <= a.len(),
        n <= b.len(),
    ensures
        value(norm_inf_diff_upto(a, b, n)) == max_dist(values(value, a), values(value, b), n),
    decreases n,
{
    if n > 0 {
        lemma_max_dist_value(value, a, b, (n - 1) as nat);
        let prev = norm_inf_diff_upto(a, b, (n - 1) as nat);
        let d = a[n - 1].sub_spec(b[n - 1]);
        assert(value(d) == value(a[n - 1]) - value(b[n - 1]));
        assert(value(d.abs_spec()) == abs_real(value(d)));
        assert(value(d.abs_spec().max_spec(prev)) == max_real(value(d.abs_spec()), value(prev)));
    }
}

/// Where no entry of `pa` and `pb` is further apart than the entries of `a`
/// and `b`, the vectors `pa` and `pb` are no further apart than `a` and `b`.
pub proof fn lemma_sq_dist_entrywise(
    pa: Seq<real>,
    pb: Seq<real>,
    a: Seq<real>,
    b: Seq<real>,
    n: nat,
)
    requires
        forall|i: int| 0 <= i < n ==> abs_real(#[trigger] pa[i] - pb[i]) <= abs_real(a[i] - b[i]),
    ensures
        sq_dist(pa, pb, n) <= sq_dist(a, b, n),
    decreases n,
{
    if n > 0 {
        lemma_sq_dist_entrywise(pa, pb, a, b, (n - 1) as nat);
        let u = pa[n - 1] - pb[n - 1];
        let v = a[n - 1] - b[n - 1];
        assert(abs_real(u) <= abs_real(v));
        assert(u * u <= v * v) by (nonlinear_arith)
            requires
                abs_real(u) <= abs_real(v),
        ;
    }
}

/// An inner product of a vector with itself is not negative.
pub proof fn lemma_dot_self_nonnegative(a: Seq<real>, n: nat)
    ensures
        dot(a, a, n) >= 0real,
    decreases n,
{
    if n > 0 {
        lemma_dot_self_nonnegative(a, (n - 1) as nat);
        let d = a[n - 1];
        assert(d * d >= 0real) by (nonlinear_arith);
    }
}

/// The inner product with `c` of the vector `y = a - k c` is
/// `<a, c> - k <c, c>`.
pub proof fn lemma_dot_shifted(y: Seq<real>, a: Seq<real>, c: Seq<real>, k: real, n: nat)
    requires
        forall|i: int| 0 <= i < n ==> #[trigger] y[i] == a[i] - k * c[i],
    ensures
        dot(y, c, n) == dot(a, c, n) - k * dot(c, c, n),
    decreases n,
{
    if n > 0 {
        lemma_dot_shifted(y, a, c, k, (n - 1) as nat);
        let i = n - 1;
        assert(y[i] == a[i] - k * c[i]);
        assert(y[i] * c[i] == a[i] * c[i] - k * (c[i] * c[i])) by (nonlinear_arith)
            requires
                y[i] == a[i] - k * c[i],
        ;
        assert(k * (dot(c, c, (n - 1) as nat) + c[i] * c[i]) == k * dot(c, c, (n - 1) as nat) + k
            * (c[i] * c[i])) by (nonlinear_arith);
    }
}

/// Where `y p = q x` entry by entry, `<y, y> p^2 = q^2 <x, x>`.
pub proof fn lemma_dot_scaled(y: Seq<real>, x: Seq<real>, p: real, q: real, n: nat)
    requires
        forall|i: int| 0 <= i < n ==> #[trigger] y[i] * p == q * x[i],
    ensures
        dot(y, y, n) * (p * p) == (q * q) * dot(x, x, n),
    decreases n,
{
    if n > 0 {
        lemma_dot_scaled(y, x, p, q, (n - 1) as nat);
        let i = n - 1;
        assert(y[i] * p == q * x[i]);
        assert((y[i] * y[i]) * (p * p) == (q * q) * (x[i] * x[i])) by (nonlinear_arith)
            requires
                y[i] * p == q * x[i],
        ;
        let dy = dot(y, y, (n - 1) as nat);
        let dx = dot(x, x, (n - 1) as nat);
        assert((dy + y[i] * y[i]) * (p * p) == dy * (p * p) + (y[i] * y[i]) * (p * p))
            by (nonlinear_arith);
        assert((q * q) * (dx + x[i] * x[i]) == (q * q) * dx + (q * q) * (x[i] * x[i]))
            by (nonlinear_arith);
    }
}

/// The entrywise difference of two vectors, over the entries of the first.
pub open spec fn diff(a: Seq<real>, b: Seq<real>) -> Seq<real> {
    Seq::new(a.len(), |i: int| a[i] - b[i])
}

/// The squared distance of two vectors is the inner product of their
/// difference with itself.
pub proof fn lemma_sq_dist_is_dot(a: Seq<real>, b: Seq<real>, n: nat)
    requires
        n <= a.len(),
    ensures
        sq_dist(a, b, n) == dot(diff(a, b), diff(a, b), n),
    decreases n,
{
    if n > 0 {
        lemma_sq_dist_is_dot(a, b, (n - 1) as nat);
    }
}

/// The inner product is additive in its first argument:
/// `<a, c> - <b, c> = <a - b, c>`.
pub proof fn lemma_dot_diff(a: Seq<real>, b: Seq<real>, c: Seq<real>, n: nat)
    requires
        n <= a.len(),
    ensures
        dot(diff(a, b), c, n) == dot(a, c, n) - dot(b, c, n),
    decreases n,
{
    if n > 0 {
        lemma_dot_diff(a, b, c, (n - 1) as nat);
        let i = n - 1;
        assert((a[i] - b[i]) * c[i] == a[i] * c[i] - b[i] * c[i]) by (nonlinear_arith);
    }
}

/// The square of the norm of `y = d - k c` is
/// `<d, d> - 2 k <d, c> + k^2 <c, c>`.
pub proof fn lemma_dot_shifted_self(y: Seq<real>, d: Seq<real>, c: Seq<real>, k: real, n: nat)
    requires
        forall|i: int| 0 <= i < n ==> #[trigger] y[i] == d[i] - k * c[i],
    ensures
        dot(y, y, n) == dot(d, d, n) - 2real * k * dot(d, c, n) + k * k * dot(c, c, n),
    decreases n,
{
    if n > 0 {
        lemma_dot_shifted_self(y, d, c, k, (n - 1) as nat);
        let i = n - 1;
        assert(y[i] == d[i] - k * c[i]);
        assert(y[i] * y[i] == d[i] * d[i] - 2real * k * (d[i] * c[i]) + k * k * (c[i] * c[i]))
            by (nonlinear_arith)
            requires
                y[i] == d[i] - k * c[i],
        ;
        let dc = dot(d, c, (n - 1) as nat);
        let cc = dot(c, c, (n - 1) as nat);
        assert(2real * k * (dc + d[i] * c[i]) == 2real * k * dc + 2real * k * (d[i] * c[i]))
            by (nonlinear_arith);
        assert(k * k * (cc + c[i] * c[i]) == k * k * cc + k * k * (c[i] * c[i]))
            by (nonlinear_arith);
    }
}

/// An inner product over the first `n` entries depends on those entries
/// only.
pub proof fn lemma_dot_of_prefix(a: Seq<real>, b: Seq<real>, c: Seq<real>, d: Seq<real>, n: nat)
    requires
        forall|i: int| 0 <= i < n ==> #[trigger] a[i] == c[i],
        forall|i: int| 0 <= i < n ==> #[trigger] b[i] == d[i],
    ensures
        dot(a, b, n) == dot(c, d, n),
    decreases n,
{
    if n > 0 {
        lemma_dot_of_prefix(a, b, c, d, (n - 1) as nat);
        assert(a[n - 1] == c[n - 1]);
        assert(b[n - 1] == d[n - 1]);
    }
}

/// The inner product of a vector of zeros with itself is zero.
pub proof fn lemma_dot_of_zeros(a: Seq<real>, n: nat)
    requires
        forall|i: int| 0 <= i < n ==> #[trigger] a[i] == 0real,
    ensures
        dot(a, a, n) == 0real,
    decreases n,
{
    if n > 0 {
        lemma_dot_of_zeros(a, (n - 1) as nat);
        assert(a[n - 1] == 0real);
    }
}

/// A number that is not negative and whose square is `r^2`, for an `r` that
/// is not negative, is `r`.
pub proof fn lemma_root_of_square(v: real, r: real)
    requires
        v >= 0real,
        r >= 0real,
        v * v == r * r,
    ensures
        v == r,
{
    assert(v == r) by (nonlinear_arith)
        requires
            v >= 0real,
            r >= 0real,
            v * v == r * r,
    {
        assert((v - r) * (v + r) == v * v - r * r);
    }
}

/// The inner product is symmetric.
pub proof fn lemma_dot_symmetric(a: Seq<real>, b: Seq<real>, n: nat)
    ensures
        dot(a, b, n) == dot(b, a, n),
    decreases n,
{
    if n > 0 {
        lemma_dot_symmetric(a, b, (n - 1) as nat);
        assert(a[n - 1] * b[n - 1] == b[n - 1] * a[n - 1]) by (nonlinear_arith);
    }
}

/// The inner product with an opposite vector is the opposite inner product.
pub proof fn lemma_dot_opposite(a: Seq<real>, b: Seq<real>, c: Seq<real>, n: nat)
    requires
        forall|i: int| 0 <= i < n ==> #[trigger] c[i] == -b[i],
    ensures
        dot(a, c, n) == -dot(a, b, n),
    decreases n,
{
    if n > 0 {
        lemma_dot_opposite(a, b, c, (n - 1) as nat);
        assert(c[n - 1] == -b[n - 1]);
        assert(a[n - 1] * (-b[n - 1]) == -(a[n - 1] * b[n - 1])) by (nonlinear_arith);
    }
}

/// The inner product of a vector of zeros with any vector is zero.
pub proof fn lemma_dot_with_zeros(a: Seq<real>, b: Seq<real>, n: nat)
    requires
        forall|i: int| 0 <= i < n ==> #[trigger] a[i] == 0real,
    ensures
        dot(a, b, n) == 0real,
    decreases n,
{
    if n > 0 {
        lemma_dot_with_zeros(a, b, (n - 1) as nat);
        assert(a[n - 1] == 0real);
        assert(0real * b[n - 1] == 0real) by (nonlinear_arith);
    }
}

/// A vector whose inner product with itself is zero is zero.
pub proof fn lemma_dot_self_zero(b: Seq<real>, n: nat)
    requires
        dot(b, b, n) == 0real,
    ensures
        forall|i: int| 0 <= i < n ==> #[trigger] b[i] == 0real,
    decreases n,
{
    if n > 0 {
        let x = b[n - 1];
        lemma_dot_self_nonnegative(b, (n - 1) as nat);
        assert(x * x >= 0real) by (nonlinear_arith);
        assert(dot(b, b, (n - 1) as nat) == 0real);
        assert(x * x == 0real);
        assert(x == 0real) by (nonlinear_arith)
            requires
                x * x == 0real,
        ;
        lemma_dot_self_zero(b, (n - 1) as nat);
    }
}

/// The inequality of Cauchy and Schwarz: `<a, b>^2 <= <a, a> <b, b>`.
pub proof fn lemma_cauchy_schwarz(a: Seq<real>, b: Seq<real>, n: nat)
    ensures
        dot(a, b, n) * dot(a, b, n) <= dot(a, a, n) * dot(b, b, n),
{
    let aa = dot(a, a, n);
    let ab = dot(a, b, n);
    let bb = dot(b, b, n);
    lemma_dot_self_nonnegative(a, n);
    lemma_dot_self_nonnegative(b, n);
    if bb > 0real {
        let k = ab / bb;
        assert(k * bb == ab) by (nonlinear_arith)
            requires
                k == ab / bb,
                bb > 0real,
        ;
        let y = Seq::new(n, |i: int| a[i] - k * b[i]);
        lemma_dot_shifted_self(y, a, b, k, n);
        lemma_dot_self_nonnegative(y, n);
        let m = k * ab;
        assert(k * k * bb == m) by (nonlinear_arith)
            requires
                k * bb == ab,
                m == k * ab,
        ;
        assert(2real * k * ab == 2real * m) by (nonlinear_arith)
            requires
                m == k * ab,
        ;
        assert(aa - m >= 0real);
        assert(m * bb == ab * ab) by (nonlinear_arith)
            requires
                k * bb == ab,
                m == k * ab,
        ;
        assert((aa - m) * bb >= 0real) by (nonlinear_arith)
            requires
                aa - m >= 0real,
                bb > 0real,
        ;
        assert((aa - m) * bb == aa * bb - m * bb) by (nonlinear_arith);
    } else {
        lemma_dot_self_zero(b, n);
        lemma_dot_with_zeros(b, a, n);
        lemma_dot_symmetric(a, b, n);
        assert(ab == 0real);
        assert(ab * ab == 0real) by (nonlinear_arith)
            requires
                ab == 0real,
        ;
        assert(aa * bb == 0real) by (nonlinear_arith)
            requires
                bb == 0real,
        ;
    }
}

/// A number whose square does not exceed the square of a number that is not
/// negative does not exceed that number.
pub proof fn lemma_square_le(a: real, b: real)
    requires
        b >= 0real,
        a * a <= b * b,
    ensures
        a <= b,
{
    if a > b {
        assert(a * a > b * b) by (nonlinear_arith)
            requires
                a > b,
                b >= 0real,
        ;
    }
}

/// An inner product does not exceed the product of bounds on the norms:
/// `<a, b> <= p q` where `<a, a> <= p^2` and `<b, b> <= q^2` for `p` and `q`
/// that are not negative.
pub proof fn lemma_dot_bounded(a: Seq<real>, b: Seq<real>, n: nat, p: real, q: real)
    requires
        p >= 0real,
        q >= 0real,
        dot(a, a, n) <= p * p,
        dot(b, b, n) <= q * q,
    ensures
        dot(a, b, n) <= p * q,
{
    let aa = dot(a, a, n);
    let ab = dot(a, b, n);
    let bb = dot(b, b, n);
    let pp = p * p;
    let qq = q * q;
    let pq = p * q;
    lemma_cauchy_schwarz(a, b, n);
    lemma_dot_self_nonnegative(a, n);
    lemma_dot_self_nonnegative(b, n);
    assert(aa * bb <= pp * bb) by (nonlinear_arith)
        requires
            aa <= pp,
            bb >= 0real,
    ;
    assert(pp * bb <= pp * qq) by (nonlinear_arith)
        requires
            bb <= qq,
            pp >= aa,
            aa >= 0real,
    ;
    assert(pq * pq == pp * qq) by (nonlinear_arith)
        requires
            pq == p * q,
            pp == p * p,
            qq == q * q,
    ;
    assert(pq >= 0real) by (nonlinear_arith)
        requires
            pq == p * q,
            p >= 0real,
            q >= 0real,
    ;
    lemma_square_le(ab, pq);
}

/// A map is nonexpansive at `x` and `y` where its values `px` and `py` meet
/// the inequalities of a projection on a convex set:
/// `<x - px, px - py> >= 0` and `<y - py, py - px> >= 0`. Then `px` and `py`
/// are no further apart than `x` and `y`.
pub proof fn lemma_nonexpansive(
    x: Seq<real>,
    y: Seq<real>,
    px: Seq<real>,
    py: Seq<real>,
    n: nat,
)
    requires
        n <= x.len(),
        n <= y.len(),
        n <= px.len(),
        n <= py.len(),
        dot(diff(x, px), diff(px, py), n) >= 0real,
        dot(diff(y, py), diff(py, px), n) >= 0real,
    ensures
        sq_dist(px, py, n) <= sq_dist(x, y, n),
{
    let w = diff(px, py);
    let u = diff(x, y);
    let e1 = diff(x, px);
    let e2 = diff(y, py);
    let e = diff(e1, e2);
    let k = -1real;
    lemma_dot_opposite(e2, w, diff(py, px), n);
    lemma_dot_diff(e1, e2, w, n);
    assert forall|i: int| 0 <= i < n implies #[trigger] u[i] == e[i] - k * w[i] by {
        assert(k * w[i] == -w[i]) by (nonlinear_arith)
            requires
                k == -1real,
        ;
    }
    lemma_dot_shifted_self(u, e, w, k, n);
    lemma_dot_self_nonnegative(e, n);
    lemma_sq_dist_is_dot(px, py, n);
    lemma_sq_dist_is_dot(x, y, n);
    let ee = dot(e, e, n);
    let ew = dot(e, w, n);
    let ww = dot(w, w, n);
    assert(2real * k * ew == -2real * ew) by (nonlinear_arith)
        requires
            k == -1real,
    ;
    assert(k * k * ww == ww) by (nonlinear_arith)
        requires
            k == -1real,
    ;
    assert(ew >= 0real);
}

/// Where `w nd = r d` entry by entry, `<w, g> nd = r <d, g>`.
pub proof fn lemma_dot_scaled_left(
    w: Seq<real>,
    d: Seq<real>,
    g: Seq<real>,
    nd: real,
    r: real,
    n: nat,
)
    requires
        forall|i: int| 0 <= i < n ==> #[trigger] w[i] * nd == r * d[i],
    ensures
        dot(w, g, n) * nd == r * dot(d, g, n),
    decreases n,
{
    if n > 0 {
        lemma_dot_scaled_left(w, d, g, nd, r, (n - 1) as nat);
        let i = n - 1;
        let wg = dot(w, g, (n - 1) as nat);
        let dg = dot(d, g, (n - 1) as nat);
        assert(w[i] * nd == r * d[i]);
        assert((w[i] * g[i]) * nd == r * (d[i] * g[i])) by (nonlinear_arith)
            requires
                w[i] * nd == r * d[i],
        ;
        assert((wg + w[i] * g[i]) * nd == wg * nd + (w[i] * g[i]) * nd) by (nonlinear_arith);
        assert(r * (dg + d[i] * g[i]) == r * dg + r * (d[i] * g[i])) by (nonlinear_arith);
    } else {
        assert(0real * nd == 0real) by (nonlinear_arith);
        assert(r * 0real == 0real) by (nonlinear_arith);
    }
}

/// Where `e h >= rho h` entry by entry, `<e, h> >= rho (h[0] + ... )`.
pub proof fn lemma_dot_lower_bound(e: Seq<real>, h: Seq<real>, rho: real, n: nat)
    requires
        forall|i: int| 0 <= i < n ==> #[trigger] e[i] * h[i] >= rho * h[i],
    ensures
        dot(e, h, n) >= rho * sum(h, n),
    decreases n,
{
    if n > 0 {
        lemma_dot_lower_bound(e, h, rho, (n - 1) as nat);
        let i = n - 1;
        assert(e[i] * h[i] >= rho * h[i]);
        assert(rho * (sum(h, (n - 1) as nat) + h[i]) == rho * sum(h, (n - 1) as nat) + rho * h[i])
            by (nonlinear_arith);
    } else {
        assert(rho * 0real == 0real) by (nonlinear_arith);
    }
}

/// The sum of a difference is the difference of the sums.
pub proof fn lemma_sum_of_diff(a: Seq<real>, b: Seq<real>, n: nat)
    requires
        n <= a.len(),
    ensures
        sum(diff(a, b), n) == sum(a, n) - sum(b, n),
    decreases n,
{
    if n > 0 {
        lemma_sum_of_diff(a, b, (n - 1) as nat);
    }
}

/// The sum of entries that are not negative is the sum of their absolute
/// values.
pub proof fn lemma_sum_of_nonnegative(a: Seq<real>, n: nat)
    requires
        forall|i: int| 0 <= i < n ==> #[trigger] a[i] >= 0real,
    ensures
        sum(a, n) == sum_abs(a, n),
    decreases n,
{
    if n > 0 {
        lemma_sum_of_nonnegative(a, (n - 1) as nat);
        assert(a[n - 1] >= 0real);
    }
}

/// Where `e h >= rho k` entry by entry, `<e, h> >= rho (k[0] + ... )`.
pub proof fn lemma_dot_lower_bound_by(
    e: Seq<real>,
    h: Seq<real>,
    k: Seq<real>,
    rho: real,
    n: nat,
)
    requires
        forall|i: int| 0 <= i < n ==> #[trigger] e[i] * h[i] >= rho * k[i],
    ensures
        dot(e, h, n) >= rho * sum(k, n),
    decreases n,
{
    if n > 0 {
        lemma_dot_lower_bound_by(e, h, k, rho, (n - 1) as nat);
        let i = n - 1;
        assert(e[i] * h[i] >= rho * k[i]);
        assert(rho * (sum(k, (n - 1) as nat) + k[i]) == rho * sum(k, (n - 1) as nat) + rho * k[i])
            by (nonlinear_arith);
    } else {
        assert(rho * 0real == 0real) by (nonlinear_arith);
    }
}

/// The sum of `u[i] - |g[i]|` is the sum of `u` less the sum of the absolute
/// values of `g`.
pub proof fn lemma_sum_against_abs(u: Seq<real>, g: Seq<real>, k: Seq<real>, n: nat)
    requires
        forall|i: int| 0 <= i < n ==> #[trigger] k[i] == u[i] - abs_real(g[i]),
    ensures
        sum(k, n) == sum(u, n) - sum_abs(g, n),
    decreases n,
{
    if n > 0 {
        lemma_sum_against_abs(u, g, k, (n - 1) as nat);
        assert(k[n - 1] == u[n - 1] - abs_real(g[n - 1]));
    }
}

/// The sum of the absolute values depends on the absolute values only.
pub proof fn lemma_sum_abs_same(a: Seq<real>, b: Seq<real>, n: nat)
    requires
        forall|i: int| 0 <= i < n ==> abs_real(#[trigger] a[i]) == abs_real(b[i]),
    ensures
        sum_abs(a, n) == sum_abs(b, n),
    decreases n,
{
    if n > 0 {
        lemma_sum_abs_same(a, b, (n - 1) as nat);
        assert(abs_real(a[n - 1]) == abs_real(b[n - 1]));
    }
}

/// A point `px` is a nearest point to `x` among the points `z` with
/// `<x - px, px - z> >= 0`: it is no further from `x` than `z`.
pub proof fn lemma_nearest(x: Seq<real>, px: Seq<real>, z: Seq<real>, n: nat)
    requires
        n <= x.len(),
        n <= px.len(),
        dot(diff(x, px), diff(px, z), n) >= 0real,
    ensures
        sq_dist(x, px, n) <= sq_dist(x, z, n),
{
    let u = diff(x, z);
    let e = diff(x, px);
    let w = diff(px, z);
    let k = -1real;
    assert forall|i: int| 0 <= i < n implies #[trigger] u[i] == e[i] - k * w[i] by {
        assert(k * w[i] == -w[i]) by (nonlinear_arith)
            requires
                k == -1real,
        ;
    }
    lemma_dot_shifted_self(u, e, w, k, n);
    lemma_dot_self_nonnegative(w, n);
    lemma_sq_dist_is_dot(x, px, n);
    lemma_sq_dist_is_dot(x, z, n);
    let ew = dot(e, w, n);
    let ww = dot(w, w, n);
    assert(2real * k * ew == -2real * ew) by (nonlinear_arith)
        requires
            k == -1real,
    ;
    assert(k * k * ww == ww) by (nonlinear_arith)
        requires
            k == -1real,
    ;
}

} // verus!
