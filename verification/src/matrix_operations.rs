//! Norms and inner products of vectors
use crate::engine::opt_float::{square_spec, OptFloat};
use vstd::prelude::*;

verus! {

/// The sum `a[0]*b[0] + ... + a[n-1]*b[n-1]`, accumulated from the left,
/// starting at zero.
pub open spec fn inner_product_upto<T: OptFloat>(a: Seq<T>, b: Seq<T>, n: nat) -> T
    decreases n,
{
    if n == 0 {
        T::zero_spec()
    } else {
        inner_product_upto(a, b, (n - 1) as nat).add_spec(a[n - 1].mul_spec(b[n - 1]))
    }
}

/// Inner product of two vectors of one length.
pub open spec fn inner_product_spec<T: OptFloat>(a: Seq<T>, b: Seq<T>) -> T {
    inner_product_upto(a, b, a.len())
}

/// Sum of the absolute values of the first `n` entries, from the left.
pub open spec fn norm1_upto<T: OptFloat>(a: Seq<T>, n: nat) -> T
    decreases n,
{
    if n == 0 {
        T::zero_spec()
    } else {
        norm1_upto(a, (n - 1) as nat).add_spec(a[n - 1].abs_spec())
    }
}

/// The 1-norm of a vector.
pub open spec fn norm1_spec<T: OptFloat>(a: Seq<T>) -> T {
    norm1_upto(a, a.len())
}

/// Squared Euclidean norm of a vector.
pub open spec fn norm2_squared_spec<T: OptFloat>(a: Seq<T>) -> T {
    inner_product_upto(a, a, a.len())
}

/// Euclidean norm of a vector.
pub open spec fn norm2_spec<T: OptFloat>(a: Seq<T>) -> T {
    norm2_squared_spec(a).sqrt_spec()
}

/// Sum of the squares of `a[i] - b[i]` over the first `n` entries, from the
/// left.
pub open spec fn norm2_squared_diff_upto<T: OptFloat>(a: Seq<T>, b: Seq<T>, n: nat) -> T
    decreases n,
{
    if n == 0 {
        T::zero_spec()
    } else {
        norm2_squared_diff_upto(a, b, (n - 1) as nat).add_spec(
            square_spec(a[n - 1].sub_spec(b[n - 1])),
        )
    }
}

/// The number of entries that two vectors have in common.
pub open spec fn common_len<T>(a: Seq<T>, b: Seq<T>) -> nat {
    if a.len() <= b.len() {
        a.len()
    } else {
        b.len()
    }
}

/// Squared Euclidean distance of two vectors, over the entries that both
/// have.
pub open spec fn norm2_squared_diff_spec<T: OptFloat>(a: Seq<T>, b: Seq<T>) -> T {
    norm2_squared_diff_upto(a, b, common_len(a, b))
}

/// The running maximum of `|a[i] - b[i]|` over the first `n` entries, from the
/// left, starting at zero.
pub open spec fn norm_inf_diff_upto<T: OptFloat>(a: Seq<T>, b: Seq<T>, n: nat) -> T
    decreases n,
{
    if n == 0 {
        T::zero_spec()
    } else {
        a[n - 1].sub_spec(b[n - 1]).abs_spec().max_spec(
            norm_inf_diff_upto(a, b, (n - 1) as nat),
        )
    }
}

/// Infinity norm of the difference of two vectors of one length.
pub open spec fn norm_inf_diff_spec<T: OptFloat>(a: Seq<T>, b: Seq<T>) -> T {
    norm_inf_diff_upto(a, b, a.len())
}

/// Every entry is finite.
pub open spec fn is_finite_spec<T: OptFloat>(a: Seq<T>) -> bool {
    forall|i: int| 0 <= i < a.len() ==> (#[trigger] a[i]).is_finite_spec()
}

/// Computes the inner product of two vectors
pub fn inner_product<T: OptFloat>(a: &[T], b: &[T]) -> (r: T)
    requires
        a@.len() == b@.len(),
    ensures
        r == inner_product_spec(a@, b@),
{
    let n = a.len();
    let mut acc = T::zero();
    let mut i: usize = 0;
    while i < n
        invariant
            i <= n,
            n == a@.len(),
            n == b@.len(),
            acc == inner_product_upto(a@, b@, i as nat),
        decreases n - i,
    {
        acc = acc.add(a[i].mul(b[i]));
        i += 1;
    }
    acc
}

/// Computes the 1-norm of a vector
pub fn norm1<T: OptFloat>(a: &[T]) -> (r: T)
    ensures
        r == norm1_spec(a@),
{
    let n = a.len();
    let mut acc = T::zero();
    let mut i: usize = 0;
    while i < n
        invariant
            i <= n,
            n == a@.len(),
            acc == norm1_upto(a@, i as nat),
        decreases n - i,
    {
        acc = acc.add(a[i].abs());
        i += 1;
    }
    acc
}

/// Computes the squared Euclidean norm of a vector
pub fn norm2_squared<T: OptFloat>(a: &[T]) -> (r: T)
    ensures
        r == norm2_squared_spec(a@),
{
    let n = a.len();
    let mut acc = T::zero();
    let mut i: usize = 0;
    while i < n
        invariant
            i <= n,
            n == a@.len(),
            acc == inner_product_upto(a@, a@, i as nat),
        decreases n - i,
    {
        acc = acc.add(a[i].mul(a[i]));
        i += 1;
    }
    acc
}

/// Computes the Euclidean norm of a vector
pub fn norm2<T: OptFloat>(a: &[T]) -> (r: T)
    ensures
        r == norm2_spec(a@),
{
    norm2_squared(a).sqrt()
}

/// Computes the squared Euclidean distance of two vectors, over the entries
/// that both have
pub fn norm2_squared_diff<T: OptFloat>(a: &[T], b: &[T]) -> (r: T)
    ensures
        r == norm2_squared_diff_spec(a@, b@),
{
    let n = if a.len() <= b.len() {
        a.len()
    } else {
        b.len()
    };
    let mut acc = T::zero();
    let mut i: usize = 0;
    while i < n
        invariant
            i <= n,
            n <= a@.len(),
            n <= b@.len(),
            acc == norm2_squared_diff_upto(a@, b@, i as nat),
        decreases n - i,
    {
        acc = acc.add(a[i].sub(b[i]).square());
        i += 1;
    }
    acc
}

/// Computes the infinity norm of the difference of two vectors
pub fn norm_inf_diff<T: OptFloat>(a: &[T], b: &[T]) -> (r: T)
    requires
        a@.len() == b@.len(),
    ensures
        r == norm_inf_diff_spec(a@, b@),
{
    let n = a.len();
    let mut acc = T::zero();
    let mut i: usize = 0;
    while i < n
        invariant
            i <= n,
            n == a@.len(),
            n == b@.len(),
            acc == norm_inf_diff_upto(a@, b@, i as nat),
        decreases n - i,
    {
        acc = a[i].sub(b[i]).abs().max(acc);
        i += 1;
    }
    acc
}

/// Checks whether all entries of a vector are finite
pub fn is_finite<T: OptFloat>(a: &[T]) -> (b: bool)
    ensures
        b == is_finite_spec(a@),
{
    let n = a.len();
    let mut i: usize = 0;
    while i < n
        invariant
            i <= n,
            n == a@.len(),
            forall|j: int| 0 <= j < i ==> (#[trigger] a@[j]).is_finite_spec(),
        decreases n - i,
    {
        if !a[i].is_finite() {
            return false;
        }
        i += 1;
    }
    true
}

} // verus!
