//! FBS Cache
use crate::engine::opt_float::OptFloat;
use vstd::prelude::*;

verus! {

/// A vector of `n` zeros.
pub fn zeros<T: OptFloat>(n: usize) -> (v: Vec<T>)
    ensures
        v@.len() == n,
        forall|i: int| 0 <= i < n ==> v@[i] == T::zero_spec(),
{
    let mut v: Vec<T> = Vec::with_capacity(n);
    let mut i: usize = 0;
    while i < n
        invariant
            i <= n,
            v@.len() == i,
            forall|j: int| 0 <= j < i ==> v@[j] == T::zero_spec(),
        decreases n - i,
    {
        v.push(T::zero());
        i += 1;
    }
    v
}

/// Cache for the forward-backward splitting (FBS), or projected gradient,
/// algorithm
///
/// This struct allocates memory needed for the FBS algorithm
pub struct FBSCache<T: OptFloat> {
    /// The gradient of the cost at the previous iterate.
    pub work_gradient_u: Vec<T>,
    /// The previous iterate.
    pub work_u_previous: Vec<T>,
    /// The step size.
    pub gamma: T,
    /// The tolerance on the norm of the fixed-point residual.
    pub tolerance: T,
    /// The norm of the fixed-point residual of the last step.
    pub norm_fpr: T,
}

impl<T: OptFloat> FBSCache<T> {
    /// Construct a new instance of `FBSCache`
    ///
    /// ## Arguments
    ///
    /// - `n` dimension of the decision variable
    /// - `gamma` parameter gamma of the algorithm
    /// - `tolerance` tolerance used for termination
    ///
    /// ## Memory allocation
    ///
    /// This method allocates new memory (which it owns, of course). You should
    /// avoid constructing instances of `FBSCache` in a loop or in any way more
    /// than absolutely necessary
    ///
    /// If you need to call an optimizer more than once, perhaps with different
    /// parameters, then construct an `FBSCache` only once
    ///
    /// This method will allocate memory for `2*n + 3` floats
    pub fn new(n: usize, gamma: T, tolerance: T) -> (cache: FBSCache<T>)
        ensures
            cache.work_gradient_u@.len() == n,
            cache.work_u_previous@.len() == n,
            forall|i: int|
                0 <= i < cache.work_gradient_u@.len() ==> cache.work_gradient_u@[i]
                    == T::zero_spec(),
            forall|i: int|
                0 <= i < cache.work_u_previous@.len() ==> cache.work_u_previous@[i]
                    == T::zero_spec(),
            cache.gamma == gamma,
            cache.tolerance == tolerance,
            cache.norm_fpr == T::infinity_spec(),
    {
        FBSCache {
            work_gradient_u: zeros(n),
            work_u_previous: zeros(n),
            gamma,
            tolerance,
            norm_fpr: T::infinity(),
        }
    }
}

} // verus!
