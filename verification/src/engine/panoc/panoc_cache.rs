//! The workspace of PANOC
use crate::engine::fbs::fbs_cache::zeros;
use crate::engine::fbs::fbs_engine::copy_into;
use crate::engine::opt_float::{ge_spec, gt_spec, ratio_spec, square_spec, OptFloat};
use vstd::prelude::*;

verus! {

/// The parameters of the cautious update rule of the limited-memory BFGS
/// buffer.
#[derive(Clone, Copy, Debug)]
pub struct CbfgsParameters<T: OptFloat> {
    /// The exponent of the norm of the gradient.
    pub alpha: T,
    /// The factor of the power of the norm of the gradient.
    pub epsilon: T,
    /// The bound that the inner product of a pair must exceed.
    pub sy_epsilon: T,
}

impl<T: OptFloat> CbfgsParameters<T> {
    /// No parameter is negative.
    pub open spec fn admissible(&self) -> bool {
        &&& ge_spec(self.alpha, T::zero_spec())
        &&& ge_spec(self.epsilon, T::zero_spec())
        &&& ge_spec(self.sy_epsilon, T::zero_spec())
    }

    /// The parameters with which a workspace starts: `alpha = 1`,
    /// `epsilon = 1e-8` and `sy_epsilon = 1e-10`.
    pub open spec fn default_spec() -> Self {
        CbfgsParameters {
            alpha: T::one_spec(),
            epsilon: ratio_spec::<T>(1, 100_000_000),
            sy_epsilon: ratio_spec::<T>(1, 10_000_000_000),
        }
    }

    /// The parameters with which a workspace starts.
    pub fn defaults() -> (p: Self)
        ensures
            p == Self::default_spec(),
    {
        CbfgsParameters {
            alpha: T::one(),
            epsilon: T::ratio(1, 100_000_000),
            sy_epsilon: T::ratio(1, 10_000_000_000),
        }
    }

    /// Whether no parameter is negative.
    pub fn is_admissible(&self) -> (b: bool)
        ensures
            b == self.admissible(),
    {
        self.alpha.ge(T::zero()) && self.epsilon.ge(T::zero()) && self.sy_epsilon.ge(T::zero())
    }
}

/// The sum of the squares of `gamma_fpr[i] + gamma * (df[i] - df_previous[i])`
/// over the first `n` entries, from the left.
pub open spec fn akkt_sum_upto<T: OptFloat>(
    gamma_fpr: Seq<T>,
    df: Seq<T>,
    df_previous: Seq<T>,
    gamma: T,
    n: nat,
) -> T
    decreases n,
{
    if n == 0 {
        T::zero_spec()
    } else {
        akkt_sum_upto(gamma_fpr, df, df_previous, gamma, (n - 1) as nat).add_spec(
            square_spec(
                gamma_fpr[n - 1].add_spec(gamma.mul_spec(df[n - 1].sub_spec(df_previous[n - 1]))),
            ),
        )
    }
}

/// The number of entries that three vectors have in common.
pub open spec fn common_len3<T>(a: Seq<T>, b: Seq<T>, c: Seq<T>) -> nat {
    let ab = if a.len() <= b.len() {
        a.len()
    } else {
        b.len()
    };
    if ab <= c.len() {
        ab
    } else {
        c.len()
    }
}

/// The AKKT residual `||gamma_fpr + gamma * (df - df_previous)||`, over the
/// entries that all three vectors have.
pub open spec fn akkt_residual_spec<T: OptFloat>(
    gamma_fpr: Seq<T>,
    df: Seq<T>,
    df_previous: Seq<T>,
    gamma: T,
) -> T {
    akkt_sum_upto(gamma_fpr, df, df_previous, gamma, common_len3(gamma_fpr, df, df_previous))
        .sqrt_spec()
}

/// Computes the AKKT residual of `gamma_fpr`, the gradient `df` at the
/// updated iterate and the gradient `df_previous` at the current iterate.
pub fn akkt_residual_of<T: OptFloat>(gamma_fpr: &[T], df: &[T], df_previous: &[T], gamma: T) -> (r:
    T)
    ensures
        r == akkt_residual_spec(gamma_fpr@, df@, df_previous@, gamma),
{
    let ab = if gamma_fpr.len() <= df.len() {
        gamma_fpr.len()
    } else {
        df.len()
    };
    let n = if ab <= df_previous.len() {
        ab
    } else {
        df_previous.len()
    };
    let mut sum = T::zero();
    let mut i: usize = 0;
    while i < n
        invariant
            i <= n,
            n == common_len3(gamma_fpr@, df@, df_previous@),
            sum == akkt_sum_upto(gamma_fpr@, df@, df_previous@, gamma, i as nat),
        decreases n - i,
    {
        sum = sum.add(gamma_fpr[i].add(gamma.mul(df[i].sub(df_previous[i]))).square());
        i += 1;
    }
    sum.sqrt()
}

/// Cache for PANOC
///
/// This struct carries all the information needed at every step of the
/// algorithm.
///
/// An instance of `PANOCCache` needs to be allocated once and a (mutable)
/// reference to it should be passed to the optimizer.
#[derive(Debug)]
pub struct PANOCCache<T: OptFloat> {
    /// The number of pairs that the limited-memory BFGS buffer keeps.
    pub lbfgs_memory_size: usize,
    /// The parameters of the cautious update rule of the buffer.
    pub cbfgs: CbfgsParameters<T>,
    /// The gradient of the cost at the current iterate.
    pub gradient_u: Vec<T>,
    /// Stores the gradient of the cost at the previous iteration. This is
    /// an optional field because it is used (and needs to be allocated)
    /// only if we need to check the AKKT-specific termination conditions
    pub gradient_u_previous: Option<Vec<T>>,
    /// The point after a forward-backward step, `proj(u - gamma * df(u))`.
    pub u_half_step: Vec<T>,
    /// The point after a gradient step, `u - gamma * df(u)`.
    pub gradient_step: Vec<T>,
    /// The direction that the buffer gives.
    pub direction_lbfgs: Vec<T>,
    /// The candidate for the next iterate.
    pub u_plus: Vec<T>,
    /// Right-hand side of the line-search test.
    pub rhs_ls: T,
    /// Left-hand side of the line-search test.
    pub lhs_ls: T,
    /// The fixed-point residual times `gamma`, `u - u_half_step`.
    pub gamma_fpr: Vec<T>,
    /// The step size.
    pub gamma: T,
    /// The tolerance on the norm of `gamma_fpr`.
    pub tolerance: T,
    /// The norm of `gamma_fpr`.
    pub norm_gamma_fpr: T,
    /// The line-search parameter.
    pub tau: T,
    /// The estimate of the Lipschitz constant of the gradient.
    pub lipschitz_constant: T,
    /// The constant of the sufficient decrease in the line search.
    pub sigma: T,
    /// The cost at the current iterate.
    pub cost_value: T,
    /// The number of iterations made.
    pub iteration: usize,
    /// The tolerance of the AKKT termination test, if it is active.
    pub akkt_tolerance: Option<T>,
}

impl<T: OptFloat> PANOCCache<T> {
    /// The dimension of the decision variable.
    pub open spec fn problem_size(&self) -> nat {
        self.gradient_u@.len()
    }

    /// Every buffer has the length of the decision variable.
    pub open spec fn wf(&self) -> bool {
        &&& self.u_half_step@.len() == self.problem_size()
        &&& self.gradient_step@.len() == self.problem_size()
        &&& self.direction_lbfgs@.len() == self.problem_size()
        &&& self.u_plus@.len() == self.problem_size()
        &&& self.gamma_fpr@.len() == self.problem_size()
        &&& self.gradient_u_previous matches Some(previous) ==> previous@.len()
            == self.problem_size()
    }

    /// The scalars of a run are at their initial values: all zero, but for
    /// `tau`, which is one.
    pub open spec fn is_reset(&self) -> bool {
        &&& self.lhs_ls == T::zero_spec()
        &&& self.rhs_ls == T::zero_spec()
        &&& self.tau == T::one_spec()
        &&& self.lipschitz_constant == T::zero_spec()
        &&& self.sigma == T::zero_spec()
        &&& self.cost_value == T::zero_spec()
        &&& self.iteration == 0
        &&& self.gamma == T::zero_spec()
    }

    /// The gradient at the previous iteration, where it is kept.
    pub open spec fn previous_gradient(&self) -> Option<Seq<T>> {
        match self.gradient_u_previous {
            Some(previous) => Some(previous@),
            None => None,
        }
    }

    /// A vector of `n` zeros.
    pub open spec fn zero_vector(n: nat) -> Seq<T> {
        Seq::new(n, |i: int| T::zero_spec())
    }

    /// Construct a new instance of `PANOCCache`
    ///
    /// ## Arguments
    ///
    /// - `problem_size` dimension of the decision variables of the
    ///   optimization problem
    /// - `tolerance` specified tolerance
    /// - `lbfgs_memory_size` memory of the LBFGS buffer
    ///
    /// The tolerance must be positive.
    ///
    /// ## Memory allocation
    ///
    /// It allocates six vectors of `problem_size` scalars. The LBFGS buffer,
    /// which is made from `problem_size`, `lbfgs_memory_size` and the
    /// parameters of the cautious update, takes
    /// `2*problem_size + 2*lbfgs_memory_size*problem_size + 2*lbfgs_memory_size`
    /// scalars more.
    pub fn new(problem_size: usize, tolerance: T, lbfgs_memory_size: usize) -> (cache: PANOCCache<
        T,
    >)
        requires
            gt_spec(tolerance, T::zero_spec()),
        ensures
            cache.wf(),
            cache.is_reset(),
            cache.problem_size() == problem_size,
            cache.gradient_u@ == Self::zero_vector(problem_size as nat),
            cache.u_half_step@ == Self::zero_vector(problem_size as nat),
            cache.gamma_fpr@ == Self::zero_vector(problem_size as nat),
            cache.direction_lbfgs@ == Self::zero_vector(problem_size as nat),
            cache.gradient_step@ == Self::zero_vector(problem_size as nat),
            cache.u_plus@ == Self::zero_vector(problem_size as nat),
            cache.gradient_u_previous is None,
            cache.akkt_tolerance is None,
            cache.tolerance == tolerance,
            cache.norm_gamma_fpr == T::infinity_spec(),
            cache.cbfgs == CbfgsParameters::<T>::default_spec(),
            cache.lbfgs_memory_size == lbfgs_memory_size,
    {
        let cbfgs = CbfgsParameters::<T>::defaults();
        let cache = PANOCCache {
            gradient_u: zeros(problem_size),
            gradient_u_previous: None,
            u_half_step: zeros(problem_size),
            gamma_fpr: zeros(problem_size),
            direction_lbfgs: zeros(problem_size),
            gradient_step: zeros(problem_size),
            u_plus: zeros(problem_size),
            gamma: T::zero(),
            tolerance,
            norm_gamma_fpr: T::infinity(),
            lbfgs_memory_size,
            cbfgs,
            lhs_ls: T::zero(),
            rhs_ls: T::zero(),
            tau: T::one(),
            lipschitz_constant: T::zero(),
            sigma: T::zero(),
            cost_value: T::zero(),
            iteration: 0,
            akkt_tolerance: None,
        };
        assert(cache.gradient_u@ =~= Self::zero_vector(problem_size as nat));
        assert(cache.u_half_step@ =~= Self::zero_vector(problem_size as nat));
        assert(cache.gamma_fpr@ =~= Self::zero_vector(problem_size as nat));
        assert(cache.direction_lbfgs@ =~= Self::zero_vector(problem_size as nat));
        assert(cache.gradient_step@ =~= Self::zero_vector(problem_size as nat));
        assert(cache.u_plus@ =~= Self::zero_vector(problem_size as nat));
        cache
    }

    /// Sets the AKKT-specific tolerance and activates the corresponding
    /// termination criterion
    ///
    /// ## Arguments
    ///
    /// - `akkt_tolerance`: Tolerance for the AKKT-specific termination
    ///   condition, which must be positive
    pub fn set_akkt_tolerance(&mut self, akkt_tolerance: T)
        requires
            gt_spec(akkt_tolerance, T::zero_spec()),
        ensures
            final(self).akkt_tolerance == Some(akkt_tolerance),
            final(self).previous_gradient() == Some(
                Self::zero_vector(old(self).gradient_step@.len()),
            ),
            final(self).cbfgs == old(self).cbfgs,
            final(self).lbfgs_memory_size == old(self).lbfgs_memory_size,
            final(self).gradient_u == old(self).gradient_u,
            final(self).u_half_step == old(self).u_half_step,
            final(self).gradient_step == old(self).gradient_step,
            final(self).direction_lbfgs == old(self).direction_lbfgs,
            final(self).u_plus == old(self).u_plus,
            final(self).gamma_fpr == old(self).gamma_fpr,
            final(self).rhs_ls == old(self).rhs_ls,
            final(self).lhs_ls == old(self).lhs_ls,
            final(self).gamma == old(self).gamma,
            final(self).tolerance == old(self).tolerance,
            final(self).norm_gamma_fpr == old(self).norm_gamma_fpr,
            final(self).tau == old(self).tau,
            final(self).lipschitz_constant == old(self).lipschitz_constant,
            final(self).sigma == old(self).sigma,
            final(self).cost_value == old(self).cost_value,
            final(self).iteration == old(self).iteration,
    {
        self.akkt_tolerance = Some(akkt_tolerance);
        let previous = zeros(self.gradient_step.len());
        assert(previous@ =~= Self::zero_vector(self.gradient_step@.len()));
        self.gradient_u_previous = Some(previous);
    }

    /// Copies the value of the current cost gradient to
    /// `gradient_u_previous`, which stores the previous gradient vector. This
    /// is done only from the first iteration on, and only where the AKKT
    /// termination criterion is active.
    pub fn cache_previous_gradient(&mut self)
        requires
            old(self).wf(),
        ensures
            final(self).wf(),
            final(self).previous_gradient() == (if old(self).iteration >= 1
                && old(self).gradient_u_previous is Some {
                Some(old(self).gradient_u@)
            } else {
                old(self).previous_gradient()
            }),
            final(self).akkt_tolerance == old(self).akkt_tolerance,
            final(self).cbfgs == old(self).cbfgs,
            final(self).lbfgs_memory_size == old(self).lbfgs_memory_size,
            final(self).gradient_u == old(self).gradient_u,
            final(self).u_half_step == old(self).u_half_step,
            final(self).gradient_step == old(self).gradient_step,
            final(self).direction_lbfgs == old(self).direction_lbfgs,
            final(self).u_plus == old(self).u_plus,
            final(self).gamma_fpr == old(self).gamma_fpr,
            final(self).rhs_ls == old(self).rhs_ls,
            final(self).lhs_ls == old(self).lhs_ls,
            final(self).gamma == old(self).gamma,
            final(self).tolerance == old(self).tolerance,
            final(self).norm_gamma_fpr == old(self).norm_gamma_fpr,
            final(self).tau == old(self).tau,
            final(self).lipschitz_constant == old(self).lipschitz_constant,
            final(self).sigma == old(self).sigma,
            final(self).cost_value == old(self).cost_value,
            final(self).iteration == old(self).iteration,
    {
        if self.iteration >= 1 {
            if let Some(df_previous) = &mut self.gradient_u_previous {
                copy_into(df_previous, self.gradient_u.as_slice());
            }
        }
    }

    /// The AKKT residual that the workspace holds; zero where the AKKT
    /// termination criterion is not active.
    pub open spec fn akkt_residual_value(&self) -> T {
        match self.gradient_u_previous {
            Some(df_previous) => akkt_residual_spec(
                self.gamma_fpr@,
                self.gradient_u@,
                df_previous@,
                self.gamma,
            ),
            None => T::zero_spec(),
        }
    }

    /// Computes the AKKT residual which is defined as
    /// `||gamma*(fpr + df - df_previous)||`
    pub fn akkt_residual(&self) -> (r: T)
        ensures
            r == self.akkt_residual_value(),
    {
        match &self.gradient_u_previous {
            Some(df_previous) => akkt_residual_of(
                self.gamma_fpr.as_slice(),
                self.gradient_u.as_slice(),
                df_previous.as_slice(),
                self.gamma,
            ),
            None => T::zero(),
        }
    }

    /// The norm of `gamma*FPR` is below `gamma` times the tolerance.
    pub open spec fn fpr_condition(&self) -> bool {
        self.norm_gamma_fpr.lt_spec(self.gamma.mul_spec(self.tolerance))
    }

    /// The AKKT residual is below its tolerance, or the criterion is not
    /// active.
    pub open spec fn akkt_condition(&self) -> bool {
        match self.akkt_tolerance {
            Some(akkt_tol) => self.akkt_residual_value().lt_spec(akkt_tol),
            None => true,
        }
    }

    /// Returns true iff the norm of gamma*FPR is below gamma times the
    /// desired tolerance
    pub fn fpr_exit_condition(&self) -> (b: bool)
        ensures
            b == self.fpr_condition(),
    {
        self.norm_gamma_fpr.lt(self.gamma.mul(self.tolerance))
    }

    /// Checks whether the AKKT-specific termination condition is satisfied
    pub fn akkt_exit_condition(&self) -> (b: bool)
        ensures
            b == self.akkt_condition(),
    {
        match self.akkt_tolerance {
            Some(akkt_tol) => {
                let res = self.akkt_residual();
                res.lt(akkt_tol)
            },
            None => true,
        }
    }

    /// Returns `true` iff all termination conditions are satisfied
    ///
    /// It checks whether:
    ///  - the FPR condition, `gamma*||fpr|| < gamma*epsilon` ,
    ///  - (if activated) the AKKT condition
    ///    `||gamma*fpr + (df - df_prev)|| < eps_akkt`
    /// are satisfied.
    pub fn exit_condition(&self) -> (b: bool)
        ensures
            b == (self.fpr_condition() && self.akkt_condition()),
    {
        self.fpr_exit_condition() && self.akkt_exit_condition()
    }

    /// Resets the cache to its initial virgin state. The LBFGS buffer that
    /// goes with the cache is to be emptied together with it.
    ///
    /// In particular,
    ///
    /// - Sets tau = 1.0
    /// - Sets the iteration count to 0
    /// - Sets the internal variables `lhs_ls`, `rhs_ls`,
    ///   `lipschitz_constant`, `sigma`, `cost_value`
    ///   and `gamma` to 0.0
    pub fn reset(&mut self)
        ensures
            final(self).is_reset(),
            final(self).cbfgs == old(self).cbfgs,
            final(self).lbfgs_memory_size == old(self).lbfgs_memory_size,
            final(self).gradient_u == old(self).gradient_u,
            final(self).previous_gradient() == old(self).previous_gradient(),
            final(self).u_half_step == old(self).u_half_step,
            final(self).gradient_step == old(self).gradient_step,
            final(self).direction_lbfgs == old(self).direction_lbfgs,
            final(self).u_plus == old(self).u_plus,
            final(self).gamma_fpr == old(self).gamma_fpr,
            final(self).tolerance == old(self).tolerance,
            final(self).norm_gamma_fpr == old(self).norm_gamma_fpr,
            final(self).akkt_tolerance == old(self).akkt_tolerance,
    {
        self.lhs_ls = T::zero();
        self.rhs_ls = T::zero();
        self.tau = T::one();
        self.lipschitz_constant = T::zero();
        self.sigma = T::zero();
        self.cost_value = T::zero();
        self.iteration = 0;
        self.gamma = T::zero();
    }

    /// Sets the CBFGS parameters `alpha` and `epsilon`
    ///
    /// Read more in: D.-H. Li and M. Fukushima, "On the global convergence of
    /// the BFGS method for nonconvex unconstrained optimization problems,"
    /// vol. 11, no. 4, pp. 1054-1064, jan 2001.
    ///
    /// ## Arguments
    ///
    /// - alpha
    /// - epsilon
    /// - sy_epsilon
    ///
    /// The buffer accepts them if none of them is negative, see
    /// [`CbfgsParameters::is_admissible`].
    pub fn with_cbfgs_parameters(self, alpha: T, epsilon: T, sy_epsilon: T) -> (cache: Self)
        ensures
            cache.cbfgs == (CbfgsParameters { alpha, epsilon, sy_epsilon }),
            cache.lbfgs_memory_size == self.lbfgs_memory_size,
            cache.gradient_u == self.gradient_u,
            cache.previous_gradient() == self.previous_gradient(),
            cache.u_half_step == self.u_half_step,
            cache.gradient_step == self.gradient_step,
            cache.direction_lbfgs == self.direction_lbfgs,
            cache.u_plus == self.u_plus,
            cache.gamma_fpr == self.gamma_fpr,
            cache.rhs_ls == self.rhs_ls,
            cache.lhs_ls == self.lhs_ls,
            cache.gamma == self.gamma,
            cache.tolerance == self.tolerance,
            cache.norm_gamma_fpr == self.norm_gamma_fpr,
            cache.tau == self.tau,
            cache.lipschitz_constant == self.lipschitz_constant,
            cache.sigma == self.sigma,
            cache.cost_value == self.cost_value,
            cache.iteration == self.iteration,
            cache.akkt_tolerance == self.akkt_tolerance,
    {
        let mut cache = self;
        cache.cbfgs = CbfgsParameters { alpha, epsilon, sy_epsilon };
        cache
    }
}

} // verus!
