//! The scalars on which the algorithms compute.
//!
//! The algorithms are written once, for every scalar type that offers the
//! arithmetic of [`OptFloat`]. Each operation of the trait comes in two forms:
//! an executable method, and a specification function that names its result.
//! The contracts of the library are stated over the specification functions,
//! so they say which operations are applied to which operands, in which order;
//! they do not say how an operation rounds.
use vstd::prelude::*;

verus! {

/// The floating-point widths for which the tuning constants are calibrated.
#[derive(Clone, Copy, Debug, PartialEq, Eq, Structural)]
pub enum Precision {
    /// 32-bit scalars
    Single,
    /// 64-bit scalars
    Double,
}

/// The tuning constants of the solvers, each an exact decimal fraction
/// `numerator / denominator`.
///
/// They calibrate the numerical tolerances against the machine epsilon of the
/// scalar type, so each precision has its own set.
pub struct TuningConstants {}

impl TuningConstants {
    /// Minimum estimated Lipschitz constant: `1e-10` in double precision,
    /// `8.74e-6` in single precision.
    pub open spec fn min_l_estimate(p: Precision) -> (u64, u64) {
        match p {
            Precision::Single => (874, 100_000_000),
            Precision::Double => (1, 10_000_000_000),
        }
    }

    /// The coefficient of `gamma = coefficient / L`: `0.95`.
    pub open spec fn gamma_l_coeff(p: Precision) -> (u64, u64) {
        (95, 100)
    }

    /// Relative perturbation in the Lipschitz estimation: `1e-12` in double
    /// precision, `1.32e-6` in single precision.
    pub open spec fn delta_lipschitz(p: Precision) -> (u64, u64) {
        match p {
            Precision::Single => (132, 100_000_000),
            Precision::Double => (1, 1_000_000_000_000),
        }
    }

    /// Absolute perturbation in the Lipschitz estimation: `1e-6` in double
    /// precision, `7.32e-4` in single precision.
    pub open spec fn epsilon_lipschitz(p: Precision) -> (u64, u64) {
        match p {
            Precision::Single => (732, 1_000_000),
            Precision::Double => (1, 1_000_000),
        }
    }

    /// Slack of the sufficient-decrease test that updates the Lipschitz
    /// constant: `1e-6` in double precision, `2.62e-4` in single precision.
    pub open spec fn lipschitz_update_epsilon(p: Precision) -> (u64, u64) {
        match p {
            Precision::Single => (262, 1_000_000),
            Precision::Double => (1, 1_000_000),
        }
    }

    /// Largest Lipschitz constant that the solvers accept: `1e9`.
    pub open spec fn max_lipschitz_constant(p: Precision) -> (u64, u64) {
        (1_000_000_000, 1)
    }
}

/// Scalar arithmetic together with the tuning constants of the solvers.
///
/// An implementation promises that every executable method returns the value
/// that its specification function names: each operation is a function of its
/// operands. Nothing else is promised of the arithmetic; in particular it may
/// round, overflow to an infinity or produce a NaN, and comparisons with a NaN
/// may all be false. Scalars that are equal in contracts are the same datum,
/// all NaNs counting as one.
///
/// An implementation in code that is not verified defines each specification
/// function as the operation itself.
pub trait OptFloat: Copy + Sized {
    /// The precision whose tuning constants apply to this type.
    spec fn precision_spec() -> Precision;

    /// Additive identity.
    spec fn zero_spec() -> Self;

    /// Multiplicative identity.
    spec fn one_spec() -> Self;

    /// Positive infinity.
    spec fn infinity_spec() -> Self;

    /// The scalar that stands for the integer `n`.
    spec fn from_u64_spec(n: u64) -> Self;

    /// `self + rhs`
    spec fn add_spec(self, rhs: Self) -> Self;

    /// `self - rhs`
    spec fn sub_spec(self, rhs: Self) -> Self;

    /// `self * rhs`
    spec fn mul_spec(self, rhs: Self) -> Self;

    /// `self / rhs`
    spec fn div_spec(self, rhs: Self) -> Self;

    /// `-self`
    spec fn neg_spec(self) -> Self;

    /// `|self|`
    spec fn abs_spec(self) -> Self;

    /// Square root.
    spec fn sqrt_spec(self) -> Self;

    /// Sign of `self` as a scalar, `1` or `-1`.
    spec fn signum_spec(self) -> Self;

    /// The larger of `self` and `rhs`.
    spec fn max_spec(self, rhs: Self) -> Self;

    /// `self < rhs`
    spec fn lt_spec(self, rhs: Self) -> bool;

    /// `self <= rhs`
    spec fn le_spec(self, rhs: Self) -> bool;

    /// Neither infinite nor NaN.
    spec fn is_finite_spec(self) -> bool;

    /// The precision whose tuning constants apply to this type.
    fn precision() -> (p: Precision)
        ensures
            p == Self::precision_spec(),
    ;

    /// Additive identity.
    fn zero() -> (r: Self)
        ensures
            r == Self::zero_spec(),
    ;

    /// Multiplicative identity.
    fn one() -> (r: Self)
        ensures
            r == Self::one_spec(),
    ;

    /// Positive infinity.
    fn infinity() -> (r: Self)
        ensures
            r == Self::infinity_spec(),
    ;

    /// The scalar that stands for the integer `n`.
    fn from_u64(n: u64) -> (r: Self)
        ensures
            r == Self::from_u64_spec(n),
    ;

    /// `self + rhs`
    fn add(self, rhs: Self) -> (r: Self)
        ensures
            r == self.add_spec(rhs),
    ;

    /// `self - rhs`
    fn sub(self, rhs: Self) -> (r: Self)
        ensures
            r == self.sub_spec(rhs),
    ;

    /// `self * rhs`
    fn mul(self, rhs: Self) -> (r: Self)
        ensures
            r == self.mul_spec(rhs),
    ;

    /// `self / rhs`; a zero divisor is no error.
    fn div(self, rhs: Self) -> (r: Self)
        ensures
            r == self.div_spec(rhs),
    ;

    /// `-self`
    fn neg(self) -> (r: Self)
        ensures
            r == self.neg_spec(),
    ;

    /// `|self|`
    fn abs(self) -> (r: Self)
        ensures
            r == self.abs_spec(),
    ;

    /// Square root.
    fn sqrt(self) -> (r: Self)
        ensures
            r == self.sqrt_spec(),
    ;

    /// Sign of `self` as a scalar.
    fn signum(self) -> (r: Self)
        ensures
            r == self.signum_spec(),
    ;

    /// The larger of `self` and `rhs`.
    fn max(self, rhs: Self) -> (r: Self)
        ensures
            r == self.max_spec(rhs),
    ;

    /// `self < rhs`
    fn lt(self, rhs: Self) -> (b: bool)
        ensures
            b == self.lt_spec(rhs),
    ;

    /// `self <= rhs`
    fn le(self, rhs: Self) -> (b: bool)
        ensures
            b == self.le_spec(rhs),
    ;

    /// Neither infinite nor NaN.
    fn is_finite(self) -> (b: bool)
        ensures
            b == self.is_finite_spec(),
    ;

    /// `self > rhs`
    fn gt(self, rhs: Self) -> (b: bool)
        ensures
            b == rhs.lt_spec(self),
    {
        rhs.lt(self)
    }

    /// `self >= rhs`
    fn ge(self, rhs: Self) -> (b: bool)
        ensures
            b == rhs.le_spec(self),
    {
        rhs.le(self)
    }

    /// `self * self`
    fn square(self) -> (r: Self)
        ensures
            r == self.mul_spec(self),
    {
        self.mul(self)
    }

    /// The quotient of the scalars that stand for `num` and `den`.
    fn ratio(num: u64, den: u64) -> (r: Self)
        ensures
            r == Self::from_u64_spec(num).div_spec(Self::from_u64_spec(den)),
    {
        Self::from_u64(num).div(Self::from_u64(den))
    }

    /// Minimum estimated Lipschitz constant (initial estimate)
    fn min_l_estimate() -> (r: Self)
        ensures
            ({
                let q = TuningConstants::min_l_estimate(Self::precision_spec());
                r == Self::from_u64_spec(q.0).div_spec(Self::from_u64_spec(q.1))
            }),
    {
        match Self::precision() {
            Precision::Single => Self::ratio(874, 100_000_000),
            Precision::Double => Self::ratio(1, 10_000_000_000),
        }
    }

    /// gamma = GAMMA_L_COEFF/L
    fn gamma_l_coeff() -> (r: Self)
        ensures
            ({
                let q = TuningConstants::gamma_l_coeff(Self::precision_spec());
                r == Self::from_u64_spec(q.0).div_spec(Self::from_u64_spec(q.1))
            }),
    {
        Self::ratio(95, 100)
    }

    /// Delta in the estimation of the initial Lipschitz constant
    fn delta_lipschitz() -> (r: Self)
        ensures
            ({
                let q = TuningConstants::delta_lipschitz(Self::precision_spec());
                r == Self::from_u64_spec(q.0).div_spec(Self::from_u64_spec(q.1))
            }),
    {
        match Self::precision() {
            Precision::Single => Self::ratio(132, 100_000_000),
            Precision::Double => Self::ratio(1, 1_000_000_000_000),
        }
    }

    /// Epsilon in the estimation of the initial Lipschitz constant
    fn epsilon_lipschitz() -> (r: Self)
        ensures
            ({
                let q = TuningConstants::epsilon_lipschitz(Self::precision_spec());
                r == Self::from_u64_spec(q.0).div_spec(Self::from_u64_spec(q.1))
            }),
    {
        match Self::precision() {
            Precision::Single => Self::ratio(732, 1_000_000),
            Precision::Double => Self::ratio(1, 1_000_000),
        }
    }

    /// Safety parameter used to check a strict inequality in the update of the
    /// Lipschitz constant
    fn lipschitz_update_epsilon() -> (r: Self)
        ensures
            ({
                let q = TuningConstants::lipschitz_update_epsilon(Self::precision_spec());
                r == Self::from_u64_spec(q.0).div_spec(Self::from_u64_spec(q.1))
            }),
    {
        match Self::precision() {
            Precision::Single => Self::ratio(262, 1_000_000),
            Precision::Double => Self::ratio(1, 1_000_000),
        }
    }

    /// Maximum possible Lipschitz constant
    fn max_lipschitz_constant() -> (r: Self)
        ensures
            ({
                let q = TuningConstants::max_lipschitz_constant(Self::precision_spec());
                r == Self::from_u64_spec(q.0).div_spec(Self::from_u64_spec(q.1))
            }),
    {
        Self::ratio(1_000_000_000, 1)
    }
}

/// `a > b`
pub open spec fn gt_spec<T: OptFloat>(a: T, b: T) -> bool {
    b.lt_spec(a)
}

/// `a >= b`
pub open spec fn ge_spec<T: OptFloat>(a: T, b: T) -> bool {
    b.le_spec(a)
}

/// `a * a`
pub open spec fn square_spec<T: OptFloat>(a: T) -> T {
    a.mul_spec(a)
}

/// The quotient of the scalars that stand for `num` and `den`.
pub open spec fn ratio_spec<T: OptFloat>(num: u64, den: u64) -> T {
    T::from_u64_spec(num).div_spec(T::from_u64_spec(den))
}

/// No scalar is less than itself. The comparison of floating-point numbers
/// has this property.
pub open spec fn lt_is_irreflexive<T: OptFloat>() -> bool {
    forall|a: T| !(#[trigger] a.lt_spec(a))
}

/// A scalar that is at most another one is not greater than it. The
/// comparisons of floating-point numbers have this property.
pub open spec fn le_excludes_gt<T: OptFloat>() -> bool {
    forall|a: T, b: T| #[trigger] a.le_spec(b) ==> !gt_spec(a, b)
}

/// The product of the sign of a scalar and a positive scalar `r` has the
/// absolute value `r`, for a scalar that exceeds `r` in absolute value. The
/// arithmetic of floating-point numbers has this property.
pub open spec fn signs_keep_magnitude<T: OptFloat>() -> bool {
    forall|x: T, r: T|
        gt_spec(x.abs_spec(), r) && gt_spec(r, T::zero_spec()) ==> (
        #[trigger] x.signum_spec().mul_spec(r)).abs_spec() == r
}

} // verus!
