//! The real numbers the simulation computes with.

use vstd::prelude::*;

verus! {

/// A real number type with the operations the simulation needs.
///
/// The methods carry no contract: an implementation is free to round, to
/// overflow to infinity or to produce a not-a-number. What the rest of the
/// crate proves about a computed value is therefore always of the shape
/// "this value is what `plus` returned for these operands", expressed by the
/// predicates below.
pub trait Scalar: Copy {
    /// The additive identity.
    fn zero() -> Self;

    /// The multiplicative identity.
    fn one() -> Self;

    /// `self + rhs`.
    fn plus(self, rhs: Self) -> Self;

    /// `self - rhs`.
    fn minus(self, rhs: Self) -> Self;

    /// `self * rhs`.
    fn times(self, rhs: Self) -> Self;

    /// `self / rhs`.
    fn over(self, rhs: Self) -> Self;

    /// The non-negative square root of `self`.
    fn root(self) -> Self;

    /// Whether `self` is not a number.
    fn is_nan(self) -> bool;

    /// Whether `self` is strictly greater than zero.
    fn is_positive(self) -> bool;
}

/// Reals that have a wider kind of reals to compute intermediate results
/// in.
///
/// As with `Scalar`, the methods carry no contract: whether widening is
/// exact and how narrowing rounds is up to the implementation.
pub trait Widen: Scalar {
    /// The wider reals.
    type Wide: Scalar;

    /// `self` as a wider real.
    fn widen(self) -> Self::Wide;

    /// `wide` as a real of this kind.
    fn narrow(wide: Self::Wide) -> Self;
}

/// `r` is a value `a.widen()` returns.
pub open spec fn is_widened<S: Widen>(a: S, r: S::Wide) -> bool {
    call_ensures(S::widen, (a,), r)
}

/// `r` is a value `Widen::narrow(a)` returns.
pub open spec fn is_narrowed<S: Widen>(a: S::Wide, r: S) -> bool {
    call_ensures(S::narrow, (a,), r)
}

/// `r` is a value `Scalar::zero` returns.
pub open spec fn is_zero<S: Scalar>(r: S) -> bool {
    call_ensures(S::zero, (), r)
}

/// `r` is a value `Scalar::one` returns.
pub open spec fn is_one<S: Scalar>(r: S) -> bool {
    call_ensures(S::one, (), r)
}

/// `r` is a value `a.plus(b)` returns.
pub open spec fn is_sum<S: Scalar>(a: S, b: S, r: S) -> bool {
    call_ensures(S::plus, (a, b), r)
}

/// `r` is a value `a.minus(b)` returns.
pub open spec fn is_difference<S: Scalar>(a: S, b: S, r: S) -> bool {
    call_ensures(S::minus, (a, b), r)
}

/// `r` is a value `a.times(b)` returns.
pub open spec fn is_product<S: Scalar>(a: S, b: S, r: S) -> bool {
    call_ensures(S::times, (a, b), r)
}

/// `r` is a value `a.over(b)` returns.
pub open spec fn is_quotient<S: Scalar>(a: S, b: S, r: S) -> bool {
    call_ensures(S::over, (a, b), r)
}

/// `r` is a value `a.root()` returns.
pub open spec fn is_root<S: Scalar>(a: S, r: S) -> bool {
    call_ensures(S::root, (a,), r)
}

/// `r` is an answer `a.is_nan()` gives.
pub open spec fn nan_test<S: Scalar>(a: S, r: bool) -> bool {
    call_ensures(S::is_nan, (a,), r)
}

/// `r` is an answer `a.is_positive()` gives.
pub open spec fn positive_test<S: Scalar>(a: S, r: bool) -> bool {
    call_ensures(S::is_positive, (a,), r)
}

} // verus!
