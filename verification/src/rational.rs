//! An exact rational number of arbitrary precision.

use vstd::prelude::*;
use crate::num::{abs_of, PositionNum};

verus! {

/// `num_rational::Ratio`, the ratio of two integers.
#[verifier::external_type_specification]
#[verifier::external_body]
#[verifier::reject_recursive_types(T)]
pub struct ExRatio<T>(num_rational::Ratio<T>);

/// `num_bigint::BigInt`, an integer of any size.
#[verifier::external_type_specification]
#[verifier::external_body]
pub struct ExBigInt(num_bigint::BigInt);

/// `num_rational::ParseRatioError`, the error of reading a ratio from a
/// text.
#[verifier::external_type_specification]
#[verifier::external_body]
pub struct ExParseRatioError(num_rational::ParseRatioError);

/// The rational number that a ratio with a nonzero denominator stands for:
/// its numerator divided by its denominator.
pub uninterp spec fn ratio_value(r: num_rational::Ratio<num_bigint::BigInt>) -> real;

/// The text of a rational number in lowest terms: the numerator, and after a
/// `/` the denominator where that is not one.
pub uninterp spec fn rational_text(v: real) -> Seq<char>;

/// The number that a text reads as, or nothing for a text that reads as
/// none: what the parser of ratios makes of `numer/denom` or just `numer`.
pub uninterp spec fn rational_of_text(s: Seq<char>) -> Option<real>;

/// An exact rational number. Its arithmetic never rounds and never overflows.
///
/// The ratio inside is always in lowest terms with a positive denominator:
/// it is made by `Ratio::new`, `Ratio::from_integer` and the arithmetic of
/// `Ratio` only, never by `Ratio::new_raw`. The text of a number rests on
/// that.
#[derive(Debug)]
pub struct Rational {
    inner: num_rational::Ratio<num_bigint::BigInt>,
}

/// `Ratio::from_integer` on a `BigInt` made from `n`: the ratio `n / 1`.
#[verifier::external_body]
fn ratio_from_integer(n: i64) -> (r: Rational)
    ensures
        ratio_value(r.inner) == n as real,
{
    Rational { inner: num_rational::Ratio::from_integer(num_bigint::BigInt::from(n)) }
}

/// `Ratio::new` on two `BigInt`s made from `numer` and `denom`: the reduced
/// ratio `numer / denom`. It panics on a zero denominator, which the
/// precondition leaves out.
#[verifier::external_body]
fn ratio_new(numer: i64, denom: i64) -> (r: Rational)
    requires
        denom != 0,
    ensures
        ratio_value(r.inner) == numer as real / denom as real,
{
    Rational {
        inner: num_rational::Ratio::new(
            num_bigint::BigInt::from(numer),
            num_bigint::BigInt::from(denom),
        ),
    }
}

/// `Zero::zero` of `Ratio`: the ratio `0 / 1`.
#[verifier::external_body]
fn ratio_zero() -> (r: Rational)
    ensures
        ratio_value(r.inner) == 0real,
{
    Rational { inner: num_traits::Zero::zero() }
}

/// `One::one` of `Ratio`: the ratio `1 / 1`.
#[verifier::external_body]
fn ratio_one() -> (r: Rational)
    ensures
        ratio_value(r.inner) == 1real,
{
    Rational { inner: num_traits::One::one() }
}

/// `Clone::clone` of `Ratio`: the same numerator and denominator.
#[verifier::external_body]
fn ratio_clone(a: &Rational) -> (r: Rational)
    ensures
        ratio_value(r.inner) == ratio_value(a.inner),
{
    Rational { inner: a.inner.clone() }
}

/// `Add::add` of `Ratio`: the exact sum, reduced.
#[verifier::external_body]
fn ratio_add(a: &Rational, b: &Rational) -> (r: Rational)
    ensures
        ratio_value(r.inner) == ratio_value(a.inner) + ratio_value(b.inner),
{
    Rational { inner: &a.inner + &b.inner }
}

/// `Sub::sub` of `Ratio`: the exact difference, reduced.
#[verifier::external_body]
fn ratio_sub(a: &Rational, b: &Rational) -> (r: Rational)
    ensures
        ratio_value(r.inner) == ratio_value(a.inner) - ratio_value(b.inner),
{
    Rational { inner: &a.inner - &b.inner }
}

/// `Mul::mul` of `Ratio`: the exact product, reduced.
#[verifier::external_body]
fn ratio_mul(a: &Rational, b: &Rational) -> (r: Rational)
    ensures
        ratio_value(r.inner) == ratio_value(a.inner) * ratio_value(b.inner),
{
    Rational { inner: &a.inner * &b.inner }
}

/// `Div::div` of `Ratio`: the exact quotient, reduced. It panics on a zero
/// divisor, which the precondition leaves out.
#[verifier::external_body]
fn ratio_div(a: &Rational, b: &Rational) -> (r: Rational)
    requires
        ratio_value(b.inner) != 0real,
    ensures
        ratio_value(r.inner) == ratio_value(a.inner) / ratio_value(b.inner),
{
    Rational { inner: &a.inner / &b.inner }
}

/// `Neg::neg` of `Ratio`: the numerator negated.
#[verifier::external_body]
fn ratio_neg(a: &Rational) -> (r: Rational)
    ensures
        ratio_value(r.inner) == -ratio_value(a.inner),
{
    Rational { inner: -&a.inner }
}

/// `Signed::abs` of `Ratio`: the negation of a negative ratio, else the ratio
/// itself.
#[verifier::external_body]
fn ratio_abs(a: &Rational) -> (r: Rational)
    ensures
        ratio_value(r.inner) == abs_of(ratio_value(a.inner)),
{
    Rational { inner: num_traits::Signed::abs(&a.inner) }
}

/// `Zero::is_zero` of `Ratio`: whether the numerator is zero.
#[verifier::external_body]
fn ratio_is_zero(a: &Rational) -> (b: bool)
    ensures
        b == (ratio_value(a.inner) == 0real),
{
    num_traits::Zero::is_zero(&a.inner)
}

/// `One::is_one` of `Ratio`: whether numerator and denominator are equal.
#[verifier::external_body]
fn ratio_is_one(a: &Rational) -> (b: bool)
    ensures
        b == (ratio_value(a.inner) == 1real),
{
    num_traits::One::is_one(&a.inner)
}

/// `Signed::is_positive` of `Ratio`: whether numerator and denominator have
/// the same sign.
#[verifier::external_body]
fn ratio_is_positive(a: &Rational) -> (b: bool)
    ensures
        b == (ratio_value(a.inner) > 0real),
{
    num_traits::Signed::is_positive(&a.inner)
}

/// `Signed::is_negative` of `Ratio`: whether numerator and denominator have
/// opposite signs.
#[verifier::external_body]
fn ratio_is_negative(a: &Rational) -> (b: bool)
    ensures
        b == (ratio_value(a.inner) < 0real),
{
    num_traits::Signed::is_negative(&a.inner)
}

/// `PartialEq::eq` of `Ratio`: whether the two stand for the same number,
/// whatever their numerators and denominators.
#[verifier::external_body]
fn ratio_eq(a: &Rational, c: &Rational) -> (b: bool)
    ensures
        b == (ratio_value(a.inner) == ratio_value(c.inner)),
{
    a.inner == c.inner
}

/// `PartialOrd::le` of `Ratio`: the order of the two numbers.
#[verifier::external_body]
fn ratio_le(a: &Rational, c: &Rational) -> (b: bool)
    ensures
        b == (ratio_value(a.inner) <= ratio_value(c.inner)),
{
    a.inner <= c.inner
}

/// `ToString::to_string` of `Ratio`, which writes the numerator and, where
/// the denominator is not one, a `/` and the denominator. Every ratio held
/// in a `Rational` is in lowest terms with a positive denominator, as
/// `Ratio::new` and the arithmetic of `Ratio` leave it, so the text depends
/// on the number alone.
#[verifier::external_body]
fn ratio_to_string(a: &Rational) -> (r: String)
    ensures
        r@ == rational_text(ratio_value(a.inner)),
{
    a.inner.to_string()
}

/// `FromStr::from_str` of `Ratio`, which reads `numer/denom` or just
/// `numer`, each as a `BigInt`, and refuses a text that is neither and a
/// zero denominator.
#[verifier::external_body]
fn ratio_from_str(s: &str) -> (r: Result<Rational, num_rational::ParseRatioError>)
    ensures
        match r {
            Ok(x) => rational_of_text(s@) == Some(ratio_value(x.inner)),
            Err(_) => rational_of_text(s@).is_none(),
        },
{
    match s.parse::<num_rational::Ratio<num_bigint::BigInt>>() {
        Ok(inner) => Ok(Rational { inner }),
        Err(e) => Err(e),
    }
}

impl Rational {
    /// The number that the text reads as, if it reads as one: an integer, or
    /// a fraction written as `numer/denom`.
    pub fn parse(text: &str) -> (r: Option<Self>)
        ensures
            match r {
                Some(x) => rational_of_text(text@) == Some(x.value()),
                None => rational_of_text(text@).is_none(),
            },
    {
        match ratio_from_str(text) {
            Ok(x) => Some(x),
            Err(_) => None,
        }
    }

    /// The integer `n`.
    pub fn from_integer(n: i64) -> (r: Self)
        ensures
            r.value() == n as real,
    {
        ratio_from_integer(n)
    }

    /// The fraction `numer / denom`, or nothing when `denom` is zero.
    pub fn new(numer: i64, denom: i64) -> (r: Option<Self>)
        ensures
            denom == 0 <==> r.is_none(),
            denom != 0 ==> r.unwrap().value() == numer as real / denom as real,
    {
        if denom == 0 {
            None
        } else {
            Some(ratio_new(numer, denom))
        }
    }
}

impl Clone for Rational {
    fn clone(&self) -> (r: Self)
        ensures
            r.value() == self.value(),
    {
        ratio_clone(self)
    }
}

impl PartialEq for Rational {
    /// Equality of the two numbers.
    fn eq(&self, other: &Self) -> (b: bool) {
        ratio_eq(self, other)
    }
}

impl vstd::std_specs::cmp::PartialEqSpecImpl for Rational {
    open spec fn obeys_eq_spec() -> bool {
        true
    }

    open spec fn eq_spec(&self, other: &Self) -> bool {
        self.value() == other.value()
    }
}

impl PositionNum for Rational {
    closed spec fn value(&self) -> real {
        ratio_value(self.inner)
    }

    open spec fn text_of(v: real) -> Seq<char> {
        rational_text(v)
    }

    fn to_text(&self) -> (s: String) {
        ratio_to_string(self)
    }

    fn zero() -> (r: Self) {
        ratio_zero()
    }

    fn one() -> (r: Self) {
        ratio_one()
    }

    fn duplicate(&self) -> (r: Self) {
        ratio_clone(self)
    }

    fn add(&self, rhs: &Self) -> (r: Self) {
        ratio_add(self, rhs)
    }

    fn sub(&self, rhs: &Self) -> (r: Self) {
        ratio_sub(self, rhs)
    }

    fn mul(&self, rhs: &Self) -> (r: Self) {
        ratio_mul(self, rhs)
    }

    fn div(&self, rhs: &Self) -> (r: Self) {
        ratio_div(self, rhs)
    }

    fn neg(&self) -> (r: Self) {
        ratio_neg(self)
    }

    fn abs(&self) -> (r: Self) {
        ratio_abs(self)
    }

    fn is_zero(&self) -> (b: bool) {
        ratio_is_zero(self)
    }

    fn is_one(&self) -> (b: bool) {
        ratio_is_one(self)
    }

    fn is_positive(&self) -> (b: bool) {
        ratio_is_positive(self)
    }

    fn is_negative(&self) -> (b: bool) {
        ratio_is_negative(self)
    }

    fn equals(&self, other: &Self) -> (b: bool) {
        ratio_eq(self, other)
    }

    fn at_most(&self, other: &Self) -> (b: bool) {
        ratio_le(self, other)
    }
}

} // verus!
