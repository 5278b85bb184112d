//! The number contract of the position algebra, and an exact rational number
//! that meets it.

use vstd::prelude::*;

verus! {

/// What the position algebra asks of a number type: exact field arithmetic
/// and sign tests, each stated over the real number the value stands for.
pub trait PositionNum: Sized {
    /// The real number this value stands for.
    spec fn value(&self) -> real;

    /// The text that shows the number `v` in this type. It depends on the
    /// number alone.
    spec fn text_of(v: real) -> Seq<char>;

    /// The text that shows this value.
    fn to_text(&self) -> (s: String)
        ensures
            s@ == Self::text_of(self.value()),
    ;

    /// The additive identity.
    fn zero() -> (r: Self)
        ensures
            r.value() == 0real,
    ;

    /// The multiplicative identity.
    fn one() -> (r: Self)
        ensures
            r.value() == 1real,
    ;

    /// A copy that stands for the same number.
    fn duplicate(&self) -> (r: Self)
        ensures
            r.value() == self.value(),
    ;

    /// The sum.
    fn add(&self, rhs: &Self) -> (r: Self)
        ensures
            r.value() == self.value() + rhs.value(),
    ;

    /// The difference.
    fn sub(&self, rhs: &Self) -> (r: Self)
        ensures
            r.value() == self.value() - rhs.value(),
    ;

    /// The product.
    fn mul(&self, rhs: &Self) -> (r: Self)
        ensures
            r.value() == self.value() * rhs.value(),
    ;

    /// The exact quotient by a nonzero divisor.
    fn div(&self, rhs: &Self) -> (r: Self)
        requires
            rhs.value() != 0real,
        ensures
            r.value() == self.value() / rhs.value(),
    ;

    /// The additive inverse.
    fn neg(&self) -> (r: Self)
        ensures
            r.value() == -self.value(),
    ;

    /// The absolute value.
    fn abs(&self) -> (r: Self)
        ensures
            r.value() == abs_of(self.value()),
    ;

    /// Whether the number is zero.
    fn is_zero(&self) -> (b: bool)
        ensures
            b == (self.value() == 0real),
    ;

    /// Whether the number is one.
    fn is_one(&self) -> (b: bool)
        ensures
            b == (self.value() == 1real),
    ;

    /// Whether the number is strictly positive.
    fn is_positive(&self) -> (b: bool)
        ensures
            b == (self.value() > 0real),
    ;

    /// Whether the number is strictly negative.
    fn is_negative(&self) -> (b: bool)
        ensures
            b == (self.value() < 0real),
    ;

    /// Whether two values stand for the same number.
    fn equals(&self, other: &Self) -> (b: bool)
        ensures
            b == (self.value() == other.value()),
    ;

    /// Whether this number is at most the other.
    fn at_most(&self, other: &Self) -> (b: bool)
        ensures
            b == (self.value() <= other.value()),
    ;
}

/// The absolute value of a real number.
pub open spec fn abs_of(x: real) -> real {
    if x < 0real {
        -x
    } else {
        x
    }
}

} // verus!
