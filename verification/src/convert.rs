//! What can be read as a holding: a holding itself, a bare value, a price
//! with a size, a price with a size and a value, and any of these quoted in
//! reversed form.

use vstd::prelude::*;
use crate::holding::{reversed, Holding};
use crate::naive_position::NaivePosition;
use crate::num::PositionNum;

verus! {

/// The error of reading a holding in reversed form whose price is zero: such
/// a price has no inverse.
#[derive(Debug, Clone, Copy, PartialEq, Eq)]
pub struct InvalidReversedPrice;

/// A holding in reversed form: its price is the inverse of the canonical
/// price and its size the negation of the canonical size.
#[derive(Debug)]
pub struct Reversed<P>(pub P);

/// Types that convert into a [`NaivePosition`].
pub trait IntoNaivePosition<T: PositionNum>: Sized {
    /// The holding this converts to, or nothing when it has none.
    spec fn holding(&self) -> Option<Holding>;

    /// Converts into a holding in canonical form.
    fn into_naive(self) -> (r: Result<NaivePosition<T>, InvalidReversedPrice>)
        ensures
            match r {
                Ok(p) => self.holding() == Some(p@),
                Err(_) => self.holding().is_none(),
            },
    ;

    /// Marks this as quoted in reversed form.
    fn reversed(self) -> (r: Reversed<Self>)
        ensures
            r.0 == self,
    {
        Reversed(self)
    }
}

/// Types that convert to a [`NaivePosition`] by reference.
pub trait ToNaivePosition<T: PositionNum> {
    /// The holding this converts to, or nothing when it has none.
    spec fn as_holding(&self) -> Option<Holding>;

    /// Converts to a holding in canonical form.
    fn to_naive(&self) -> (r: Result<NaivePosition<T>, InvalidReversedPrice>)
        ensures
            match r {
                Ok(p) => self.as_holding() == Some(p@),
                Err(_) => self.as_holding().is_none(),
            },
    ;
}

impl<T: PositionNum> IntoNaivePosition<T> for NaivePosition<T> {
    open spec fn holding(&self) -> Option<Holding> {
        Some(self@)
    }

    fn into_naive(self) -> (r: Result<NaivePosition<T>, InvalidReversedPrice>) {
        Ok(self)
    }
}

impl<T: PositionNum> IntoNaivePosition<T> for (T, T, T) {
    open spec fn holding(&self) -> Option<Holding> {
        Some(Holding { price: self.0.value(), size: self.1.value(), value: self.2.value() })
    }

    fn into_naive(self) -> (r: Result<NaivePosition<T>, InvalidReversedPrice>) {
        Ok(NaivePosition { price: self.0, size: self.1, value: self.2 })
    }
}

impl<T: PositionNum> IntoNaivePosition<T> for (T, T) {
    open spec fn holding(&self) -> Option<Holding> {
        Some(Holding { price: self.0.value(), size: self.1.value(), value: 0real })
    }

    fn into_naive(self) -> (r: Result<NaivePosition<T>, InvalidReversedPrice>) {
        Ok(NaivePosition { price: self.0, size: self.1, value: T::zero() })
    }
}

impl<T: PositionNum> IntoNaivePosition<T> for T {
    open spec fn holding(&self) -> Option<Holding> {
        Some(Holding { price: 1real, size: 0real, value: self.value() })
    }

    fn into_naive(self) -> (r: Result<NaivePosition<T>, InvalidReversedPrice>) {
        Ok(NaivePosition { price: T::one(), size: T::zero(), value: self })
    }
}

impl<T: PositionNum, P: IntoNaivePosition<T>> IntoNaivePosition<T> for Reversed<P> {
    open spec fn holding(&self) -> Option<Holding> {
        match self.0.holding() {
            Some(h) => reversed(h),
            None => None,
        }
    }

    fn into_naive(self) -> (r: Result<NaivePosition<T>, InvalidReversedPrice>) {
        match self.0.into_naive() {
            Ok(p) => reverse(p),
            Err(e) => Err(e),
        }
    }
}

/// Reads a holding quoted in reversed form: the canonical price is the
/// inverse of its price and the canonical size the negation of its size. A
/// zero price is refused.
pub fn reverse<T: PositionNum>(p: NaivePosition<T>) -> (r: Result<
    NaivePosition<T>,
    InvalidReversedPrice,
>)
    ensures
        match r {
            Ok(q) => reversed(p@) == Some(q@),
            Err(_) => p@.price == 0real,
        },
{
    if p.price.is_zero() {
        Err(InvalidReversedPrice)
    } else {
        Ok(NaivePosition { price: T::one().div(&p.price), size: p.size.neg(), value: p.value })
    }
}

impl<T: PositionNum> ToNaivePosition<T> for NaivePosition<T> {
    open spec fn as_holding(&self) -> Option<Holding> {
        Some(self@)
    }

    fn to_naive(&self) -> (r: Result<NaivePosition<T>, InvalidReversedPrice>) {
        Ok(self.duplicate())
    }
}

impl<T: PositionNum> ToNaivePosition<T> for (T, T, T) {
    open spec fn as_holding(&self) -> Option<Holding> {
        Some(Holding { price: self.0.value(), size: self.1.value(), value: self.2.value() })
    }

    fn to_naive(&self) -> (r: Result<NaivePosition<T>, InvalidReversedPrice>) {
        Ok(
            NaivePosition {
                price: self.0.duplicate(),
                size: self.1.duplicate(),
                value: self.2.duplicate(),
            },
        )
    }
}

impl<T: PositionNum> ToNaivePosition<T> for (T, T) {
    open spec fn as_holding(&self) -> Option<Holding> {
        Some(Holding { price: self.0.value(), size: self.1.value(), value: 0real })
    }

    fn to_naive(&self) -> (r: Result<NaivePosition<T>, InvalidReversedPrice>) {
        Ok(NaivePosition { price: self.0.duplicate(), size: self.1.duplicate(), value: T::zero() })
    }
}

impl<T: PositionNum> ToNaivePosition<T> for T {
    open spec fn as_holding(&self) -> Option<Holding> {
        Some(Holding { price: 1real, size: 0real, value: self.value() })
    }

    fn to_naive(&self) -> (r: Result<NaivePosition<T>, InvalidReversedPrice>) {
        Ok(NaivePosition { price: T::one(), size: T::zero(), value: self.duplicate() })
    }
}

impl<T: PositionNum, P: ToNaivePosition<T>> ToNaivePosition<T> for Reversed<P> {
    open spec fn as_holding(&self) -> Option<Holding> {
        match self.0.as_holding() {
            Some(h) => reversed(h),
            None => None,
        }
    }

    fn to_naive(&self) -> (r: Result<NaivePosition<T>, InvalidReversedPrice>) {
        match self.0.to_naive() {
            Ok(p) => reverse(p),
            Err(e) => Err(e),
        }
    }
}

} // verus!
