//! A holding stored in a number type: the price, size and value of a
//! position in canonical form.

use vstd::prelude::*;
use crate::holding::{consumed, converted, equivalent, identity, merge, negated, Holding};
use crate::num::PositionNum;

verus! {

/// A holding in canonical form: `price` in quote per base, `size` signed
/// (positive is long), `value` not yet folded into the price.
#[derive(Debug)]
pub struct NaivePosition<T> {
    /// Price.
    pub price: T,
    /// Size.
    pub size: T,
    /// Value.
    pub value: T,
}

impl<T: PositionNum> View for NaivePosition<T> {
    type V = Holding;

    open spec fn view(&self) -> Holding {
        Holding { price: self.price.value(), size: self.size.value(), value: self.value.value() }
    }
}

impl<T: PositionNum> Default for NaivePosition<T> {
    /// The identity holding: price one, size zero, value zero.
    fn default() -> (r: Self)
        ensures
            r@ == identity(),
    {
        NaivePosition { price: T::one(), size: T::zero(), value: T::zero() }
    }
}

impl<T: PositionNum> Clone for NaivePosition<T> {
    fn clone(&self) -> (r: Self)
        ensures
            r@ == self@,
    {
        self.duplicate()
    }
}

impl<T: PositionNum> PartialEq for NaivePosition<T> {
    /// Equality of holdings is their equivalence, not equality of fields.
    fn eq(&self, other: &Self) -> (b: bool) {
        self.equivalent(other)
    }
}

impl<T: PositionNum> vstd::std_specs::cmp::PartialEqSpecImpl for NaivePosition<T> {
    open spec fn obeys_eq_spec() -> bool {
        true
    }

    open spec fn eq_spec(&self, other: &Self) -> bool {
        equivalent(self@, other@)
    }
}

impl<T: PositionNum> NaivePosition<T> {
    /// A holding of the given price, size and value.
    pub fn new(price: T, size: T, value: T) -> (r: Self)
        ensures
            r@ == (Holding { price: price.value(), size: size.value(), value: value.value() }),
    {
        NaivePosition { price, size, value }
    }

    /// A copy that stands for the same holding.
    pub fn duplicate(&self) -> (r: Self)
        ensures
            r@ == self@,
    {
        NaivePosition {
            price: self.price.duplicate(),
            size: self.size.duplicate(),
            value: self.value.duplicate(),
        }
    }

    /// The holding with its value folded into its price, or nothing when the
    /// size is zero.
    pub fn consumed(&self) -> (r: Option<Self>)
        ensures
            r.is_some() <==> self@.size != 0real,
            match r {
                Some(p) => Some(p@) == consumed(self@),
                None => consumed(self@).is_none(),
            },
    {
        if self.size.is_zero() {
            None
        } else {
            let delta = self.value.div(&self.size);
            Some(
                NaivePosition {
                    price: self.price.sub(&delta),
                    size: self.size.duplicate(),
                    value: T::zero(),
                },
            )
        }
    }

    /// Folds the value into the price. A holding of size zero stays as it is.
    pub fn consume(&mut self)
        ensures
            final(self)@ == match consumed(old(self)@) {
                Some(h) => h,
                None => old(self)@,
            },
    {
        if !self.size.is_zero() {
            let delta = self.value.div(&self.size);
            self.price = self.price.sub(&delta);
            self.value = T::zero();
        }
    }

    /// The holding restated at `price`: same size, and as value what the move
    /// of the price gives that size.
    pub fn converted(&self, price: T) -> (r: Self)
        ensures
            r@ == converted(self@, price.value()),
    {
        let value = price.sub(&self.price).mul(&self.size);
        NaivePosition { price, size: self.size.duplicate(), value }
    }

    /// Restates the holding at `price`.
    pub fn convert(&mut self, price: T)
        ensures
            final(self)@ == converted(old(self)@, price.value()),
    {
        let value = price.sub(&self.price).mul(&self.size);
        self.value = value;
        self.price = price;
    }

    /// Takes the value out, leaving zero in its place; price and size stay.
    pub fn take(&mut self) -> (r: T)
        ensures
            r.value() == old(self)@.value,
            final(self)@ == (Holding {
                price: old(self)@.price,
                size: old(self)@.size,
                value: 0real,
            }),
    {
        let taken = self.value.duplicate();
        self.value = T::zero();
        taken
    }

    /// The identity holding, as the start of a fold.
    pub fn zero() -> (r: Self)
        ensures
            r@ == identity(),
    {
        Self::default()
    }

    /// Whether the size is one and the value zero.
    pub fn is_zero(&self) -> (b: bool)
        ensures
            b == (self@.size == 1real && self@.value == 0real),
    {
        self.size.is_one() && self.value.is_zero()
    }

    /// Whether two holdings are equivalent.
    pub fn equivalent(&self, other: &Self) -> (b: bool)
        ensures
            b == equivalent(self@, other@),
    {
        if self.size.equals(&other.size) {
            if self.price.equals(&other.price) && self.value.equals(&other.value) {
                true
            } else if self.size.is_zero() {
                self.value.equals(&other.value)
            } else {
                let lhs = self.price.sub(&self.value.div(&self.size));
                let rhs = other.price.sub(&other.value.div(&other.size));
                lhs.equals(&rhs)
            }
        } else {
            false
        }
    }

    /// The merge of this holding with `rhs`.
    pub fn add(self, rhs: Self) -> (r: Self)
        ensures
            r@ == merge(self@, rhs@),
    {
        let keep = rhs.size.abs().at_most(&self.size.abs());
        let (big, small) = if keep {
            (self, rhs)
        } else {
            (rhs, self)
        };
        if small.size.is_zero() {
            NaivePosition {
                price: big.price,
                size: big.size,
                value: big.value.add(&small.value),
            }
        } else if (big.size.is_positive() && small.size.is_positive()) || (big.size.is_negative()
            && small.size.is_negative()) {
            let total = big.size.add(&small.size);
            let cost = big.price.mul(&big.size).add(&small.price.mul(&small.size));
            NaivePosition {
                price: cost.div(&total),
                size: total,
                value: big.value.add(&small.value),
            }
        } else {
            let gap = small.price.sub(&big.price);
            let realized = gap.mul(&small.size.neg());
            NaivePosition {
                price: big.price,
                size: big.size.add(&small.size),
                value: big.value.add(&small.value).add(&realized),
            }
        }
    }

    /// Merges `rhs` into this holding.
    pub fn add_assign(&mut self, rhs: Self)
        ensures
            final(self)@ == merge(old(self)@, rhs@),
    {
        let merged = self.duplicate().add(rhs);
        *self = merged;
    }

    /// The holding with size and value negated, at the same price.
    pub fn neg(self) -> (r: Self)
        ensures
            r@ == negated(self@),
    {
        NaivePosition { price: self.price, size: self.size.neg(), value: self.value.neg() }
    }

    /// The merge of this holding with the negation of `rhs`.
    pub fn sub(self, rhs: Self) -> (r: Self)
        ensures
            r@ == merge(self@, negated(rhs@)),
    {
        self.add(rhs.neg())
    }

    /// Merges the negation of `rhs` into this holding.
    pub fn sub_assign(&mut self, rhs: Self)
        ensures
            final(self)@ == merge(old(self)@, negated(rhs@)),
    {
        self.add_assign(rhs.neg());
    }
}

} // verus!
