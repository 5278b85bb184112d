//! Positions: a holding bound to an instrument, shown in the direction the
//! instrument prefers.

use vstd::prelude::*;
use crate::convert::{IntoNaivePosition, InvalidReversedPrice};
use crate::holding::{closed, converted, equivalent, identity, merge, negated, Holding};
use crate::instrument::{Instrument, InstrumentModel};
use crate::naive_position::NaivePosition;
use crate::num::PositionNum;

verus! {

/// A position as plain values.
pub struct PositionModel {
    pub instrument: InstrumentModel,
    pub holding: Holding,
}

impl PositionModel {
    /// The text of the symbol, which is the identity of the position.
    pub open spec fn key(self) -> Seq<char> {
        self.instrument.symbol.text()
    }

    /// The price as shown: the inverse of the canonical price for an
    /// instrument that prefers the reversed form, and then nothing when that
    /// price is zero.
    pub open spec fn shown_price(self) -> Option<real> {
        if self.instrument.prefer_reversed {
            if self.holding.price == 0real {
                None
            } else {
                Some(1real / self.holding.price)
            }
        } else {
            Some(self.holding.price)
        }
    }

    /// The size as shown: negated for an instrument that prefers the
    /// reversed form.
    pub open spec fn shown_size(self) -> real {
        if self.instrument.prefer_reversed {
            -self.holding.size
        } else {
            self.holding.size
        }
    }

    /// The canonical price that a quoted price stands for: its inverse for
    /// an instrument that prefers the reversed form, where zero stands for
    /// none.
    pub open spec fn canonical_price(self, quoted: real) -> Option<real> {
        if self.instrument.prefer_reversed {
            if quoted == 0real {
                None
            } else {
                Some(1real / quoted)
            }
        } else {
            Some(quoted)
        }
    }

    /// The value left when the whole position is closed at a quoted price.
    pub open spec fn closed(self, quoted: real) -> Option<real> {
        match self.canonical_price(quoted) {
            Some(price) => Some(closed(self.holding, price)),
            None => None,
        }
    }

    /// The position restated at a quoted price.
    pub open spec fn converted(self, quoted: real) -> Option<PositionModel> {
        match self.canonical_price(quoted) {
            Some(price) => Some(
                PositionModel { instrument: self.instrument, holding: converted(self.holding, price) },
            ),
            None => None,
        }
    }

    /// Whether two positions are the same: the same symbol and equivalent
    /// holdings.
    pub open spec fn same(self, other: PositionModel) -> bool {
        &&& self.key() == other.key()
        &&& equivalent(self.holding, other.holding)
    }

    /// The position with another holding.
    pub open spec fn with_holding(self, holding: Holding) -> PositionModel {
        PositionModel { instrument: self.instrument, holding: holding }
    }
}

/// The error of merging two positions of different symbols.
#[derive(Debug, Clone, Copy, PartialEq, Eq)]
pub struct MismatchedInstrument;

/// Position.
#[derive(Debug)]
pub struct Position<T> {
    instrument: Instrument,
    naive: NaivePosition<T>,
}

impl<T: PositionNum> View for Position<T> {
    type V = PositionModel;

    closed spec fn view(&self) -> PositionModel {
        PositionModel { instrument: self.instrument@, holding: self.naive@ }
    }
}

impl<T: PositionNum> Clone for Position<T> {
    fn clone(&self) -> (r: Self)
        ensures
            r@ == self@,
    {
        Position { instrument: self.instrument.clone(), naive: self.naive.duplicate() }
    }
}

impl<T: PositionNum> PartialEq for Position<T> {
    /// Positions are equal when their instruments are equal, which is to say
    /// their symbols, and their holdings equivalent.
    fn eq(&self, other: &Self) -> (b: bool) {
        self.instrument == other.instrument && self.naive == other.naive
    }
}

impl<T: PositionNum> vstd::std_specs::cmp::PartialEqSpecImpl for Position<T> {
    open spec fn obeys_eq_spec() -> bool {
        true
    }

    open spec fn eq_spec(&self, other: &Self) -> bool {
        self@.same(other@)
    }
}

impl<T: PositionNum> Position<T> {
    /// The instrument.
    pub fn instrument(&self) -> (r: &Instrument)
        ensures
            r@ == self@.instrument,
    {
        &self.instrument
    }

    /// The holding in canonical form.
    pub fn as_naive(&self) -> (r: &NaivePosition<T>)
        ensures
            r@ == self@.holding,
    {
        &self.naive
    }

    /// The value of the position.
    pub fn value(&self) -> (r: &T)
        ensures
            r.value() == self@.holding.value,
    {
        &self.naive.value
    }

    /// A position of the instrument with the given holding in canonical
    /// form.
    pub fn with_naive(instrument: Instrument, naive: NaivePosition<T>) -> (r: Self)
        ensures
            r@ == (PositionModel { instrument: instrument@, holding: naive@ }),
    {
        Position { instrument, naive }
    }

    /// A position of the instrument with the given holding. A holding in
    /// reversed form with a zero price is refused.
    pub fn new<P: IntoNaivePosition<T>>(instrument: Instrument, position: P) -> (r: Result<
        Self,
        InvalidReversedPrice,
    >)
        ensures
            match r {
                Ok(p) => position.holding() == Some(p@.holding) && p@.instrument == instrument@,
                Err(_) => position.holding().is_none(),
            },
    {
        match position.into_naive() {
            Ok(naive) => Ok(Position { instrument, naive }),
            Err(e) => Err(e),
        }
    }

    /// The canonical price that a quoted price stands for.
    fn canonical(&self, quoted: &T) -> (r: Result<T, InvalidReversedPrice>)
        ensures
            match r {
                Ok(price) => self@.canonical_price(quoted.value()) == Some(price.value()),
                Err(_) => self@.canonical_price(quoted.value()).is_none(),
            },
    {
        if self.instrument.is_prefer_reversed() {
            if quoted.is_zero() {
                Err(InvalidReversedPrice)
            } else {
                Ok(T::one().div(quoted))
            }
        } else {
            Ok(quoted.duplicate())
        }
    }

    /// The value left when the whole position is closed at the given price,
    /// which is read in reversed form where the instrument prefers that. A
    /// zero price in reversed form is refused. The position stays as it is.
    pub fn closed(&self, price: &T) -> (r: Result<T, InvalidReversedPrice>)
        ensures
            match r {
                Ok(v) => self@.closed(price.value()) == Some(v.value()),
                Err(_) => self@.closed(price.value()).is_none(),
            },
    {
        match self.canonical(price) {
            Ok(at) => {
                let trade = NaivePosition::new(at, self.naive.size.duplicate(), T::zero());
                let rest = self.naive.duplicate().sub(trade);
                Ok(rest.value)
            },
            Err(e) => Err(e),
        }
    }

    /// The average price as shown for the instrument.
    pub fn price(&self) -> (r: Option<T>)
        ensures
            match r {
                Some(p) => self@.shown_price() == Some(p.value()),
                None => self@.shown_price().is_none(),
            },
    {
        if self.instrument.is_prefer_reversed() {
            if self.naive.price.is_zero() {
                None
            } else {
                Some(T::one().div(&self.naive.price))
            }
        } else {
            Some(self.naive.price.duplicate())
        }
    }

    /// The size as shown for the instrument.
    pub fn size(&self) -> (r: T)
        ensures
            r.value() == self@.shown_size(),
    {
        if self.instrument.is_prefer_reversed() {
            self.naive.size.neg()
        } else {
            self.naive.size.duplicate()
        }
    }

    /// The notional value: canonical price times canonical size, negative
    /// for a short position.
    pub fn notional_value(&self) -> (r: T)
        ensures
            r.value() == self@.holding.price * self@.holding.size,
    {
        self.naive.price.mul(&self.naive.size)
    }

    /// Merges the other position into this one and leaves the identity
    /// holding in the other. Positions of different symbols both stay as
    /// they are, without a sign of it: `try_merge` tells.
    pub fn merge(&mut self, other: &mut Self)
        ensures
            old(self)@.key() == old(other)@.key() ==> final(self)@ == old(self)@.with_holding(
                merge(old(self)@.holding, old(other)@.holding),
            ) && final(other)@ == old(other)@.with_holding(identity()),
            old(self)@.key() != old(other)@.key() ==> final(self)@ == old(self)@ && final(other)@
                == old(other)@,
    {
        if *other.instrument.as_symbol() == *self.instrument.as_symbol() {
            let rhs = other.naive.duplicate();
            other.naive = NaivePosition::default();
            self.naive.add_assign(rhs);
        }
    }

    /// Merges the other position into this one and leaves the identity
    /// holding in the other. Positions of different symbols are refused, and
    /// both stay as they are.
    pub fn try_merge(&mut self, other: &mut Self) -> (r: Result<(), MismatchedInstrument>)
        ensures
            match r {
                Ok(_) => old(self)@.key() == old(other)@.key() && final(self)@ == old(
                    self,
                )@.with_holding(merge(old(self)@.holding, old(other)@.holding)) && final(other)@
                    == old(other)@.with_holding(identity()),
                Err(_) => old(self)@.key() != old(other)@.key() && final(self)@ == old(self)@
                    && final(other)@ == old(other)@,
            },
    {
        if *other.instrument.as_symbol() == *self.instrument.as_symbol() {
            let rhs = other.naive.duplicate();
            other.naive = NaivePosition::default();
            self.naive.add_assign(rhs);
            Ok(())
        } else {
            Err(MismatchedInstrument)
        }
    }

    /// Takes the value out, leaving zero in its place.
    pub fn take(&mut self) -> (r: T)
        ensures
            r.value() == old(self)@.holding.value,
            final(self)@ == old(self)@.with_holding(
                Holding {
                    price: old(self)@.holding.price,
                    size: old(self)@.holding.size,
                    value: 0real,
                },
            ),
    {
        self.naive.take()
    }

    /// Restates the position at the given price, which is read in reversed
    /// form where the instrument prefers that. A zero price in reversed form
    /// is refused and leaves the position as it is.
    pub fn convert(&mut self, to: T) -> (r: Result<(), InvalidReversedPrice>)
        ensures
            match r {
                Ok(_) => old(self)@.converted(to.value()) == Some(final(self)@),
                Err(_) => old(self)@.converted(to.value()).is_none() && final(self)@ == old(self)@,
            },
    {
        match self.canonical(&to) {
            Ok(at) => {
                self.naive.convert(at);
                Ok(())
            },
            Err(e) => Err(e),
        }
    }

    /// Whether size and value are both zero.
    pub fn is_zero(&self) -> (b: bool)
        ensures
            b == (self@.holding.size == 0real && self@.holding.value == 0real),
    {
        self.naive.size.is_zero() && self.naive.value.is_zero()
    }

    /// Merges a holding into the position. A holding in reversed form with a
    /// zero price is refused and leaves the position as it is.
    pub fn add_assign<P: IntoNaivePosition<T>>(&mut self, rhs: P) -> (r: Result<
        (),
        InvalidReversedPrice,
    >)
        ensures
            match r {
                Ok(_) => rhs.holding().is_some() && final(self)@ == old(self)@.with_holding(
                    merge(old(self)@.holding, rhs.holding().unwrap()),
                ),
                Err(_) => rhs.holding().is_none() && final(self)@ == old(self)@,
            },
    {
        match rhs.into_naive() {
            Ok(naive) => {
                self.naive.add_assign(naive);
                Ok(())
            },
            Err(e) => Err(e),
        }
    }

    /// Merges the negation of a holding into the position. A holding in
    /// reversed form with a zero price is refused and leaves the position as
    /// it is.
    pub fn sub_assign<P: IntoNaivePosition<T>>(&mut self, rhs: P) -> (r: Result<
        (),
        InvalidReversedPrice,
    >)
        ensures
            match r {
                Ok(_) => rhs.holding().is_some() && final(self)@ == old(self)@.with_holding(
                    merge(old(self)@.holding, negated(rhs.holding().unwrap())),
                ),
                Err(_) => rhs.holding().is_none() && final(self)@ == old(self)@,
            },
    {
        match rhs.into_naive() {
            Ok(naive) => {
                self.naive.sub_assign(naive);
                Ok(())
            },
            Err(e) => Err(e),
        }
    }

    /// The position with size and value negated.
    pub fn neg(self) -> (r: Self)
        ensures
            r@ == self@.with_holding(negated(self@.holding)),
    {
        Position { instrument: self.instrument, naive: self.naive.neg() }
    }
}

impl<'a, T: PositionNum> IntoNaivePosition<T> for &'a Position<T> {
    open spec fn holding(&self) -> Option<Holding> {
        Some(self@.holding)
    }

    fn into_naive(self) -> (r: Result<NaivePosition<T>, InvalidReversedPrice>) {
        Ok(self.naive.duplicate())
    }
}

impl Instrument {
    /// A position of this instrument with the given holding.
    pub fn position<T: PositionNum, P: IntoNaivePosition<T>>(&self, position: P) -> (r: Result<
        Position<T>,
        InvalidReversedPrice,
    >)
        ensures
            match r {
                Ok(p) => position.holding() == Some(p@.holding) && p@.instrument == self@,
                Err(_) => position.holding().is_none(),
            },
    {
        Position::new(self.clone(), position)
    }
}

} // verus!
