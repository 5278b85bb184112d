//! Instruments: a symbol with the asset that is traded, the asset that
//! prices are quoted in, and the preferred direction of quoting.

use vstd::prelude::*;
use crate::asset::Asset;
use crate::symbol::{parse_symbol, ParseSymbolError, Symbol, SymbolModel};

verus! {

/// An instrument as plain values.
pub struct InstrumentModel {
    pub prefer_reversed: bool,
    pub symbol: SymbolModel,
    pub base: Seq<char>,
    pub quote: Seq<char>,
}

/// Whether a symbol fits a base and a quote asset: a spot has to name just
/// these two, a derivative fits any.
pub open spec fn symbol_fits(symbol: SymbolModel, base: Seq<char>, quote: Seq<char>) -> bool {
    match symbol {
        SymbolModel::Spot { base: b, quote: q } => b == base && q == quote,
        SymbolModel::Derivative { .. } => true,
    }
}

/// The spot instrument of a base and a quote asset.
pub open spec fn spot_of(base: Seq<char>, quote: Seq<char>) -> InstrumentModel {
    InstrumentModel {
        prefer_reversed: false,
        symbol: SymbolModel::Spot { base: base, quote: quote },
        base: base,
        quote: quote,
    }
}

/// Instrument.
#[derive(Debug)]
pub struct Instrument {
    prefer_reversed: bool,
    symbol: Symbol,
    base: Asset,
    quote: Asset,
}

impl View for Instrument {
    type V = InstrumentModel;

    closed spec fn view(&self) -> InstrumentModel {
        InstrumentModel {
            prefer_reversed: self.prefer_reversed,
            symbol: self.symbol@,
            base: self.base@,
            quote: self.quote@,
        }
    }
}

impl Clone for Instrument {
    fn clone(&self) -> (r: Self)
        ensures
            r@ == self@,
    {
        Instrument {
            prefer_reversed: self.prefer_reversed,
            symbol: self.symbol.clone(),
            base: self.base.clone(),
            quote: self.quote.clone(),
        }
    }
}

impl PartialEq for Instrument {
    /// Instruments are equal when their symbols are. The assets and the
    /// preferred direction are attributes and no part of the identity.
    fn eq(&self, other: &Self) -> (b: bool) {
        self.symbol == other.symbol
    }
}

impl Eq for Instrument {

}

impl vstd::std_specs::cmp::PartialEqSpecImpl for Instrument {
    open spec fn obeys_eq_spec() -> bool {
        true
    }

    open spec fn eq_spec(&self, other: &Self) -> bool {
        self@.symbol.text() == other@.symbol.text()
    }
}

impl core::hash::Hash for Instrument {
    /// The hash of the symbol, so that equal instruments hash alike.
    fn hash<H: core::hash::Hasher>(&self, state: &mut H) {
        self.symbol.hash(state)
    }
}

impl Instrument {
    /// The instrument of a symbol read from its text. The text has to be a
    /// symbol, and a spot has to name just the given assets.
    pub fn try_new(symbol: &str, base: &Asset, quote: &Asset) -> (r: Result<
        Self,
        ParseSymbolError,
    >)
        ensures
            match r {
                Ok(i) => parse_symbol(symbol@) is Ok && symbol_fits(
                    parse_symbol(symbol@)->Ok_0,
                    base@,
                    quote@,
                ) && i@ == (InstrumentModel {
                    prefer_reversed: false,
                    symbol: parse_symbol(symbol@)->Ok_0,
                    base: base@,
                    quote: quote@,
                }),
                Err(e) => match parse_symbol(symbol@) {
                    Ok(s) => !symbol_fits(s, base@, quote@) && e
                        == ParseSymbolError::InvalidSpotFormat,
                    Err(pe) => e == pe,
                },
            },
    {
        match Symbol::parse(symbol) {
            Ok(s) => Self::try_with_symbol(s, base, quote),
            Err(e) => Err(e),
        }
    }

    /// The spot of a base and a quote asset.
    pub fn spot(base: &Asset, quote: &Asset) -> (r: Self)
        ensures
            r@ == spot_of(base@, quote@),
    {
        Instrument {
            prefer_reversed: false,
            symbol: Symbol::spot(base, quote),
            base: base.clone(),
            quote: quote.clone(),
        }
    }

    /// The derivative of a prefix and a body on the given assets. A prefix
    /// that holds `:` is refused.
    pub fn derivative(prefix: &str, symbol: &str, base: &Asset, quote: &Asset) -> (r: Result<
        Self,
        ParseSymbolError,
    >)
        ensures
            match r {
                Ok(i) => !prefix@.contains(':') && i@ == (InstrumentModel {
                    prefer_reversed: false,
                    symbol: SymbolModel::Derivative { prefix: prefix@, body: symbol@ },
                    base: base@,
                    quote: quote@,
                }),
                Err(e) => prefix@.contains(':') && e == ParseSymbolError::InvalidPrefix,
            },
    {
        match Symbol::derivative(prefix, symbol) {
            Ok(s) => Ok(
                Instrument {
                    prefer_reversed: false,
                    symbol: s,
                    base: base.clone(),
                    quote: quote.clone(),
                },
            ),
            Err(e) => Err(e),
        }
    }

    /// The spot with base and quote exchanged, or nothing for a derivative.
    pub fn to_reversed_spot(&self) -> (r: Option<Self>)
        ensures
            match r {
                Some(i) => self@.symbol is Spot && i@ == (InstrumentModel {
                    prefer_reversed: self@.prefer_reversed,
                    symbol: SymbolModel::Spot {
                        base: self@.symbol->quote,
                        quote: self@.symbol->base,
                    },
                    base: self@.quote,
                    quote: self@.base,
                }),
                None => self@.symbol is Derivative,
            },
    {
        match self.symbol.to_reversed_symbol() {
            Some(symbol) => Some(
                Instrument {
                    prefer_reversed: self.prefer_reversed,
                    symbol,
                    base: self.quote.clone(),
                    quote: self.base.clone(),
                },
            ),
            None => None,
        }
    }

    /// The instrument of a symbol on the given assets. A spot that names
    /// other assets is refused.
    pub fn try_with_symbol(symbol: Symbol, base: &Asset, quote: &Asset) -> (r: Result<
        Self,
        ParseSymbolError,
    >)
        ensures
            match r {
                Ok(i) => symbol_fits(symbol@, base@, quote@) && i@ == (InstrumentModel {
                    prefer_reversed: false,
                    symbol: symbol@,
                    base: base@,
                    quote: quote@,
                }),
                Err(e) => !symbol_fits(symbol@, base@, quote@) && e
                    == ParseSymbolError::InvalidSpotFormat,
            },
    {
        let fits = match symbol.as_spot() {
            Some((b, q)) => *b == *base && *q == *quote,
            None => true,
        };
        if fits {
            Ok(Instrument { prefer_reversed: false, symbol, base: base.clone(), quote: quote.clone() })
        } else {
            Err(ParseSymbolError::InvalidSpotFormat)
        }
    }

    /// Marks the instrument as preferring the reversed form, or not.
    pub fn prefer_reversed(self, reversed: bool) -> (r: Self)
        ensures
            r@ == (InstrumentModel { prefer_reversed: reversed, ..self@ }),
    {
        Instrument {
            prefer_reversed: reversed,
            symbol: self.symbol,
            base: self.base,
            quote: self.quote,
        }
    }

    /// Whether the instrument prefers the reversed form.
    pub fn is_prefer_reversed(&self) -> (b: bool)
        ensures
            b == self@.prefer_reversed,
    {
        self.prefer_reversed
    }

    /// The symbol.
    pub fn as_symbol(&self) -> (r: &Symbol)
        ensures
            r@ == self@.symbol,
    {
        &self.symbol
    }

    /// Is spot.
    pub fn is_spot(&self) -> (b: bool)
        ensures
            b == (self@.symbol is Spot),
    {
        self.symbol.is_spot()
    }

    /// Is derivative.
    pub fn is_derivative(&self) -> (b: bool)
        ensures
            b == (self@.symbol is Derivative),
    {
        self.symbol.is_derivative()
    }

    /// The text of the symbol.
    pub fn to_text(&self) -> (r: String)
        ensures
            r@ == self@.symbol.text(),
    {
        self.symbol.to_text()
    }

    /// The base asset.
    pub fn base(&self) -> (r: &Asset)
        ensures
            r@ == self@.base,
    {
        &self.base
    }

    /// The quote asset.
    pub fn quote(&self) -> (r: &Asset)
        ensures
            r@ == self@.quote,
    {
        &self.quote
    }
}

} // verus!
