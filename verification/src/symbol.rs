//! Symbols: the identity of an instrument, either a spot pair `BASE-QUOTE`
//! or a derivative `PREFIX:BODY`.

use vstd::prelude::*;
use vstd::string::*;
use crate::asset::{
    find_char, hash_text, parse_asset, smol_as_str, smol_clone, smol_new, smol_text, Asset,
    ParseAssetError,
};

verus! {

/// A symbol as plain text parts.
pub enum SymbolModel {
    /// A spot pair of a base and a quote asset.
    Spot { base: Seq<char>, quote: Seq<char> },
    /// A derivative with a prefix and a body.
    Derivative { prefix: Seq<char>, body: Seq<char> },
}

impl SymbolModel {
    /// The canonical text: `BASE-QUOTE` for a spot and `PREFIX:BODY` for a
    /// derivative. Two symbols are the same when their texts are.
    pub open spec fn text(self) -> Seq<char> {
        match self {
            SymbolModel::Spot { base, quote } => base + seq!['-'] + quote,
            SymbolModel::Derivative { prefix, body } => prefix + seq![':'] + body,
        }
    }
}

/// Why a text is no symbol.
#[derive(Debug, Clone, Copy, PartialEq, Eq, Structural)]
pub enum ParseSymbolError {
    /// Invalid spot format.
    InvalidSpotFormat,
    /// Invalid prefix.
    InvalidPrefix,
    /// Asset errors.
    Asset(ParseAssetError),
}

impl ParseSymbolError {
    /// What went wrong, in words.
    pub fn message(&self) -> (r: String)
        ensures
            r@ == match self {
                ParseSymbolError::InvalidSpotFormat => "invalid spot format"@,
                ParseSymbolError::InvalidPrefix => "invalid prefix"@,
                ParseSymbolError::Asset(e) => "parse asset error: "@ + e.words(),
            },
    {
        match self {
            ParseSymbolError::InvalidSpotFormat => String::from_str("invalid spot format"),
            ParseSymbolError::InvalidPrefix => String::from_str("invalid prefix"),
            ParseSymbolError::Asset(e) => String::from_str("parse asset error: ").concat(
                e.message(),
            ),
        }
    }
}

/// The part of `s` before position `i`.
pub open spec fn before(s: Seq<char>, i: int) -> Seq<char> {
    s.subrange(0, i)
}

/// The part of `s` after position `i`.
pub open spec fn after(s: Seq<char>, i: int) -> Seq<char> {
    s.subrange(i + 1, s.len() as int)
}

/// What a pair of texts reads as: the spot of the two assets, or the error
/// of the first that is no asset.
pub open spec fn parse_spot(base: Seq<char>, quote: Seq<char>) -> Result<
    SymbolModel,
    ParseSymbolError,
> {
    match parse_asset(base) {
        Err(e) => Err(ParseSymbolError::Asset(e)),
        Ok(b) => match parse_asset(quote) {
            Err(e) => Err(ParseSymbolError::Asset(e)),
            Ok(q) => Ok(SymbolModel::Spot { base: b, quote: q }),
        },
    }
}

/// What a text reads as. A text with a `:` is a derivative, split at the
/// first `:`. Any other text is a spot, split at the first `-`, and has to
/// hold one.
pub open spec fn parse_symbol(s: Seq<char>) -> Result<SymbolModel, ParseSymbolError> {
    match s.index_of_first(':') {
        Some(i) => Ok(SymbolModel::Derivative { prefix: before(s, i), body: after(s, i) }),
        None => match s.index_of_first('-') {
            Some(i) => parse_spot(before(s, i), after(s, i)),
            None => Err(ParseSymbolError::InvalidSpotFormat),
        },
    }
}

#[derive(Debug)]
enum Repr {
    Spot(Asset, Asset),
    Derivative(smol_str::SmolStr, smol_str::SmolStr),
}

/// Symbol.
#[derive(Debug)]
pub struct Symbol(Repr);

impl View for Symbol {
    type V = SymbolModel;

    closed spec fn view(&self) -> SymbolModel {
        match self.0 {
            Repr::Spot(base, quote) => SymbolModel::Spot { base: base@, quote: quote@ },
            Repr::Derivative(prefix, body) => SymbolModel::Derivative {
                prefix: smol_text(prefix),
                body: smol_text(body),
            },
        }
    }
}

impl Clone for Symbol {
    fn clone(&self) -> (r: Self)
        ensures
            r@ == self@,
    {
        match &self.0 {
            Repr::Spot(base, quote) => Symbol(Repr::Spot(base.clone(), quote.clone())),
            Repr::Derivative(prefix, body) => Symbol(
                Repr::Derivative(smol_clone(prefix), smol_clone(body)),
            ),
        }
    }
}

impl PartialEq for Symbol {
    /// Symbols are equal when their canonical texts are.
    fn eq(&self, other: &Self) -> (b: bool) {
        self.to_text() == other.to_text()
    }
}

impl Eq for Symbol {

}

impl vstd::std_specs::cmp::PartialEqSpecImpl for Symbol {
    open spec fn obeys_eq_spec() -> bool {
        true
    }

    open spec fn eq_spec(&self, other: &Self) -> bool {
        self@.text() == other@.text()
    }
}

impl core::hash::Hash for Symbol {
    /// Feeds the canonical text into the hasher, so that equal symbols hash
    /// alike.
    fn hash<H: core::hash::Hasher>(&self, state: &mut H) {
        hash_text(self.to_text().as_str(), state)
    }
}

impl core::str::FromStr for Symbol {
    type Err = ParseSymbolError;

    fn from_str(s: &str) -> (r: Result<Self, Self::Err>)
        ensures
            match r {
                Ok(x) => parse_symbol(s@) == Ok::<SymbolModel, ParseSymbolError>(x@),
                Err(e) => parse_symbol(s@) == Err::<SymbolModel, ParseSymbolError>(e),
            },
    {
        Symbol::parse(s)
    }
}

impl Symbol {
    /// Is a derivative.
    pub fn is_derivative(&self) -> (b: bool)
        ensures
            b == (self@ is Derivative),
    {
        match &self.0 {
            Repr::Spot(_, _) => false,
            Repr::Derivative(_, _) => true,
        }
    }

    /// The prefix and the body of the derivative, or nothing for a spot.
    pub fn as_derivative(&self) -> (r: Option<(&str, &str)>)
        ensures
            match r {
                Some((prefix, body)) => self@ == (SymbolModel::Derivative {
                    prefix: prefix@,
                    body: body@,
                }),
                None => self@ is Spot,
            },
    {
        match &self.0 {
            Repr::Spot(_, _) => None,
            Repr::Derivative(prefix, body) => Some((smol_as_str(prefix), smol_as_str(body))),
        }
    }

    /// The prefix of the derivative. A spot has none.
    pub fn derivative_prefix(&self) -> (r: Option<&str>)
        ensures
            match r {
                Some(prefix) => self@ is Derivative && self@->prefix == prefix@,
                None => self@ is Spot,
            },
    {
        match self.as_derivative() {
            Some((prefix, _)) => Some(prefix),
            None => None,
        }
    }

    /// The body of the derivative. A spot has none.
    pub fn derivative_symbol(&self) -> (r: Option<&str>)
        ensures
            match r {
                Some(body) => self@ is Derivative && self@->body == body@,
                None => self@ is Spot,
            },
    {
        match self.as_derivative() {
            Some((_, body)) => Some(body),
            None => None,
        }
    }

    /// Is a spot.
    pub fn is_spot(&self) -> (b: bool)
        ensures
            b == (self@ is Spot),
    {
        match &self.0 {
            Repr::Spot(_, _) => true,
            Repr::Derivative(_, _) => false,
        }
    }

    /// The base and the quote asset of the spot, or nothing for a
    /// derivative.
    pub fn as_spot(&self) -> (r: Option<(&Asset, &Asset)>)
        ensures
            match r {
                Some((base, quote)) => self@ == (SymbolModel::Spot { base: base@, quote: quote@ }),
                None => self@ is Derivative,
            },
    {
        match &self.0 {
            Repr::Spot(base, quote) => Some((base, quote)),
            Repr::Derivative(_, _) => None,
        }
    }

    /// The spot of a base and a quote asset.
    pub fn spot(base: &Asset, quote: &Asset) -> (r: Self)
        ensures
            r@ == (SymbolModel::Spot { base: base@, quote: quote@ }),
    {
        Symbol(Repr::Spot(base.clone(), quote.clone()))
    }

    /// The spot with base and quote exchanged, or nothing for a derivative.
    pub fn to_reversed_symbol(&self) -> (r: Option<Self>)
        ensures
            match r {
                Some(s) => self@ is Spot && s@ == (SymbolModel::Spot {
                    base: self@->quote,
                    quote: self@->base,
                }),
                None => self@ is Derivative,
            },
    {
        match self.as_spot() {
            Some((base, quote)) => Some(Self::spot(quote, base)),
            None => None,
        }
    }

    /// The derivative of a prefix and a body. A prefix that holds `:` is
    /// refused.
    pub fn derivative(prefix: &str, symbol: &str) -> (r: Result<Self, ParseSymbolError>)
        ensures
            match r {
                Ok(s) => !prefix@.contains(':') && s@ == (SymbolModel::Derivative {
                    prefix: prefix@,
                    body: symbol@,
                }),
                Err(e) => prefix@.contains(':') && e == ParseSymbolError::InvalidPrefix,
            },
    {
        proof {
            prefix@.index_of_first_ensures(':');
        }
        if find_char(prefix, ':').is_some() {
            Err(ParseSymbolError::InvalidPrefix)
        } else {
            Ok(Symbol(Repr::Derivative(smol_new(prefix), smol_new(symbol))))
        }
    }

    /// Reads a symbol from its text.
    pub fn parse(value: &str) -> (r: Result<Self, ParseSymbolError>)
        ensures
            match r {
                Ok(s) => parse_symbol(value@) == Ok::<SymbolModel, ParseSymbolError>(s@),
                Err(e) => parse_symbol(value@) == Err::<SymbolModel, ParseSymbolError>(e),
            },
    {
        let n = value.unicode_len();
        proof {
            value@.index_of_first_ensures(':');
            value@.index_of_first_ensures('-');
        }
        match find_char(value, ':') {
            Some(i) => {
                let prefix = value.substring_char(0, i);
                let body = value.substring_char(i + 1, n);
                Ok(Symbol(Repr::Derivative(smol_new(prefix), smol_new(body))))
            },
            None => match find_char(value, '-') {
                Some(i) => {
                    let base = value.substring_char(0, i);
                    let quote = value.substring_char(i + 1, n);
                    match Asset::parse(base) {
                        Err(e) => Err(ParseSymbolError::Asset(e)),
                        Ok(b) => match Asset::parse(quote) {
                            Err(e) => Err(ParseSymbolError::Asset(e)),
                            Ok(q) => Ok(Symbol(Repr::Spot(b, q))),
                        },
                    }
                },
                None => Err(ParseSymbolError::InvalidSpotFormat),
            },
        }
    }

    /// The canonical text.
    pub fn to_text(&self) -> (r: String)
        ensures
            r@ == self@.text(),
    {
        proof {
            reveal_strlit("-");
            reveal_strlit(":");
        }
        match &self.0 {
            Repr::Spot(base, quote) => {
                let text = String::from_str(base.as_str()).concat("-").concat(quote.as_str());
                assert("-"@ =~= seq!['-']);
                text
            },
            Repr::Derivative(prefix, body) => {
                let text = String::from_str(smol_as_str(prefix)).concat(":").concat(
                    smol_as_str(body),
                );
                assert(":"@ =~= seq![':']);
                text
            },
        }
    }
}

} // verus!
