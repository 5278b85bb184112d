//! Running trading positions with exact realized-value accounting.
//!
//! A holding is a price, a signed size and a value. Trades merge into it at
//! the weighted average price, and what a trade against it realizes goes to
//! its value. Positions bind holdings to instruments, a table groups them by
//! quote asset, and a valuation folds the table into one amount in a root
//! asset. The contracts are stated over real numbers, and the laws of the
//! algebra are proved there.

pub mod asset;
pub mod bucket;
pub mod convert;
pub mod expr;
pub mod holding;
pub mod insertion_laws;
pub mod instrument;
pub mod laws;
pub mod naive_position;
pub mod node;
pub mod num;
pub mod position;
pub mod prelude;
pub mod prices;
pub mod rational;
pub mod render;
pub mod representation;
pub mod strong;
pub mod symbol;
pub mod table;
pub mod tree;
pub mod valuation;
pub mod valuation_laws;
pub mod weak;

pub use crate::prelude::{
    Asset, Expr, Instrument, IntoNaivePosition, InvalidReversedPrice, MismatchedInstrument,
    NaivePosition, ParseAssetError, ParseSymbolError, Position, PositionNum, PositionTree,
    Positions, Prices, Rational, Reversed, SingleValue, Symbol, ToNaivePosition,
};
