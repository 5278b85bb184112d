//! The items that most users of the library need.

pub use crate::asset::{Asset, ParseAssetError};
pub use crate::bucket::SingleValue;
pub use crate::convert::{IntoNaivePosition, InvalidReversedPrice, Reversed, ToNaivePosition};
pub use crate::expr::Expr;
pub use crate::instrument::Instrument;
pub use crate::naive_position::NaivePosition;
pub use crate::num::PositionNum;
pub use crate::position::{MismatchedInstrument, Position};
pub use crate::prices::Prices;
pub use crate::rational::Rational;
pub use crate::symbol::{ParseSymbolError, Symbol};
pub use crate::table::Positions;
pub use crate::tree::PositionTree;
