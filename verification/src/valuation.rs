//! What a table of positions is worth in one asset: the mathematical model
//! of the valuation.

use vstd::prelude::*;
use crate::holding::Holding;
use crate::instrument::{spot_of, InstrumentModel};
use crate::position::PositionModel;
use crate::table::BucketModel;

verus! {

/// The instruments of the positions, in their order.
pub open spec fn held_instruments(ps: Seq<PositionModel>) -> Seq<InstrumentModel> {
    ps.map_values(|p: PositionModel| p.instrument)
}

/// The spot position that stands for a balance of `size` in `asset`, to be
/// valued in `root`.
pub open spec fn cross_position(asset: Seq<char>, root: Seq<char>, size: real) -> PositionModel {
    PositionModel {
        instrument: spot_of(asset, root),
        holding: Holding { price: 0real, size: size, value: 0real },
    }
}

/// The instruments whose prices the valuation of one bucket needs: those of
/// its positions and, for a bucket of another asset than the root, the spot
/// of the bucket's asset against the root.
pub open spec fn bucket_instruments(b: BucketModel, root: Seq<char>) -> Seq<InstrumentModel> {
    if b.asset == root {
        held_instruments(b.single.positions)
    } else {
        held_instruments(b.single.positions).push(spot_of(b.asset, root))
    }
}

/// The instruments whose prices the valuation of the table needs, bucket by
/// bucket.
pub open spec fn instruments_of(t: Seq<BucketModel>, root: Seq<char>) -> Seq<InstrumentModel>
    decreases t.len(),
{
    if t.len() == 0 {
        Seq::empty()
    } else {
        instruments_of(t.drop_last(), root) + bucket_instruments(t.last(), root)
    }
}

/// Whether a price is there for each position.
pub open spec fn positions_priced(ps: Seq<PositionModel>, prices: Map<Seq<char>, real>) -> bool {
    forall|i: int| 0 <= i < ps.len() ==> prices.dom().contains((#[trigger] ps[i]).key())
}

/// Whether a price is there for each instrument that the valuation of the
/// bucket needs.
pub open spec fn bucket_priced(b: BucketModel, root: Seq<char>, prices: Map<Seq<char>, real>) -> bool {
    &&& positions_priced(b.single.positions, prices)
    &&& b.asset != root ==> prices.dom().contains(spot_of(b.asset, root).symbol.text())
}

/// Whether a price is there for each instrument that the valuation of the
/// table needs.
pub open spec fn table_priced(t: Seq<BucketModel>, root: Seq<char>, prices: Map<Seq<char>, real>) -> bool {
    forall|k: int| 0 <= k < t.len() ==> bucket_priced(#[trigger] t[k], root, prices)
}

/// What closing the position at its price leaves, or nothing where that
/// price is a zero in reversed form.
pub open spec fn closed_at(p: PositionModel, prices: Map<Seq<char>, real>) -> Option<real> {
    p.closed(prices[p.key()])
}

/// The sum of two amounts, if both are there.
pub open spec fn both(a: Option<real>, b: Option<real>) -> Option<real> {
    match (a, b) {
        (Some(x), Some(y)) => Some(x + y),
        _ => None,
    }
}

/// What closing every position at its price leaves in sum, or nothing where
/// one of them cannot be closed.
pub open spec fn closed_sum(ps: Seq<PositionModel>, prices: Map<Seq<char>, real>) -> Option<real>
    decreases ps.len(),
{
    if ps.len() == 0 {
        Some(0real)
    } else {
        both(closed_sum(ps.drop_last(), prices), closed_at(ps.last(), prices))
    }
}

/// What a bucket is worth in the root asset: its positions closed plus its
/// settled value, and for a bucket of another asset that amount closed as a
/// spot position against the root.
pub open spec fn bucket_worth(b: BucketModel, root: Seq<char>, prices: Map<Seq<char>, real>) -> Option<
    real,
> {
    match closed_sum(b.single.positions, prices) {
        Some(open) => {
            let total = open + b.single.value;
            if b.asset == root {
                Some(total)
            } else {
                closed_at(cross_position(b.asset, root, total), prices)
            }
        },
        None => None,
    }
}

/// What the buckets are worth in sum.
pub open spec fn table_worth(t: Seq<BucketModel>, root: Seq<char>, prices: Map<Seq<char>, real>) -> Option<
    real,
>
    decreases t.len(),
{
    if t.len() == 0 {
        Some(0real)
    } else {
        both(table_worth(t.drop_last(), root, prices), bucket_worth(t.last(), root, prices))
    }
}

/// The outcome of a valuation.
pub enum Valuation {
    /// A price is missing.
    Missing,
    /// Every price is there, and one of them is a zero in reversed form.
    Invalid,
    /// Every price is there and the table is worth this much.
    Worth(real),
}

/// The valuation of a table in the root asset at the given prices. It is all
/// or nothing: one missing price leaves no amount.
pub open spec fn valuation(t: Seq<BucketModel>, root: Seq<char>, prices: Map<Seq<char>, real>) -> Valuation {
    if !table_priced(t, root, prices) {
        Valuation::Missing
    } else {
        match table_worth(t, root, prices) {
            Some(v) => Valuation::Worth(v),
            None => Valuation::Invalid,
        }
    }
}

} // verus!
