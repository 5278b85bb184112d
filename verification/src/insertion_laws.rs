//! Laws of taking positions into a table: each adds its own worth to the
//! valuation, so that the order in which positions come in does not matter.

use vstd::prelude::*;
use vstd::seq_lib::*;
use crate::bucket::{holds_key, index_of_key, insert_into, SingleValueModel};
use crate::holding::{closed, merge, Holding};
use crate::instrument::spot_of;
use crate::laws::{lemma_closed_value, lemma_merge_adds};
use crate::position::PositionModel;
use crate::table::{holds_asset, index_of_asset, with_position, with_value, BucketModel};
use crate::valuation::{
    both, bucket_priced, bucket_worth, closed_at, closed_sum, cross_position, positions_priced,
    table_priced, table_worth, valuation, Valuation,
};
use crate::valuation_laws::{
    lemma_same_members,
    lemma_closed_sum_any_order, lemma_table_worth_is_fold, };

verus! {

/// Closing a merge leaves what closing each operand leaves, in sum.
pub proof fn lemma_closed_additive(a: Holding, b: Holding, price: real)
    ensures
        closed(merge(a, b), price) == closed(a, price) + closed(b, price),
{
    let m = merge(a, b);
    lemma_merge_adds(a, b);
    lemma_closed_value(a, price);
    lemma_closed_value(b, price);
    lemma_closed_value(m, price);
    assert(m.value + (price - m.price) * m.size == (a.value + (price - a.price) * a.size) + (
    b.value + (price - b.price) * b.size)) by (nonlinear_arith)
        requires
            m.size == a.size + b.size,
            m.value - m.price * m.size == (a.value - a.price * a.size) + (b.value - b.price
                * b.size),
    ;
}

/// What a position adds to the worth of a table in the root asset: what
/// closing it at its price leaves, carried over at the price of the spot of
/// its quote asset against the root where that is another asset.
pub open spec fn position_worth(p: PositionModel, root: Seq<char>, prices: Map<Seq<char>, real>) -> Option<
    real,
> {
    match closed_at(p, prices) {
        Some(v) => if p.instrument.quote == root {
            Some(v)
        } else {
            Some(v * prices[spot_of(p.instrument.quote, root).symbol.text()])
        },
        None => None,
    }
}

/// Whether a price is there for the position and for carrying it over to
/// the root.
pub open spec fn position_priced(p: PositionModel, root: Seq<char>, prices: Map<Seq<char>, real>) -> bool {
    &&& prices.dom().contains(p.key())
    &&& p.instrument.quote != root ==> prices.dom().contains(
        spot_of(p.instrument.quote, root).symbol.text(),
    )
}

/// Whether the positions agree with `p`: each one of the symbol of `p` has
/// the instrument of `p`.
pub open spec fn agrees(ps: Seq<PositionModel>, p: PositionModel) -> bool {
    forall|i: int|
        0 <= i < ps.len() && (#[trigger] ps[i]).key() == p.key() ==> ps[i].instrument
            == p.instrument
}

/// Whether the table agrees with `p`: in the bucket of the quote asset of
/// `p`, each position of the symbol of `p` has the instrument of `p`.
pub open spec fn table_agrees(t: Seq<BucketModel>, p: PositionModel) -> bool {
    forall|k: int|
        0 <= k < t.len() && (#[trigger] t[k]).asset == p.instrument.quote ==> agrees(
            t[k].single.positions,
            p,
        )
}

/// What closing the positions leaves in sum is what closing all but one of
/// them leaves plus what closing that one leaves.
pub proof fn lemma_closed_sum_remove(ps: Seq<PositionModel>, i: int, prices: Map<Seq<char>, real>)
    requires
        0 <= i < ps.len(),
    ensures
        closed_sum(ps, prices) == both(closed_sum(ps.remove(i), prices), closed_at(ps[i], prices)),
{
    broadcast use group_to_multiset_ensures;

    let moved = ps.remove(i).push(ps[i]);
    assert(ps.to_multiset().count(ps[i]) > 0) by {
        assert(ps.contains(ps[i]));
    }
    assert(moved.to_multiset() =~= ps.to_multiset());
    lemma_closed_sum_any_order(ps, moved, prices);
    assert(moved.drop_last() =~= ps.remove(i));
}

/// Taking a position in adds what closing it leaves to what closing the
/// others leaves.
pub proof fn lemma_closed_sum_insert(
    ps: Seq<PositionModel>,
    p: PositionModel,
    prices: Map<Seq<char>, real>,
)
    requires
        agrees(ps, p),
    ensures
        closed_sum(insert_into(ps, p), prices) == both(
            closed_sum(ps, prices),
            closed_at(p, prices),
        ),
        positions_priced(insert_into(ps, p), prices) <==> positions_priced(ps, prices)
            && prices.dom().contains(p.key()),
{
    let out = insert_into(ps, p);
    if holds_key(ps, p.key()) {
        let i = index_of_key(ps, p.key());
        let held = ps[i];
        let merged = held.with_holding(merge(held.holding, p.holding));
        assert(held.instrument == p.instrument);
        match p.canonical_price(prices[p.key()]) {
            Some(price) => {
                lemma_closed_additive(held.holding, p.holding, price);
            },
            None => {},
        }
        assert(closed_at(merged, prices) == both(closed_at(held, prices), closed_at(p, prices)));
        lemma_closed_sum_remove(ps, i, prices);
        lemma_closed_sum_remove(out, i, prices);
        assert(out.remove(i) =~= ps.remove(i));
        if positions_priced(out, prices) {
            assert(prices.dom().contains(out[i].key()));
            assert forall|k: int| 0 <= k < ps.len() implies prices.dom().contains(
                (#[trigger] ps[k]).key(),
            ) by {
                assert(out[k].key() == ps[k].key());
            }
        }
        if positions_priced(ps, prices) {
            assert(prices.dom().contains(ps[i].key()));
            assert forall|k: int| 0 <= k < out.len() implies prices.dom().contains(
                (#[trigger] out[k]).key(),
            ) by {
                assert(out[k].key() == ps[k].key());
            }
        }
    } else {
        assert(out.drop_last() =~= ps);
        if positions_priced(out, prices) {
            assert(prices.dom().contains(out[ps.len() as int].key()));
            assert forall|k: int| 0 <= k < ps.len() implies prices.dom().contains(
                (#[trigger] ps[k]).key(),
            ) by {
                assert(out[k] == ps[k]);
            }
        }
        if positions_priced(ps, prices) && prices.dom().contains(p.key()) {
            assert forall|k: int| 0 <= k < out.len() implies prices.dom().contains(
                (#[trigger] out[k]).key(),
            ) by {
                if k < ps.len() {
                    assert(out[k] == ps[k]);
                }
            }
        }
    }
}

/// Taking a position into the bucket of its quote asset adds the worth of
/// the position to the worth of the bucket.
pub proof fn lemma_bucket_worth_insert(
    b: BucketModel,
    p: PositionModel,
    root: Seq<char>,
    prices: Map<Seq<char>, real>,
)
    requires
        b.asset == p.instrument.quote,
        agrees(b.single.positions, p),
    ensures
        bucket_worth(
            BucketModel {
                asset: b.asset,
                single: SingleValueModel {
                    value: b.single.value,
                    positions: insert_into(b.single.positions, p),
                },
            },
            root,
            prices,
        ) == both(bucket_worth(b, root, prices), position_worth(p, root, prices)),
{
    lemma_closed_sum_insert(b.single.positions, p, prices);
    match (closed_sum(b.single.positions, prices), closed_at(p, prices)) {
        (Some(open), Some(c)) => {
            if b.asset != root {
                let price = prices[spot_of(b.asset, root).symbol.text()];
                let before = open + b.single.value;
                let after = open + c + b.single.value;
                lemma_closed_value(cross_position(b.asset, root, before).holding, price);
                lemma_closed_value(cross_position(b.asset, root, after).holding, price);
                assert(0real + (price - 0real) * after == (0real + (price - 0real) * before) + c
                    * price) by (nonlinear_arith)
                    requires
                        after == before + c,
                ;
            }
        },
        _ => {},
    }
}

/// What the buckets are worth in sum is what all but one of them are worth
/// plus what that one is worth.
pub proof fn lemma_table_worth_remove(
    t: Seq<BucketModel>,
    i: int,
    root: Seq<char>,
    prices: Map<Seq<char>, real>,
)
    requires
        0 <= i < t.len(),
    ensures
        table_worth(t, root, prices) == both(
            table_worth(t.remove(i), root, prices),
            bucket_worth(t[i], root, prices),
        ),
{
    broadcast use group_to_multiset_ensures;

    let moved = t.remove(i).push(t[i]);
    assert(t.to_multiset().count(t[i]) > 0) by {
        assert(t.contains(t[i]));
    }
    assert(moved.to_multiset() =~= t.to_multiset());
    let f = |acc: Option<real>, b: BucketModel| both(acc, bucket_worth(b, root, prices));
    lemma_table_worth_is_fold(t, root, prices);
    lemma_table_worth_is_fold(moved, root, prices);
    assert(commutative_foldl(f));
    lemma_fold_left_permutation(t, moved, f, Some(0real));
    assert(moved.drop_last() =~= t.remove(i));
}

/// Taking a position in adds its worth to the worth of the table, and asks
/// for its prices besides those that the table asks for.
pub proof fn lemma_worth_insert(
    t: Seq<BucketModel>,
    p: PositionModel,
    root: Seq<char>,
    prices: Map<Seq<char>, real>,
)
    requires
        table_agrees(t, p),
    ensures
        table_worth(with_position(t, p), root, prices) == both(
            table_worth(t, root, prices),
            position_worth(p, root, prices),
        ),
        table_priced(with_position(t, p), root, prices) <==> table_priced(t, root, prices)
            && position_priced(p, root, prices),
{
    let asset = p.instrument.quote;
    let out = with_position(t, p);
    if holds_asset(t, asset) {
        let i = index_of_asset(t, asset);
        let b = t[i];
        assert(agrees(b.single.positions, p));
        lemma_bucket_worth_insert(b, p, root, prices);
        lemma_closed_sum_insert(b.single.positions, p, prices);
        lemma_table_worth_remove(t, i, root, prices);
        lemma_table_worth_remove(out, i, root, prices);
        assert(out.remove(i) =~= t.remove(i));
        assert(bucket_priced(out[i], root, prices) <==> bucket_priced(b, root, prices)
            && position_priced(p, root, prices));
        if table_priced(out, root, prices) {
            assert(bucket_priced(out[i], root, prices));
            assert forall|k: int| 0 <= k < t.len() implies bucket_priced(
                #[trigger] t[k],
                root,
                prices,
            ) by {
                if k != i {
                    assert(out[k] == t[k]);
                }
            }
        }
        if table_priced(t, root, prices) && position_priced(p, root, prices) {
            assert(bucket_priced(t[i], root, prices));
            assert forall|k: int| 0 <= k < out.len() implies bucket_priced(
                #[trigger] out[k],
                root,
                prices,
            ) by {
                if k != i {
                    assert(out[k] == t[k]);
                }
            }
        }
    } else {
        let made = out[t.len() as int];
        assert(out.drop_last() =~= t);
        let one = made.single.positions;
        assert(one.len() == 1 && one.last() == p);
        assert(one.drop_last() =~= Seq::<PositionModel>::empty());
        assert(closed_sum(one.drop_last(), prices) == Some(0real));
        assert(closed_sum(one, prices) == closed_at(p, prices));
        match closed_at(p, prices) {
            Some(c) => {
                if asset != root {
                    let price = prices[spot_of(asset, root).symbol.text()];
                    lemma_closed_value(cross_position(asset, root, c + 0real).holding, price);
                    assert(0real + (price - 0real) * (c + 0real) == c * price)
                        by (nonlinear_arith);
                }
            },
            None => {},
        }
        assert(bucket_priced(made, root, prices) <==> position_priced(p, root, prices)) by {
            if bucket_priced(made, root, prices) {
                assert(prices.dom().contains(made.single.positions[0].key()));
            }
        }
        if table_priced(out, root, prices) {
            assert(bucket_priced(out[t.len() as int], root, prices));
            assert forall|k: int| 0 <= k < t.len() implies bucket_priced(
                #[trigger] t[k],
                root,
                prices,
            ) by {
                assert(out[k] == t[k]);
            }
        }
        if table_priced(t, root, prices) && position_priced(p, root, prices) {
            assert forall|k: int| 0 <= k < out.len() implies bucket_priced(
                #[trigger] out[k],
                root,
                prices,
            ) by {
                if k < t.len() {
                    assert(out[k] == t[k]);
                }
            }
        }
    }
}

/// The valuation of a table that took a position in: the valuation of the
/// table with the worth of the position added.
pub open spec fn valuation_with(
    before: Valuation,
    p: PositionModel,
    root: Seq<char>,
    prices: Map<Seq<char>, real>,
) -> Valuation {
    if before is Missing || !position_priced(p, root, prices) {
        Valuation::Missing
    } else {
        match (before, position_worth(p, root, prices)) {
            (Valuation::Worth(v), Some(w)) => Valuation::Worth(v + w),
            _ => Valuation::Invalid,
        }
    }
}

/// The valuation is additive: a position that comes in adds its own worth,
/// whatever the table holds, as long as the table agrees with the position
/// on the instrument of its symbol.
pub proof fn lemma_valuation_insert(
    t: Seq<BucketModel>,
    p: PositionModel,
    root: Seq<char>,
    prices: Map<Seq<char>, real>,
)
    requires
        table_agrees(t, p),
    ensures
        valuation(with_position(t, p), root, prices) == valuation_with(
            valuation(t, root, prices),
            p,
            root,
            prices,
        ),
{
    lemma_worth_insert(t, p, root, prices);
}

/// Taking a position in keeps the agreement of the table with another
/// position that agrees with the first.
pub proof fn lemma_agrees_insert(t: Seq<BucketModel>, p: PositionModel, q: PositionModel)
    requires
        table_agrees(t, q),
        p.key() == q.key() ==> p.instrument == q.instrument,
    ensures
        table_agrees(with_position(t, p), q),
{
    let asset = p.instrument.quote;
    let out = with_position(t, p);
    assert forall|k: int| 0 <= k < out.len() && (#[trigger] out[k]).asset
        == q.instrument.quote implies agrees(out[k].single.positions, q) by {
        let qs = out[k].single.positions;
        if holds_asset(t, asset) {
            let i = index_of_asset(t, asset);
            if k == i {
                let ps = t[i].single.positions;
                assert(agrees(ps, q));
                assert forall|j: int| 0 <= j < qs.len() && (#[trigger] qs[j]).key()
                    == q.key() implies qs[j].instrument == q.instrument by {
                    if holds_key(ps, p.key()) {
                        assert(qs[j].instrument == ps[j].instrument);
                        assert(ps[j].key() == q.key());
                    } else {
                        if j < ps.len() {
                            assert(qs[j] == ps[j]);
                        }
                    }
                }
            } else {
                assert(out[k] == t[k]);
            }
        } else {
            if k < t.len() {
                assert(out[k] == t[k]);
            } else {
                assert forall|j: int| 0 <= j < qs.len() && (#[trigger] qs[j]).key()
                    == q.key() implies qs[j].instrument == q.instrument by {
                    assert(qs[j] == p);
                }
            }
        }
    }
}

/// The valuation does not depend on the order in which two positions come
/// in, as long as the table and the two positions agree on the instrument of
/// each symbol.
pub proof fn lemma_valuation_insertion_order(
    t: Seq<BucketModel>,
    p: PositionModel,
    q: PositionModel,
    root: Seq<char>,
    prices: Map<Seq<char>, real>,
)
    requires
        table_agrees(t, p),
        table_agrees(t, q),
        p.key() == q.key() ==> p.instrument == q.instrument,
    ensures
        valuation(with_position(with_position(t, p), q), root, prices) == valuation(
            with_position(with_position(t, q), p),
            root,
            prices,
        ),
{
    lemma_agrees_insert(t, p, q);
    lemma_agrees_insert(t, q, p);
    lemma_valuation_insert(t, p, root, prices);
    lemma_valuation_insert(with_position(t, p), q, root, prices);
    lemma_valuation_insert(t, q, root, prices);
    lemma_valuation_insert(with_position(t, q), p, root, prices);
}

/// What a settled value adds to the worth of a table in the root asset: the
/// value itself in the root asset, else the value at the price of the spot
/// of its asset against the root.
pub open spec fn value_worth(
    value: real,
    asset: Seq<char>,
    root: Seq<char>,
    prices: Map<Seq<char>, real>,
) -> real {
    if asset == root {
        value
    } else {
        value * prices[spot_of(asset, root).symbol.text()]
    }
}

/// Whether a price is there for carrying a value of the asset over to the
/// root.
pub open spec fn value_priced(asset: Seq<char>, root: Seq<char>, prices: Map<Seq<char>, real>) -> bool {
    asset != root ==> prices.dom().contains(spot_of(asset, root).symbol.text())
}

/// Taking a settled value in adds its worth to the worth of the table, and
/// asks for the price of its asset besides those that the table asks for.
pub proof fn lemma_worth_value(
    t: Seq<BucketModel>,
    value: real,
    asset: Seq<char>,
    root: Seq<char>,
    prices: Map<Seq<char>, real>,
)
    ensures
        table_worth(with_value(t, value, asset), root, prices) == both(
            table_worth(t, root, prices),
            Some(value_worth(value, asset, root, prices)),
        ),
        table_priced(with_value(t, value, asset), root, prices) <==> table_priced(t, root, prices)
            && value_priced(asset, root, prices),
{
    let out = with_value(t, value, asset);
    let price = prices[spot_of(asset, root).symbol.text()];
    if holds_asset(t, asset) {
        let i = index_of_asset(t, asset);
        let b = t[i];
        lemma_table_worth_remove(t, i, root, prices);
        lemma_table_worth_remove(out, i, root, prices);
        assert(out.remove(i) =~= t.remove(i));
        match closed_sum(b.single.positions, prices) {
            Some(open) => {
                if asset != root {
                    let before = open + b.single.value;
                    let after = open + (b.single.value + value);
                    lemma_closed_value(cross_position(asset, root, before).holding, price);
                    lemma_closed_value(cross_position(asset, root, after).holding, price);
                    assert(0real + (price - 0real) * after == (0real + (price - 0real) * before)
                        + value * price) by (nonlinear_arith)
                        requires
                            after == before + value,
                    ;
                }
            },
            None => {},
        }
        assert(bucket_worth(out[i], root, prices) == both(
            bucket_worth(b, root, prices),
            Some(value_worth(value, asset, root, prices)),
        ));
        assert(bucket_priced(out[i], root, prices) == bucket_priced(b, root, prices));
        if table_priced(out, root, prices) {
            assert(bucket_priced(out[i], root, prices));
            assert forall|k: int| 0 <= k < t.len() implies bucket_priced(
                #[trigger] t[k],
                root,
                prices,
            ) by {
                if k != i {
                    assert(out[k] == t[k]);
                }
            }
        }
        if table_priced(t, root, prices) {
            assert(bucket_priced(t[i], root, prices));
            assert forall|k: int| 0 <= k < out.len() implies bucket_priced(
                #[trigger] out[k],
                root,
                prices,
            ) by {
                if k != i {
                    assert(out[k] == t[k]);
                }
            }
        }
    } else {
        let made = out[t.len() as int];
        assert(out.drop_last() =~= t);
        assert(made.single.positions.len() == 0);
        if asset != root {
            lemma_closed_value(cross_position(asset, root, 0real + value).holding, price);
            assert(0real + (price - 0real) * (0real + value) == value * price)
                by (nonlinear_arith);
        }
        assert(bucket_worth(made, root, prices) == Some(value_worth(value, asset, root, prices)));
        assert(bucket_priced(made, root, prices) <==> value_priced(asset, root, prices));
        if table_priced(out, root, prices) {
            assert(bucket_priced(out[t.len() as int], root, prices));
            assert forall|k: int| 0 <= k < t.len() implies bucket_priced(
                #[trigger] t[k],
                root,
                prices,
            ) by {
                assert(out[k] == t[k]);
            }
        }
        if table_priced(t, root, prices) && value_priced(asset, root, prices) {
            assert forall|k: int| 0 <= k < out.len() implies bucket_priced(
                #[trigger] out[k],
                root,
                prices,
            ) by {
                if k < t.len() {
                    assert(out[k] == t[k]);
                }
            }
        }
    }
}

/// Taking a settled value in keeps the agreement of the table with a
/// position.
pub proof fn lemma_agrees_value(t: Seq<BucketModel>, value: real, asset: Seq<char>, q: PositionModel)
    requires
        table_agrees(t, q),
    ensures
        table_agrees(with_value(t, value, asset), q),
{
    let out = with_value(t, value, asset);
    assert forall|k: int| 0 <= k < out.len() && (#[trigger] out[k]).asset
        == q.instrument.quote implies agrees(out[k].single.positions, q) by {
        if holds_asset(t, asset) {
            let i = index_of_asset(t, asset);
            if k == i {
                assert(out[k].single.positions == t[k].single.positions);
                assert(t[k].asset == q.instrument.quote);
            } else {
                assert(out[k] == t[k]);
            }
        } else {
            if k < t.len() {
                assert(out[k] == t[k]);
            }
        }
    }
}

/// One call that takes something into a table: a settled value of an asset,
/// or a position.
pub enum Insertion {
    /// A settled value of an asset.
    Value { value: real, asset: Seq<char> },
    /// A position.
    Position { position: PositionModel },
}

/// The table after the call.
pub open spec fn applied(t: Seq<BucketModel>, op: Insertion) -> Seq<BucketModel> {
    match op {
        Insertion::Value { value, asset } => with_value(t, value, asset),
        Insertion::Position { position } => with_position(t, position),
    }
}

/// The table after the calls, in their order.
pub open spec fn applied_all(t: Seq<BucketModel>, ops: Seq<Insertion>) -> Seq<BucketModel>
    decreases ops.len(),
{
    if ops.len() == 0 {
        t
    } else {
        applied(applied_all(t, ops.drop_last()), ops.last())
    }
}

/// The valuation after the call, from the valuation before it: what came in
/// adds its own worth, a missing price leaves no amount, and a zero price in
/// reversed form stays refused.
pub open spec fn valuation_after(
    before: Valuation,
    op: Insertion,
    root: Seq<char>,
    prices: Map<Seq<char>, real>,
) -> Valuation {
    match op {
        Insertion::Position { position } => valuation_with(before, position, root, prices),
        Insertion::Value { value, asset } => if before is Missing || !value_priced(
            asset,
            root,
            prices,
        ) {
            Valuation::Missing
        } else {
            match before {
                Valuation::Worth(v) => Valuation::Worth(
                    v + value_worth(value, asset, root, prices),
                ),
                _ => Valuation::Invalid,
            }
        },
    }
}

/// Whether two positions agree: with the same symbol they have the same
/// instrument.
pub open spec fn agree(p: PositionModel, q: PositionModel) -> bool {
    p.key() == q.key() ==> p.instrument == q.instrument
}

/// Whether the call agrees with the position: a position that comes in
/// agrees with it.
pub open spec fn call_agrees(op: Insertion, q: PositionModel) -> bool {
    match op {
        Insertion::Position { position } => agree(position, q),
        Insertion::Value { .. } => true,
    }
}

/// Whether the table agrees with what the call brings.
pub open spec fn table_takes(t: Seq<BucketModel>, op: Insertion) -> bool {
    match op {
        Insertion::Position { position } => table_agrees(t, position),
        Insertion::Value { .. } => true,
    }
}

/// Whether the table and the calls agree on the instrument of each symbol:
/// the table with each position that comes in, and these with one another.
pub open spec fn consistent(t: Seq<BucketModel>, ops: Seq<Insertion>) -> bool {
    &&& forall|i: int| 0 <= i < ops.len() ==> table_takes(t, #[trigger] ops[i])
    &&& forall|i: int, j: int|
        0 <= i < ops.len() && 0 <= j < ops.len() && (#[trigger] ops[j]) is Position
            ==> call_agrees(#[trigger] ops[i], ops[j]->position)
}

/// The valuation of a table that took something in is the valuation before
/// with the worth of what came in added.
pub proof fn lemma_valuation_applied(
    t: Seq<BucketModel>,
    op: Insertion,
    root: Seq<char>,
    prices: Map<Seq<char>, real>,
)
    requires
        table_takes(t, op),
    ensures
        valuation(applied(t, op), root, prices) == valuation_after(
            valuation(t, root, prices),
            op,
            root,
            prices,
        ),
{
    match op {
        Insertion::Position { position } => {
            lemma_valuation_insert(t, position, root, prices);
        },
        Insertion::Value { value, asset } => {
            lemma_worth_value(t, value, asset, root, prices);
        },
    }
}

/// Calls that agree with a position leave a table that agrees with it.
pub proof fn lemma_agrees_applied_all(t: Seq<BucketModel>, ops: Seq<Insertion>, q: PositionModel)
    requires
        table_agrees(t, q),
        forall|i: int| 0 <= i < ops.len() ==> call_agrees(#[trigger] ops[i], q),
    ensures
        table_agrees(applied_all(t, ops), q),
    decreases ops.len(),
{
    if ops.len() > 0 {
        let front = ops.drop_last();
        assert forall|i: int| 0 <= i < front.len() implies call_agrees(#[trigger] front[i], q) by {
            assert(front[i] == ops[i]);
        }
        lemma_agrees_applied_all(t, front, q);
        assert(call_agrees(ops[ops.len() - 1], q));
        match ops.last() {
            Insertion::Position { position } => {
                lemma_agrees_insert(applied_all(t, front), position, q);
            },
            Insertion::Value { value, asset } => {
                lemma_agrees_value(applied_all(t, front), value, asset, q);
            },
        }
    }
}

/// The valuation after a run of calls is the valuation before with the worth
/// of each thing that came in added, one after the other.
pub proof fn lemma_valuation_applied_all(
    t: Seq<BucketModel>,
    ops: Seq<Insertion>,
    root: Seq<char>,
    prices: Map<Seq<char>, real>,
)
    requires
        consistent(t, ops),
    ensures
        valuation(applied_all(t, ops), root, prices) == ops.fold_left(
            valuation(t, root, prices),
            |v: Valuation, op: Insertion| valuation_after(v, op, root, prices),
        ),
    decreases ops.len(),
{
    if ops.len() > 0 {
        let front = ops.drop_last();
        let last = ops.last();
        assert(consistent(t, front)) by {
            assert forall|i: int| 0 <= i < front.len() implies table_takes(
                t,
                #[trigger] front[i],
            ) by {
                assert(front[i] == ops[i]);
            }
            assert forall|i: int, j: int|
                0 <= i < front.len() && 0 <= j < front.len() && (
                #[trigger] front[j]) is Position implies call_agrees(
                #[trigger] front[i],
                front[j]->position,
            ) by {
                assert(front[i] == ops[i]);
                assert(front[j] == ops[j]);
            }
        }
        lemma_valuation_applied_all(t, front, root, prices);
        assert(table_takes(applied_all(t, front), last)) by {
            assert(table_takes(t, ops[ops.len() - 1]));
            match last {
                Insertion::Position { position } => {
                    assert forall|i: int| 0 <= i < front.len() implies call_agrees(
                        #[trigger] front[i],
                        position,
                    ) by {
                        assert(front[i] == ops[i]);
                        assert(ops[ops.len() - 1] is Position);
                        assert(call_agrees(ops[i], ops[ops.len() - 1]->position));
                    }
                    lemma_agrees_applied_all(t, front, position);
                },
                Insertion::Value { .. } => {},
            }
        }
        lemma_valuation_applied(applied_all(t, front), last, root, prices);
    }
}

/// Calls in another order are as consistent with the table as they were.
pub proof fn lemma_consistent_any_order(
    t: Seq<BucketModel>,
    ops: Seq<Insertion>,
    others: Seq<Insertion>,
)
    requires
        consistent(t, ops),
        ops.to_multiset() == others.to_multiset(),
    ensures
        consistent(t, others),
{
    assert forall|i: int| 0 <= i < others.len() implies table_takes(t, #[trigger] others[i]) by {
        assert(others.contains(others[i]));
        lemma_same_members(others, ops, others[i]);
        let k = choose|k: int| 0 <= k < ops.len() && ops[k] == others[i];
        assert(table_takes(t, ops[k]));
    }
    assert forall|i: int, j: int|
        0 <= i < others.len() && 0 <= j < others.len() && (
        #[trigger] others[j]) is Position implies call_agrees(
        #[trigger] others[i],
        others[j]->position,
    ) by {
        assert(others.contains(others[i]));
        assert(others.contains(others[j]));
        lemma_same_members(others, ops, others[i]);
        lemma_same_members(others, ops, others[j]);
        let a = choose|a: int| 0 <= a < ops.len() && ops[a] == others[i];
        let b = choose|b: int| 0 <= b < ops.len() && ops[b] == others[j];
        assert(ops[b] is Position);
        assert(call_agrees(ops[a], ops[b]->position));
    }
}

/// The valuation does not depend on the order of the calls that built the
/// table: the same settled values and positions taken in, in whatever
/// order, give the same valuation for every root and all prices, as long as
/// the table and the positions agree on the instrument of each symbol.
pub proof fn lemma_valuation_any_insertion_order(
    t: Seq<BucketModel>,
    ops: Seq<Insertion>,
    others: Seq<Insertion>,
    root: Seq<char>,
    prices: Map<Seq<char>, real>,
)
    requires
        consistent(t, ops),
        ops.to_multiset() == others.to_multiset(),
    ensures
        valuation(applied_all(t, ops), root, prices) == valuation(
            applied_all(t, others),
            root,
            prices,
        ),
{
    lemma_consistent_any_order(t, ops, others);
    lemma_valuation_applied_all(t, ops, root, prices);
    lemma_valuation_applied_all(t, others, root, prices);
    let f = |v: Valuation, op: Insertion| valuation_after(v, op, root, prices);
    assert(commutative_foldl(f)) by {
        assert forall|x: Insertion, y: Insertion, v: Valuation| #[trigger]
            f(f(v, x), y) == f(f(v, y), x) by {
            lemma_valuation_after_commutes(v, x, y, root, prices);
        }
    }
    lemma_fold_left_permutation(ops, others, f, valuation(t, root, prices));
}

/// Two calls add their worth in either order to the same valuation.
pub proof fn lemma_valuation_after_commutes(
    v: Valuation,
    x: Insertion,
    y: Insertion,
    root: Seq<char>,
    prices: Map<Seq<char>, real>,
)
    ensures
        valuation_after(valuation_after(v, x, root, prices), y, root, prices) == valuation_after(
            valuation_after(v, y, root, prices),
            x,
            root,
            prices,
        ),
{
}

/// Whether the positions that the calls bring agree with one another on the
/// instrument of each symbol.
pub open spec fn agreeing(ops: Seq<Insertion>) -> bool {
    forall|i: int, j: int|
        0 <= i < ops.len() && 0 <= j < ops.len() && (#[trigger] ops[j]) is Position
            ==> call_agrees(#[trigger] ops[i], ops[j]->position)
}

/// Two tables built from nothing by the same calls in different orders have
/// the same valuation, for every root and all prices, as long as the
/// positions that came in agree on the instrument of each symbol.
pub proof fn lemma_valuation_of_built_tables(
    ops: Seq<Insertion>,
    others: Seq<Insertion>,
    root: Seq<char>,
    prices: Map<Seq<char>, real>,
)
    requires
        agreeing(ops),
        ops.to_multiset() == others.to_multiset(),
    ensures
        valuation(applied_all(Seq::empty(), ops), root, prices) == valuation(
            applied_all(Seq::empty(), others),
            root,
            prices,
        ),
{
    let nothing = Seq::<BucketModel>::empty();
    assert forall|i: int| 0 <= i < ops.len() implies table_takes(nothing, #[trigger] ops[i]) by {}
    lemma_valuation_any_insertion_order(nothing, ops, others, root, prices);
}

} // verus!
