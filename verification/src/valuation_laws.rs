//! Laws of the valuation: what it needs, and what it does not depend on.

use vstd::prelude::*;
use vstd::seq_lib::*;
use crate::holding::{closed, equivalent, Holding};
use crate::instrument::{spot_of, InstrumentModel};
use crate::laws::{lemma_closed_value, lemma_equivalent_by_residual};
use crate::position::PositionModel;
use crate::table::{holds_asset, index_of_asset, table_wf, BucketModel};
use crate::tree::{
    branch_of, branch_priced, branch_worth, branches_of, branches_worth, root_of, tree_of,
};
use crate::valuation::cross_position;
use crate::valuation::{
    both, bucket_instruments, bucket_priced, bucket_worth, closed_at, closed_sum, held_instruments,
    instruments_of, positions_priced, table_priced, table_worth, valuation, Valuation,
};

verus! {

/// Whether a price is there for each of the instruments.
pub open spec fn all_quoted(needed: Seq<InstrumentModel>, prices: Map<Seq<char>, real>) -> bool {
    forall|i: int| 0 <= i < needed.len() ==> prices.dom().contains((#[trigger] needed[i]).symbol.text())
}

/// A price is there for every instrument that the valuation of a bucket
/// needs exactly when a price is there for each instrument listed for it.
pub proof fn lemma_bucket_priced_by_instruments(
    b: BucketModel,
    root: Seq<char>,
    prices: Map<Seq<char>, real>,
)
    ensures
        bucket_priced(b, root, prices) <==> all_quoted(bucket_instruments(b, root), prices),
{
    let ps = b.single.positions;
    let held = held_instruments(ps);
    let needed = bucket_instruments(b, root);
    if bucket_priced(b, root, prices) {
        assert forall|i: int| 0 <= i < needed.len() implies prices.dom().contains(
            (#[trigger] needed[i]).symbol.text(),
        ) by {
            if i < ps.len() {
                assert(needed[i] == ps[i].instrument);
                assert(prices.dom().contains(ps[i].key()));
            }
        }
    }
    if all_quoted(needed, prices) {
        assert forall|i: int| 0 <= i < ps.len() implies prices.dom().contains(
            (#[trigger] ps[i]).key(),
        ) by {
            assert(needed[i] == ps[i].instrument);
        }
        if b.asset != root {
            assert(needed[ps.len() as int] == spot_of(b.asset, root));
        }
    }
}

/// A price is there for every instrument that the valuation of the table
/// needs exactly when a price is there for each instrument listed for it.
pub proof fn lemma_priced_by_instruments(
    t: Seq<BucketModel>,
    root: Seq<char>,
    prices: Map<Seq<char>, real>,
)
    ensures
        table_priced(t, root, prices) <==> all_quoted(instruments_of(t, root), prices),
    decreases t.len(),
{
    if t.len() > 0 {
        let front = t.drop_last();
        let b = t.last();
        lemma_priced_by_instruments(front, root, prices);
        lemma_bucket_priced_by_instruments(b, root, prices);
        let head = instruments_of(front, root);
        let tail = bucket_instruments(b, root);
        let whole = instruments_of(t, root);
        assert(whole == head + tail);
        if table_priced(t, root, prices) {
            assert forall|k: int| 0 <= k < front.len() implies bucket_priced(
                #[trigger] front[k],
                root,
                prices,
            ) by {
                assert(front[k] == t[k]);
            }
            assert(bucket_priced(t[t.len() - 1], root, prices));
            assert forall|i: int| 0 <= i < whole.len() implies prices.dom().contains(
                (#[trigger] whole[i]).symbol.text(),
            ) by {
                if i < head.len() {
                    assert(whole[i] == head[i]);
                } else {
                    assert(whole[i] == tail[i - head.len()]);
                }
            }
        }
        if all_quoted(whole, prices) {
            assert forall|i: int| 0 <= i < head.len() implies prices.dom().contains(
                (#[trigger] head[i]).symbol.text(),
            ) by {
                assert(whole[i] == head[i]);
            }
            assert forall|i: int| 0 <= i < tail.len() implies prices.dom().contains(
                (#[trigger] tail[i]).symbol.text(),
            ) by {
                assert(whole[head.len() + i] == tail[i]);
            }
            assert forall|k: int| 0 <= k < t.len() implies bucket_priced(
                #[trigger] t[k],
                root,
                prices,
            ) by {
                if k < front.len() {
                    assert(front[k] == t[k]);
                }
            }
        }
    }
}

/// The valuation leaves no amount for want of a price exactly when one of
/// the instruments listed for it has a symbol without a price.
pub proof fn lemma_missing_iff_unquoted(
    t: Seq<BucketModel>,
    root: Seq<char>,
    prices: Map<Seq<char>, real>,
)
    ensures
        valuation(t, root, prices) is Missing <==> exists|i: int|
            0 <= i < instruments_of(t, root).len() && !prices.dom().contains(
                (#[trigger] instruments_of(t, root)[i]).symbol.text(),
            ),
{
    lemma_priced_by_instruments(t, root, prices);
}

/// Equivalent holdings leave the same value when closed at the same price.
pub proof fn lemma_closed_respects_equivalence(a: Holding, b: Holding, price: real)
    requires
        equivalent(a, b),
    ensures
        closed(a, price) == closed(b, price),
{
    lemma_equivalent_by_residual(a, b);
    lemma_closed_value(a, price);
    lemma_closed_value(b, price);
    assert(a.value + (price - a.price) * a.size == (a.value - a.price * a.size) + price * a.size)
        by (nonlinear_arith);
    assert(b.value + (price - b.price) * b.size == (b.value - b.price * b.size) + price * b.size)
        by (nonlinear_arith);
}

/// Sequences that hold the same items as often as each other have the same
/// members.
pub proof fn lemma_same_members<A>(s: Seq<A>, r: Seq<A>, x: A)
    requires
        s.to_multiset() == r.to_multiset(),
        s.contains(x),
    ensures
        r.contains(x),
{
    s.to_multiset_ensures();
    r.to_multiset_ensures();
    assert(s.to_multiset().count(x) > 0);
    assert(r.to_multiset().count(x) > 0);
}

/// What closing the positions leaves in sum, as a fold from the left.
pub proof fn lemma_closed_sum_is_fold(ps: Seq<PositionModel>, prices: Map<Seq<char>, real>)
    ensures
        closed_sum(ps, prices) == ps.fold_left(
            Some(0real),
            |acc: Option<real>, p: PositionModel| both(acc, closed_at(p, prices)),
        ),
    decreases ps.len(),
{
    if ps.len() > 0 {
        lemma_closed_sum_is_fold(ps.drop_last(), prices);
    }
}

/// What the buckets are worth in sum, as a fold from the left.
pub proof fn lemma_table_worth_is_fold(
    t: Seq<BucketModel>,
    root: Seq<char>,
    prices: Map<Seq<char>, real>,
)
    ensures
        table_worth(t, root, prices) == t.fold_left(
            Some(0real),
            |acc: Option<real>, b: BucketModel| both(acc, bucket_worth(b, root, prices)),
        ),
    decreases t.len(),
{
    if t.len() > 0 {
        lemma_table_worth_is_fold(t.drop_last(), root, prices);
    }
}

/// The order of the positions does not matter to what closing them leaves
/// in sum.
pub proof fn lemma_closed_sum_any_order(
    ps: Seq<PositionModel>,
    qs: Seq<PositionModel>,
    prices: Map<Seq<char>, real>,
)
    requires
        ps.to_multiset() == qs.to_multiset(),
    ensures
        closed_sum(ps, prices) == closed_sum(qs, prices),
        positions_priced(ps, prices) == positions_priced(qs, prices),
{
    broadcast use group_to_multiset_ensures;

    let f = |acc: Option<real>, p: PositionModel| both(acc, closed_at(p, prices));
    lemma_closed_sum_is_fold(ps, prices);
    lemma_closed_sum_is_fold(qs, prices);
    assert(commutative_foldl(f));
    lemma_fold_left_permutation(ps, qs, f, Some(0real));
    if positions_priced(ps, prices) {
        assert forall|i: int| 0 <= i < qs.len() implies prices.dom().contains(
            (#[trigger] qs[i]).key(),
        ) by {
            assert(qs.contains(qs[i]));
            lemma_same_members(qs, ps, qs[i]);
            let j = choose|j: int| 0 <= j < ps.len() && ps[j] == qs[i];
            assert(prices.dom().contains(ps[j].key()));
        }
    }
    if positions_priced(qs, prices) {
        assert forall|i: int| 0 <= i < ps.len() implies prices.dom().contains(
            (#[trigger] ps[i]).key(),
        ) by {
            assert(ps.contains(ps[i]));
            lemma_same_members(ps, qs, ps[i]);
            let j = choose|j: int| 0 <= j < qs.len() && qs[j] == ps[i];
            assert(prices.dom().contains(qs[j].key()));
        }
    }
}

/// Whether two buckets hold the same asset, the same settled value and the
/// same positions, in whatever order.
pub open spec fn same_bucket(a: BucketModel, b: BucketModel) -> bool {
    &&& a.asset == b.asset
    &&& a.single.value == b.single.value
    &&& a.single.positions.to_multiset() == b.single.positions.to_multiset()
}

/// The order of the positions within the buckets does not matter to the
/// valuation.
pub proof fn lemma_valuation_any_position_order(
    t: Seq<BucketModel>,
    u: Seq<BucketModel>,
    root: Seq<char>,
    prices: Map<Seq<char>, real>,
)
    requires
        t.len() == u.len(),
        forall|k: int| 0 <= k < t.len() ==> same_bucket(#[trigger] t[k], u[k]),
    ensures
        valuation(t, root, prices) == valuation(u, root, prices),
{
    lemma_worth_any_position_order(t, u, root, prices);
    assert forall|k: int| 0 <= k < t.len() implies bucket_priced(t[k], root, prices)
        == bucket_priced(u[k], root, prices) by {
        assert(same_bucket(t[k], u[k]));
        lemma_closed_sum_any_order(t[k].single.positions, u[k].single.positions, prices);
    }
    if table_priced(t, root, prices) {
        assert forall|k: int| 0 <= k < u.len() implies bucket_priced(
            #[trigger] u[k],
            root,
            prices,
        ) by {
            assert(bucket_priced(t[k], root, prices));
        }
    }
    if table_priced(u, root, prices) {
        assert forall|k: int| 0 <= k < t.len() implies bucket_priced(
            #[trigger] t[k],
            root,
            prices,
        ) by {
            assert(bucket_priced(u[k], root, prices));
        }
    }
}

/// The order of the positions within the buckets does not matter to what
/// the buckets are worth in sum.
pub proof fn lemma_worth_any_position_order(
    t: Seq<BucketModel>,
    u: Seq<BucketModel>,
    root: Seq<char>,
    prices: Map<Seq<char>, real>,
)
    requires
        t.len() == u.len(),
        forall|k: int| 0 <= k < t.len() ==> same_bucket(#[trigger] t[k], u[k]),
    ensures
        table_worth(t, root, prices) == table_worth(u, root, prices),
    decreases t.len(),
{
    if t.len() > 0 {
        let tf = t.drop_last();
        let uf = u.drop_last();
        assert forall|k: int| 0 <= k < tf.len() implies same_bucket(#[trigger] tf[k], uf[k]) by {
            assert(same_bucket(t[k], u[k]));
        }
        lemma_worth_any_position_order(tf, uf, root, prices);
        assert(same_bucket(t[t.len() - 1], u[t.len() - 1]));
        lemma_closed_sum_any_order(t.last().single.positions, u.last().single.positions, prices);
    }
}

/// The order of the buckets does not matter to the valuation.
pub proof fn lemma_valuation_any_bucket_order(
    t: Seq<BucketModel>,
    u: Seq<BucketModel>,
    root: Seq<char>,
    prices: Map<Seq<char>, real>,
)
    requires
        t.to_multiset() == u.to_multiset(),
    ensures
        valuation(t, root, prices) == valuation(u, root, prices),
{
    broadcast use group_to_multiset_ensures;

    let f = |acc: Option<real>, b: BucketModel| both(acc, bucket_worth(b, root, prices));
    lemma_table_worth_is_fold(t, root, prices);
    lemma_table_worth_is_fold(u, root, prices);
    assert(commutative_foldl(f));
    lemma_fold_left_permutation(t, u, f, Some(0real));
    if table_priced(t, root, prices) {
        assert forall|k: int| 0 <= k < u.len() implies bucket_priced(
            #[trigger] u[k],
            root,
            prices,
        ) by {
            assert(u.contains(u[k]));
            lemma_same_members(u, t, u[k]);
            let j = choose|j: int| 0 <= j < t.len() && t[j] == u[k];
            assert(bucket_priced(t[j], root, prices));
        }
    }
    if table_priced(u, root, prices) {
        assert forall|k: int| 0 <= k < t.len() implies bucket_priced(
            #[trigger] t[k],
            root,
            prices,
        ) by {
            assert(t.contains(t[k]));
            lemma_same_members(t, u, t[k]);
            let j = choose|j: int| 0 <= j < u.len() && u[j] == t[k];
            assert(bucket_priced(u[j], root, prices));
        }
    }
}

/// The valuation does not depend on the order in which buckets and
/// positions stand: a table `u` that holds the buckets of `mid` in another
/// order, where `mid` holds bucket by bucket the positions of `t` in another
/// order, has the valuation of `t`.
pub proof fn lemma_valuation_order_independent(
    t: Seq<BucketModel>,
    mid: Seq<BucketModel>,
    u: Seq<BucketModel>,
    root: Seq<char>,
    prices: Map<Seq<char>, real>,
)
    requires
        t.len() == mid.len(),
        forall|k: int| 0 <= k < t.len() ==> same_bucket(#[trigger] t[k], mid[k]),
        mid.to_multiset() == u.to_multiset(),
    ensures
        valuation(t, root, prices) == valuation(u, root, prices),
{
    lemma_valuation_any_position_order(t, mid, root, prices);
    lemma_valuation_any_bucket_order(mid, u, root, prices);
}

/// A branch is worth what its bucket is worth in the root.
pub proof fn lemma_branch_worth(b: BucketModel, root: Seq<char>, prices: Map<Seq<char>, real>)
    requires
        b.asset != root,
    ensures
        branch_worth(branch_of(b, root), prices) == bucket_worth(b, root, prices),
        branch_priced(branch_of(b, root), prices) == bucket_priced(b, root, prices),
{
    match closed_sum(b.single.positions, prices) {
        Some(open) => {
            let total = open + b.single.value;
            let cross = cross_position(b.asset, root, total);
            let price = prices[cross.key()];
            lemma_closed_value(cross.holding, price);
            assert(0real + (price - 0real) * total == total * price) by (nonlinear_arith);
        },
        None => {},
    }
}

/// What the buckets of the root asset are worth in sum.
pub open spec fn own_worth(t: Seq<BucketModel>, root: Seq<char>, prices: Map<Seq<char>, real>) -> Option<
    real,
>
    decreases t.len(),
{
    if t.len() == 0 {
        Some(0real)
    } else if t.last().asset == root {
        both(own_worth(t.drop_last(), root, prices), bucket_worth(t.last(), root, prices))
    } else {
        own_worth(t.drop_last(), root, prices)
    }
}

/// What the table is worth is what its branches are worth plus what the
/// buckets of the root are worth.
pub proof fn lemma_worth_splits(t: Seq<BucketModel>, root: Seq<char>, prices: Map<Seq<char>, real>)
    ensures
        table_worth(t, root, prices) == both(
            branches_worth(branches_of(t, root), prices),
            own_worth(t, root, prices),
        ),
    decreases t.len(),
{
    if t.len() > 0 {
        lemma_worth_splits(t.drop_last(), root, prices);
        if t.last().asset != root {
            lemma_branch_worth(t.last(), root, prices);
            let pushed = branches_of(t.drop_last(), root).push(branch_of(t.last(), root));
            assert(pushed.drop_last() =~= branches_of(t.drop_last(), root));
        }
    }
}

/// In a well-formed table the buckets of the root are worth what the one
/// balance of the root is worth.
pub proof fn lemma_own_worth(t: Seq<BucketModel>, root: Seq<char>, prices: Map<Seq<char>, real>)
    requires
        table_wf(t),
    ensures
        own_worth(t, root, prices) == match closed_sum(root_of(t, root).positions, prices) {
            Some(open) => Some(open + root_of(t, root).value),
            None => None,
        },
    decreases t.len(),
{
    if t.len() == 0 {
        assert(!holds_asset(t, root));
    } else {
        let front = t.drop_last();
        assert(table_wf(front)) by {
            assert forall|i: int| 0 <= i < front.len() implies front[i] == t[i] by {}
        }
        lemma_own_worth(front, root, prices);
        if t.last().asset == root {
            assert(t[t.len() - 1].asset == root);
            assert(holds_asset(t, root));
            let i = index_of_asset(t, root);
            assert(i == t.len() - 1);
            if holds_asset(front, root) {
                let j = index_of_asset(front, root);
                assert(t[j].asset == root);
                assert(false);
            }
        } else {
            if holds_asset(t, root) {
                let i = index_of_asset(t, root);
                assert(i < front.len());
                assert(front[i].asset == root);
                assert(holds_asset(front, root));
                let j = index_of_asset(front, root);
                assert(t[j].asset == root);
                assert(i == j);
            } else {
                if holds_asset(front, root) {
                    let j = index_of_asset(front, root);
                    assert(t[j].asset == root);
                    assert(false);
                }
            }
        }
    }
}

/// A price is there for every branch exactly when one is there for every
/// bucket of another asset than the root.
pub proof fn lemma_branches_priced(
    t: Seq<BucketModel>,
    root: Seq<char>,
    prices: Map<Seq<char>, real>,
)
    ensures
        (forall|k: int|
            0 <= k < branches_of(t, root).len() ==> branch_priced(
                #[trigger] branches_of(t, root)[k],
                prices,
            )) <==> (forall|k: int|
            0 <= k < t.len() && (#[trigger] t[k]).asset != root ==> bucket_priced(
                t[k],
                root,
                prices,
            )),
    decreases t.len(),
{
    if t.len() > 0 {
        let front = t.drop_last();
        let last = t.last();
        lemma_branches_priced(front, root, prices);
        let bs = branches_of(t, root);
        let fs = branches_of(front, root);
        if last.asset != root {
            lemma_branch_worth(last, root, prices);
            assert(bs == fs.push(branch_of(last, root)));
        } else {
            assert(bs == fs);
        }
        if forall|k: int| 0 <= k < bs.len() ==> branch_priced(#[trigger] bs[k], prices) {
            assert forall|k: int| 0 <= k < fs.len() implies branch_priced(
                #[trigger] fs[k],
                prices,
            ) by {
                assert(fs[k] == bs[k]);
            }
            assert forall|k: int| 0 <= k < t.len() && (#[trigger] t[k]).asset
                != root implies bucket_priced(t[k], root, prices) by {
                if k < front.len() {
                    assert(front[k] == t[k]);
                } else {
                    assert(bs[bs.len() - 1] == branch_of(last, root));
                }
            }
        }
        if forall|k: int|
            0 <= k < t.len() && (#[trigger] t[k]).asset != root ==> bucket_priced(
                t[k],
                root,
                prices,
            ) {
            assert forall|k: int| 0 <= k < front.len() && (#[trigger] front[k]).asset
                != root implies bucket_priced(front[k], root, prices) by {
                assert(front[k] == t[k]);
            }
            assert forall|k: int| 0 <= k < bs.len() implies branch_priced(
                #[trigger] bs[k],
                prices,
            ) by {
                if k < fs.len() {
                    assert(bs[k] == fs[k]);
                } else {
                    assert(t[t.len() - 1].asset != root);
                }
            }
        }
    }
}

/// The tree of a well-formed table has the valuation of the table.
pub proof fn lemma_tree_valuation(t: Seq<BucketModel>, root: Seq<char>, prices: Map<Seq<char>, real>)
    requires
        table_wf(t),
    ensures
        tree_of(t, root).valuation(prices) == valuation(t, root, prices),
{
    let tree = tree_of(t, root);
    lemma_worth_splits(t, root, prices);
    lemma_own_worth(t, root, prices);
    lemma_branches_priced(t, root, prices);
    let own = root_of(t, root);
    assert(tree.worth(prices) == table_worth(t, root, prices));
    if holds_asset(t, root) {
        let i = index_of_asset(t, root);
        assert(t[i].asset == root);
        if table_priced(t, root, prices) {
            assert(bucket_priced(t[i], root, prices));
            assert(tree.priced(prices));
        }
        if tree.priced(prices) {
            assert forall|k: int| 0 <= k < t.len() implies bucket_priced(
                #[trigger] t[k],
                root,
                prices,
            ) by {
                if t[k].asset == root {
                    assert(k == i);
                }
            }
        }
    } else {
        assert(own.positions.len() == 0);
        if table_priced(t, root, prices) {
            assert(tree.priced(prices));
        }
        if tree.priced(prices) {
            assert forall|k: int| 0 <= k < t.len() implies bucket_priced(
                #[trigger] t[k],
                root,
                prices,
            ) by {
                if t[k].asset == root {
                    assert(holds_asset(t, root));
                }
            }
        }
    }
}

} // verus!
