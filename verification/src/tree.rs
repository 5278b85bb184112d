//! The position tree: the root asset with its own balance, and under it one
//! branch for each other asset that the table holds.

use vstd::prelude::*;
use vstd::string::*;
use crate::asset::Asset;
use crate::bucket::{SingleValue, SingleValueModel};
use crate::convert::InvalidReversedPrice;
use crate::expr::{amount, carried_over, carry_over, single_answerable, sum_answers, sum_options};
use crate::instrument::{spot_of, Instrument, InstrumentModel};
use crate::num::PositionNum;
use crate::position::{Position, PositionModel};
use crate::prices::Prices;
use crate::render::{branches_text, node_text, tree_text};
use crate::table::{holds_asset, index_of_asset, BucketModel, Positions};
use crate::valuation::{
    both, closed_sum, held_instruments, positions_priced, Valuation,
};

verus! {

/// A branch of the tree as plain values: the balance of another asset, and
/// the spot instrument that carries it over to the root.
pub struct BranchModel {
    pub instrument: InstrumentModel,
    pub bucket: BucketModel,
}

/// A position tree as plain values.
pub struct TreeModel {
    pub asset: Seq<char>,
    pub root: SingleValueModel,
    pub children: Seq<BranchModel>,
}

/// The balance of the root asset in the table, or an empty balance where the
/// table has none.
pub open spec fn root_of(t: Seq<BucketModel>, root: Seq<char>) -> SingleValueModel {
    if holds_asset(t, root) {
        t[index_of_asset(t, root)].single
    } else {
        SingleValueModel { value: 0real, positions: Seq::empty() }
    }
}

/// The branch of a bucket under the root.
pub open spec fn branch_of(b: BucketModel, root: Seq<char>) -> BranchModel {
    BranchModel { instrument: spot_of(b.asset, root), bucket: b }
}

/// The branches of the table under the root: one for each bucket of another
/// asset, in their order.
pub open spec fn branches_of(t: Seq<BucketModel>, root: Seq<char>) -> Seq<BranchModel>
    decreases t.len(),
{
    if t.len() == 0 {
        Seq::empty()
    } else if t.last().asset == root {
        branches_of(t.drop_last(), root)
    } else {
        branches_of(t.drop_last(), root).push(branch_of(t.last(), root))
    }
}

/// The tree of the table under the root.
pub open spec fn tree_of(t: Seq<BucketModel>, root: Seq<char>) -> TreeModel {
    TreeModel { asset: root, root: root_of(t, root), children: branches_of(t, root) }
}

/// The instruments of the positions of every branch, branch by branch.
pub open spec fn branch_instruments(children: Seq<BranchModel>) -> Seq<InstrumentModel>
    decreases children.len(),
{
    if children.len() == 0 {
        Seq::empty()
    } else {
        branch_instruments(children.drop_last()) + held_instruments(
            children.last().bucket.single.positions,
        )
    }
}

impl TreeModel {
    /// The instruments that the tree cares about: those held in the
    /// branches, then the spot of each branch, then those held at the root.
    pub open spec fn instruments(self) -> Seq<InstrumentModel> {
        branch_instruments(self.children) + self.children.map_values(
            |c: BranchModel| c.instrument,
        ) + held_instruments(self.root.positions)
    }

    /// Whether a price is there for every instrument that the tree cares
    /// about.
    pub open spec fn priced(self, prices: Map<Seq<char>, real>) -> bool {
        &&& positions_priced(self.root.positions, prices)
        &&& forall|k: int|
            0 <= k < self.children.len() ==> branch_priced(#[trigger] self.children[k], prices)
    }

    /// What the tree is worth in its root asset: the branches carried over,
    /// the positions of the root closed, and the settled value of the root.
    pub open spec fn worth(self, prices: Map<Seq<char>, real>) -> Option<real> {
        match both(branches_worth(self.children, prices), closed_sum(self.root.positions, prices)) {
            Some(v) => Some(v + self.root.value),
            None => None,
        }
    }

    /// The valuation of the tree at the given prices, all or nothing.
    pub open spec fn valuation(self, prices: Map<Seq<char>, real>) -> Valuation {
        if !self.priced(prices) {
            Valuation::Missing
        } else {
            match self.worth(prices) {
                Some(v) => Valuation::Worth(v),
                None => Valuation::Invalid,
            }
        }
    }
}

/// Whether a price is there for the positions of the branch and for its
/// spot.
pub open spec fn branch_priced(c: BranchModel, prices: Map<Seq<char>, real>) -> bool {
    &&& positions_priced(c.bucket.single.positions, prices)
    &&& prices.dom().contains(c.instrument.symbol.text())
}

/// What a branch is worth at the root: its positions closed plus its settled
/// value, times the price of its spot.
pub open spec fn branch_worth(c: BranchModel, prices: Map<Seq<char>, real>) -> Option<real> {
    match closed_sum(c.bucket.single.positions, prices) {
        Some(open) => Some((open + c.bucket.single.value) * prices[c.instrument.symbol.text()]),
        None => None,
    }
}

/// What the branches are worth in sum.
pub open spec fn branches_worth(children: Seq<BranchModel>, prices: Map<Seq<char>, real>) -> Option<
    real,
>
    decreases children.len(),
{
    if children.len() == 0 {
        Some(0real)
    } else {
        both(branches_worth(children.drop_last(), prices), branch_worth(children.last(), prices))
    }
}

/// Whether `worth` is what the branch comes to for some answers of the
/// valuer: what its balance comes to, carried over by its spot.
pub open spec fn branch_answerable<T: PositionNum, F: Fn(&Position<T>) -> Option<T>>(
    eval: F,
    c: BranchModel,
    worth: Option<real>,
) -> bool {
    exists|total: Option<real>|
        #[trigger] single_answerable(eval, c.bucket.single, total) && carried_over(
            eval,
            c.instrument,
            total,
            worth,
        )
}

/// Whether `worths` is what the branches come to, one each, and `own` what
/// the balance of the root comes to, for some answers of the valuer.
pub open spec fn tree_answered<T: PositionNum, F: Fn(&Position<T>) -> Option<T>>(
    eval: F,
    tree: TreeModel,
    worths: Seq<Option<real>>,
    own: Option<real>,
) -> bool {
    &&& worths.len() == tree.children.len()
    &&& forall|k: int|
        0 <= k < tree.children.len() ==> branch_answerable(
            eval,
            tree.children[k],
            #[trigger] worths[k],
        )
    &&& single_answerable(eval, tree.root, own)
}

#[derive(Debug)]
struct Branch<T> {
    instrument: Instrument,
    asset: Asset,
    single: SingleValue<T>,
}

impl<T: PositionNum> View for Branch<T> {
    type V = BranchModel;

    closed spec fn view(&self) -> BranchModel {
        BranchModel {
            instrument: self.instrument@,
            bucket: BucketModel { asset: self.asset@, single: self.single@ },
        }
    }
}

/// Position Tree.
#[derive(Debug)]
pub struct PositionTree<T> {
    asset: Asset,
    root: SingleValue<T>,
    children: Vec<Branch<T>>,
}

impl<T: PositionNum> View for PositionTree<T> {
    type V = TreeModel;

    closed spec fn view(&self) -> TreeModel {
        TreeModel {
            asset: self.asset@,
            root: self.root@,
            children: Seq::new(self.children@.len(), |i: int| self.children@[i]@),
        }
    }
}


impl<T: PositionNum> PositionTree<T> {
    /// The root asset.
    pub fn asset(&self) -> (r: &Asset)
        ensures
            r@ == self@.asset,
    {
        &self.asset
    }

    /// The instruments that the tree cares about: those held in the
    /// branches, then the spot of each branch, then those held at the root.
    pub fn instruments(&self) -> (r: Vec<Instrument>)
        ensures
            r@.map_values(|i: Instrument| i@) == self@.instruments(),
    {
        let ghost children = self@.children;
        let mut out: Vec<Instrument> = Vec::new();
        let n = self.children.len();
        let mut k: usize = 0;
        assert(children.take(0) =~= Seq::<BranchModel>::empty());
        assert(out@.map_values(|i: Instrument| i@) =~= branch_instruments(children.take(0)));
        while k < n
            invariant
                n == children.len(),
                children == self@.children,
                k <= n,
                out@.map_values(|i: Instrument| i@) == branch_instruments(children.take(k as int)),
            decreases n - k,
        {
            let ghost start = out@.map_values(|i: Instrument| i@);
            let single = &self.children[k].single;
            let ghost ps = children[k as int].bucket.single.positions;
            let m = single.len();
            let mut i: usize = 0;
            while i < m
                invariant
                    m == ps.len(),
                    single@.positions == ps,
                    i <= m,
                    out@.map_values(|i: Instrument| i@) == start + held_instruments(
                        ps.take(i as int),
                    ),
                decreases m - i,
            {
                let ghost before = out@.map_values(|i: Instrument| i@);
                out.push(single.at(i).instrument().clone());
                assert(out@.map_values(|i: Instrument| i@) =~= before.push(
                    ps[i as int].instrument,
                ));
                assert(held_instruments(ps.take(i + 1)) =~= held_instruments(
                    ps.take(i as int),
                ).push(ps[i as int].instrument));
                i += 1;
            }
            proof {
                assert(ps.take(m as int) =~= ps);
                let next = children.take(k + 1);
                assert(next.drop_last() =~= children.take(k as int));
                assert(next.last() == children[k as int]);
            }
            k += 1;
        }
        assert(children.take(n as int) =~= children);
        let ghost held = out@.map_values(|i: Instrument| i@);
        let mut k: usize = 0;
        while k < n
            invariant
                n == children.len(),
                children == self@.children,
                k <= n,
                out@.map_values(|i: Instrument| i@) == held + children.take(k as int).map_values(
                    |c: BranchModel| c.instrument,
                ),
            decreases n - k,
        {
            let ghost before = out@.map_values(|i: Instrument| i@);
            out.push(self.children[k].instrument.clone());
            assert(out@.map_values(|i: Instrument| i@) =~= before.push(
                children[k as int].instrument,
            ));
            assert(children.take(k + 1).map_values(|c: BranchModel| c.instrument)
                =~= children.take(k as int).map_values(|c: BranchModel| c.instrument).push(
                children[k as int].instrument,
            ));
            k += 1;
        }
        assert(children.take(n as int) =~= children);
        let ghost keyed = out@.map_values(|i: Instrument| i@);
        let ghost ps = self@.root.positions;
        let m = self.root.len();
        let mut i: usize = 0;
        while i < m
            invariant
                m == ps.len(),
                ps == self@.root.positions,
                i <= m,
                out@.map_values(|i: Instrument| i@) == keyed + held_instruments(ps.take(i as int)),
            decreases m - i,
        {
            let ghost before = out@.map_values(|i: Instrument| i@);
            out.push(self.root.at(i).instrument().clone());
            assert(out@.map_values(|i: Instrument| i@) =~= before.push(ps[i as int].instrument));
            assert(held_instruments(ps.take(i + 1)) =~= held_instruments(ps.take(i as int)).push(
                ps[i as int].instrument,
            ));
            i += 1;
        }
        assert(ps.take(m as int) =~= ps);
        out
    }

    /// Whether a price is there for every instrument that the tree cares
    /// about.
    pub fn priced(&self, prices: &Prices<T>) -> (b: bool)
        requires
            prices.wf(),
        ensures
            b == self@.priced(prices@),
    {
        if !self.root.priced(prices) {
            return false;
        }
        let n = self.children.len();
        let mut k: usize = 0;
        while k < n
            invariant
                n == self@.children.len(),
                k <= n,
                prices.wf(),
                forall|j: int| 0 <= j < k ==> branch_priced(#[trigger] self@.children[j], prices@),
            decreases n - k,
        {
            let child = &self.children[k];
            if !child.single.priced(prices) || prices.get(
                child.instrument.as_symbol(),
            ).is_none() {
                assert(!branch_priced(self@.children[k as int], prices@));
                return false;
            }
            k += 1;
        }
        true
    }

    /// Evaluates the tree at the given prices: each branch closed and
    /// carried over at the price of its spot, the positions of the root
    /// closed, and the settled value of the root. The result is all or
    /// nothing: where a price is missing there is no amount. A zero price in
    /// reversed form is refused when no price is missing.
    pub fn eval(&self, prices: &Prices<T>) -> (r: Result<Option<T>, InvalidReversedPrice>)
        requires
            prices.wf(),
        ensures
            match self@.valuation(prices@) {
                Valuation::Missing => r is Ok && r->Ok_0 is None,
                Valuation::Invalid => r is Err,
                Valuation::Worth(v) => r is Ok && r->Ok_0 is Some && r->Ok_0->Some_0.value() == v,
            },
    {
        if !self.priced(prices) {
            return Ok(None);
        }
        let ghost children = self@.children;
        let mut acc: Option<T> = Some(T::zero());
        let n = self.children.len();
        let mut k: usize = 0;
        assert(children.take(0) =~= Seq::<BranchModel>::empty());
        while k < n
            invariant
                n == children.len(),
                children == self@.children,
                k <= n,
                prices.wf(),
                self@.priced(prices@),
                match acc {
                    Some(v) => branches_worth(children.take(k as int), prices@) == Some(v.value()),
                    None => branches_worth(children.take(k as int), prices@).is_none(),
                },
            decreases n - k,
        {
            proof {
                let next = children.take(k + 1);
                assert(next.drop_last() =~= children.take(k as int));
                assert(next.last() == children[k as int]);
                assert(branch_priced(children[k as int], prices@));
            }
            let child = &self.children[k];
            let worth = match (
                child.single.closed(prices),
                prices.get(child.instrument.as_symbol()),
            ) {
                (Some(open), Some(price)) => Some(open.add(child.single.value()).mul(price)),
                _ => None,
            };
            acc = match (acc, worth) {
                (Some(a), Some(w)) => Some(a.add(&w)),
                _ => None,
            };
            k += 1;
        }
        assert(children.take(n as int) =~= children);
        match (acc, self.root.closed(prices)) {
            (Some(a), Some(own)) => Ok(Some(a.add(&own).add(self.root.value()))),
            _ => Err(InvalidReversedPrice),
        }
    }
}

impl<T: PositionNum> Positions<T> {
    /// The tree of the table under the root asset: the balance of the root
    /// itself, and a branch for each bucket of another asset.
    pub fn as_tree(&self, root: &Asset) -> (r: PositionTree<T>)
        requires
            self.wf(),
        ensures
            r@ == tree_of(self@, root@),
    {
        let mut children: Vec<Branch<T>> = Vec::new();
        let n = self.len();
        let mut k: usize = 0;
        assert(self@.take(0) =~= Seq::<BucketModel>::empty());
        while k < n
            invariant
                n == self@.len(),
                k <= n,
                Seq::new(children@.len(), |i: int| children@[i]@) == branches_of(
                    self@.take(k as int),
                    root@,
                ),
            decreases n - k,
        {
            let ghost before = Seq::new(children@.len(), |i: int| children@[i]@);
            proof {
                let next = self@.take(k + 1);
                assert(next.drop_last() =~= self@.take(k as int));
                assert(next.last() == self@[k as int]);
            }
            let asset = self.asset_at(k);
            if !(*asset == *root) {
                children.push(
                    Branch {
                        instrument: Instrument::spot(asset, root),
                        asset: asset.clone(),
                        single: self.single_at(k).clone(),
                    },
                );
                assert(Seq::new(children@.len(), |i: int| children@[i]@) =~= before.push(
                    branch_of(self@[k as int], root@),
                ));
            }
            k += 1;
        }
        assert(self@.take(n as int) =~= self@);
        let own = match self.find(root) {
            Some(i) => self.single_at(i).clone(),
            None => SingleValue::default(),
        };
        PositionTree { asset: root.clone(), root: own, children }
    }
}

impl<T: PositionNum> Position<T> {
    /// The tree of this position alone, under its quote asset.
    pub fn as_tree(&self) -> (r: PositionTree<T>)
        ensures
            r@ == (TreeModel {
                asset: self@.instrument.quote,
                root: SingleValueModel { value: 0real, positions: seq![self@] },
                children: Seq::empty(),
            }),
    {
        let mut root = SingleValue::default();
        root.insert(self.clone());
        assert(root@.positions =~= seq![self@]);
        let r = PositionTree {
            asset: self.instrument().quote().clone(),
            root,
            children: Vec::new(),
        };
        assert(r@.children =~= Seq::<BranchModel>::empty());
        r
    }
}

impl<T: PositionNum> PositionTree<T> {
    /// The text of one node: its positions in a row and its subtotal in its
    /// asset.
    fn node_to_text(asset: &Asset, single: &SingleValue<T>, lead: bool) -> (r: String)
        ensures
            r@ == node_text::<T>(asset@, single@, lead),
    {
        let mut out = single.joined_text(lead);
        let total = single.subtotal();
        let after = lead || !single.is_empty();
        if total.is_positive() && after {
            out.append(" + ");
            out.append(total.to_text().as_str());
        } else if total.is_negative() && after {
            out.append(" - ");
            out.append(total.abs().to_text().as_str());
        } else if total.is_negative() {
            out.append("- ");
            out.append(total.abs().to_text().as_str());
        } else {
            out.append(total.to_text().as_str());
        }
        out.append(" ");
        out.append(asset.as_str());
        assert(out@ =~= node_text::<T>(asset@, single@, lead));
        out
    }

    /// The tree as text: each branch with its positions as
    /// `(price, size BASE)` and its subtotal in its asset, then the
    /// positions and the subtotal of the root, all joined by ` + `.
    pub fn to_text(&self) -> (r: String)
        ensures
            r@ == tree_text::<T>(self@),
    {
        let ghost children = self@.children;
        let mut out = String::new();
        let n = self.children.len();
        let mut k: usize = 0;
        assert(children.take(0) =~= Seq::<BranchModel>::empty());
        while k < n
            invariant
                n == children.len(),
                children == self@.children,
                k <= n,
                out@ == branches_text::<T>(children.take(k as int)),
            decreases n - k,
        {
            proof {
                let next = children.take(k + 1);
                assert(next.drop_last() =~= children.take(k as int));
                assert(next.last() == children[k as int]);
            }
            let ghost before = out@;
            let child = &self.children[k];
            if k != 0 {
                out.append(" + ");
            }
            out.append(Self::node_to_text(&child.asset, &child.single, false).as_str());
            assert(out@ =~= before + (if k + 1 > 1 {
                " + "@
            } else {
                Seq::empty()
            }) + node_text::<T>(
                children[k as int].bucket.asset,
                children[k as int].bucket.single,
                false,
            ));
            k += 1;
        }
        assert(children.take(n as int) =~= children);
        out.append(Self::node_to_text(&self.asset, &self.root, n != 0).as_str());
        out
    }
}

impl<T: PositionNum> PositionTree<T> {
    /// Evaluates the tree with a valuer in place of prices. The valuer is
    /// asked once for each position, and for each branch once more, for the
    /// position that carries the branch's amount over to the root. The
    /// result is the sum of what the branches and the root come to, or
    /// nothing where the valuer had no answer.
    pub fn eval_with<F: Fn(&Position<T>) -> Option<T>>(&self, eval: F) -> (r: Option<T>)
        requires
            forall|p: &Position<T>| eval.requires((p,)),
        ensures
            exists|worths: Seq<Option<real>>, own: Option<real>|
                #[trigger] tree_answered(eval, self@, worths, own) && amount(r) == both(
                    sum_answers(worths),
                    own,
                ),
    {
        let mut parts: Vec<Option<T>> = Vec::new();
        let n = self.children.len();
        let mut k: usize = 0;
        while k < n
            invariant
                n == self@.children.len(),
                k <= n,
                parts@.len() == k,
                forall|p: &Position<T>| eval.requires((p,)),
                forall|j: int|
                    0 <= j < k ==> branch_answerable(
                        eval,
                        self@.children[j],
                        amount(#[trigger] parts@[j]),
                    ),
            decreases n - k,
        {
            let child = &self.children[k];
            let total = child.single.total_with(&eval);
            let ghost came_to = amount(total);
            let worth = carry_over(child.instrument.clone(), total, &eval);
            proof {
                let c = self@.children[k as int];
                assert(single_answerable(eval, c.bucket.single, came_to));
                assert(carried_over(eval, c.instrument, came_to, amount(worth)));
                assert(branch_answerable(eval, c, amount(worth)));
            }
            parts.push(worth);
            k += 1;
        }
        let ghost worths = parts@.map_values(|x: Option<T>| amount(x));
        let own = self.root.total_with(&eval);
        let r = match (sum_options(&parts), own) {
            (Some(a), Some(b)) => Some(a.add(&b)),
            _ => None,
        };
        proof {
            assert forall|j: int| 0 <= j < self@.children.len() implies branch_answerable(
                eval,
                self@.children[j],
                #[trigger] worths[j],
            ) by {
                assert(worths[j] == amount(parts@[j]));
            }
            assert(tree_answered(eval, self@, worths, amount(own)));
        }
        r
    }
}

} // verus!
