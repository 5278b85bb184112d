//! The weak tree: a settled value in one asset and, for each other asset
//! that is held against it, a node that hands over what it realizes.

use vstd::prelude::*;
use vstd::string::*;
use crate::asset::Asset;
use crate::convert::{IntoNaivePosition, InvalidReversedPrice};
use crate::holding::{converted, identity, merge, Holding};
use crate::instrument::spot_of;
use crate::naive_position::NaivePosition;
use crate::node::{node_worth, settled, PositionNode, ValueNode};
use crate::num::PositionNum;
use crate::prices::Prices;
use crate::render::amount_text;
use crate::symbol::Symbol;
use crate::valuation::both;

verus! {

/// A node of a weak tree as plain values: the asset that is held and the
/// holding of it.
pub struct NodeModel {
    pub asset: Seq<char>,
    pub holding: Holding,
}

/// A weak tree as plain values.
pub struct WeakModel {
    pub asset: Seq<char>,
    pub value: real,
    pub nodes: Seq<NodeModel>,
}

/// Whether one of the nodes holds the asset.
pub open spec fn holds_node(nodes: Seq<NodeModel>, asset: Seq<char>) -> bool {
    exists|i: int| 0 <= i < nodes.len() && (#[trigger] nodes[i]).asset == asset
}

/// Where the node of the asset stands.
pub open spec fn index_of_node(nodes: Seq<NodeModel>, asset: Seq<char>) -> int {
    choose|i: int| 0 <= i < nodes.len() && (#[trigger] nodes[i]).asset == asset
}

/// The text of the symbol under which the price of `asset` in `root` is
/// found: that of the spot of the two.
pub open spec fn pair_key(asset: Seq<char>, root: Seq<char>) -> Seq<char> {
    spot_of(asset, root).symbol.text()
}

impl WeakModel {
    /// Whether no asset has two nodes and the asset of the tree has none.
    pub open spec fn wf(self) -> bool {
        &&& forall|i: int, j: int|
            0 <= i < j < self.nodes.len() ==> self.nodes[i].asset != self.nodes[j].asset
        &&& forall|i: int| 0 <= i < self.nodes.len() ==> (#[trigger] self.nodes[i]).asset
            != self.asset
    }

    /// The tree after a holding of `asset` came in. A holding of the tree's
    /// own asset is restated at price one and goes to the settled value. Any
    /// other is merged into the node of its asset, which is made where there
    /// is none, and what the merge leaves as value goes to the settled value.
    pub open spec fn inserted(self, h: Holding, asset: Seq<char>) -> WeakModel {
        if asset == self.asset {
            WeakModel {
                asset: self.asset,
                value: self.value + converted(h, 1real).value,
                nodes: self.nodes,
            }
        } else if holds_node(self.nodes, asset) {
            let i = index_of_node(self.nodes, asset);
            let merged = merge(self.nodes[i].holding, h);
            WeakModel {
                asset: self.asset,
                value: self.value + merged.value,
                nodes: self.nodes.update(i, NodeModel { asset: asset, holding: settled(merged) }),
            }
        } else {
            let merged = merge(identity(), h);
            WeakModel {
                asset: self.asset,
                value: self.value + merged.value,
                nodes: self.nodes.push(NodeModel { asset: asset, holding: settled(merged) }),
            }
        }
    }

    /// The tree after each of the nodes came in, in their order.
    pub open spec fn absorbed(self, nodes: Seq<NodeModel>) -> WeakModel
        decreases nodes.len(),
    {
        if nodes.len() == 0 {
            self
        } else {
            self.absorbed(nodes.drop_last()).inserted(nodes.last().holding, nodes.last().asset)
        }
    }

    /// The tree with the settled value and the nodes of another tree taken
    /// in.
    pub open spec fn joined(self, other: WeakModel) -> WeakModel {
        (WeakModel { asset: self.asset, value: self.value + other.value, nodes: self.nodes }).absorbed(
            other.nodes,
        )
    }

    /// The pairs of assets whose prices the tree needs: each held asset with
    /// the asset of the tree.
    pub open spec fn pairs(self) -> Seq<(Seq<char>, Seq<char>)> {
        self.nodes.map_values(|n: NodeModel| (n.asset, self.asset))
    }

    /// Whether a price is there for each held asset.
    pub open spec fn priced(self, prices: Map<Seq<char>, real>) -> bool {
        forall|i: int|
            0 <= i < self.nodes.len() ==> prices.dom().contains(
                pair_key((#[trigger] self.nodes[i]).asset, self.asset),
            )
    }

    /// What the tree is worth in its asset when every node is closed at its
    /// price, or nothing where a price is missing.
    pub open spec fn worth(self, prices: Map<Seq<char>, real>) -> Option<real> {
        if self.priced(prices) {
            Some(self.value + nodes_worth(self.nodes, self.asset, prices))
        } else {
            None
        }
    }
}

/// What closing every node at its price realizes in sum.
pub open spec fn nodes_worth(nodes: Seq<NodeModel>, root: Seq<char>, prices: Map<Seq<char>, real>) -> real
    decreases nodes.len(),
{
    if nodes.len() == 0 {
        0real
    } else {
        nodes_worth(nodes.drop_last(), root, prices) + node_worth(
            nodes.last().holding,
            prices[pair_key(nodes.last().asset, root)],
        )
    }
}

/// Taking a holding in keeps a weak tree well formed.
pub proof fn lemma_inserted_wf(w: WeakModel, h: Holding, asset: Seq<char>)
    requires
        w.wf(),
    ensures
        w.inserted(h, asset).wf(),
        w.inserted(h, asset).asset == w.asset,
{
    let out = w.inserted(h, asset);
    if asset != w.asset {
        if holds_node(w.nodes, asset) {
            let i = index_of_node(w.nodes, asset);
            assert forall|k: int| 0 <= k < out.nodes.len() implies (#[trigger] out.nodes[k]).asset
                == w.nodes[k].asset by {}
            assert forall|a: int, b: int| 0 <= a < b < out.nodes.len() implies out.nodes[a].asset
                != out.nodes[b].asset by {
                assert(out.nodes[a].asset == w.nodes[a].asset);
                assert(out.nodes[b].asset == w.nodes[b].asset);
            }
        } else {
            assert forall|a: int, b: int| 0 <= a < b < out.nodes.len() implies out.nodes[a].asset
                != out.nodes[b].asset by {
                if b == w.nodes.len() {
                    assert(w.nodes[a].asset == out.nodes[a].asset);
                } else {
                    assert(out.nodes[a] == w.nodes[a]);
                    assert(out.nodes[b] == w.nodes[b]);
                }
            }
            assert forall|k: int| 0 <= k < out.nodes.len() implies (#[trigger] out.nodes[k]).asset
                != out.asset by {
                if k < w.nodes.len() {
                    assert(out.nodes[k] == w.nodes[k]);
                }
            }
        }
    }
}

/// Taking nodes in keeps a weak tree well formed.
pub proof fn lemma_absorbed_wf(w: WeakModel, nodes: Seq<NodeModel>)
    requires
        w.wf(),
    ensures
        w.absorbed(nodes).wf(),
        w.absorbed(nodes).asset == w.asset,
    decreases nodes.len(),
{
    if nodes.len() > 0 {
        lemma_absorbed_wf(w, nodes.drop_last());
        lemma_inserted_wf(w.absorbed(nodes.drop_last()), nodes.last().holding, nodes.last().asset);
    }
}

#[derive(Debug)]
struct Held<T> {
    asset: Asset,
    node: PositionNode<T>,
}

impl<T: PositionNum> View for Held<T> {
    type V = NodeModel;

    closed spec fn view(&self) -> NodeModel {
        NodeModel { asset: self.asset@, holding: self.node@ }
    }
}

/// Weak Position Tree.
#[derive(Debug)]
pub struct WeakTree<T> {
    asset: Asset,
    value: ValueNode<T>,
    positions: Vec<Held<T>>,
}

impl<T: PositionNum> View for WeakTree<T> {
    type V = WeakModel;

    closed spec fn view(&self) -> WeakModel {
        WeakModel {
            asset: self.asset@,
            value: self.value.0.value(),
            nodes: Seq::new(self.positions@.len(), |i: int| self.positions@[i]@),
        }
    }
}

impl<T: PositionNum> Clone for WeakTree<T> {
    fn clone(&self) -> (r: Self)
        ensures
            r@ == self@,
    {
        let mut positions: Vec<Held<T>> = Vec::new();
        let n = self.positions.len();
        let mut i: usize = 0;
        while i < n
            invariant
                n == self.positions@.len(),
                i <= n,
                positions@.len() == i,
                forall|j: int| 0 <= j < i ==> positions@[j]@ == self.positions@[j]@,
            decreases n - i,
        {
            let held = &self.positions[i];
            positions.push(Held { asset: held.asset.clone(), node: held.node.clone() });
            i += 1;
        }
        let r = WeakTree { asset: self.asset.clone(), value: self.value.clone(), positions };
        assert(r@.nodes =~= self@.nodes);
        r
    }
}

impl<T: PositionNum> WeakTree<T> {
    /// A weak tree of the given settled value, without positions.
    pub fn new(value: T, asset: &Asset) -> (r: Self)
        ensures
            r@ == (WeakModel { asset: asset@, value: value.value(), nodes: Seq::empty() }),
            r@.wf(),
    {
        let r = WeakTree { asset: asset.clone(), value: ValueNode(value), positions: Vec::new() };
        assert(r@.nodes =~= Seq::<NodeModel>::empty());
        r
    }

    /// The asset of the tree.
    pub fn asset(&self) -> (r: &Asset)
        ensures
            r@ == self@.asset,
    {
        &self.asset
    }

    /// The settled value.
    pub fn value(&self) -> (r: &T)
        ensures
            r.value() == self@.value,
    {
        &self.value.0
    }

    /// Where the node of the asset stands, if there is one.
    fn find(&self, asset: &Asset) -> (r: Option<usize>)
        requires
            self@.wf(),
        ensures
            match r {
                Some(i) => holds_node(self@.nodes, asset@) && i == index_of_node(
                    self@.nodes,
                    asset@,
                ) && i < self@.nodes.len(),
                None => !holds_node(self@.nodes, asset@),
            },
    {
        let n = self.positions.len();
        let mut i: usize = 0;
        while i < n
            invariant
                n == self@.nodes.len(),
                i <= n,
                self@.wf(),
                forall|j: int| 0 <= j < i ==> (#[trigger] self@.nodes[j]).asset != asset@,
            decreases n - i,
        {
            if self.positions[i].asset == *asset {
                proof {
                    assert(self@.nodes[i as int].asset == asset@);
                    let k = index_of_node(self@.nodes, asset@);
                    assert(self@.nodes[k].asset == asset@);
                    assert(k == i);
                }
                return Some(i);
            }
            i += 1;
        }
        None
    }

    /// Adds to the settled value.
    pub fn add_value(&mut self, value: T)
        ensures
            final(self)@ == (WeakModel {
                asset: old(self)@.asset,
                value: old(self)@.value + value.value(),
                nodes: old(self)@.nodes,
            }),
    {
        self.value = ValueNode(self.value.0.add(&value));
    }

    /// Takes a holding of `asset` in. A holding of the tree's own asset is
    /// restated at price one and goes to the settled value. Any other is
    /// merged into the node of its asset, and what the merge leaves as value
    /// goes to the settled value. A holding in reversed form with a zero
    /// price is refused and leaves the tree as it is.
    pub fn insert_position<P: IntoNaivePosition<T>>(&mut self, position: P, asset: &Asset) -> (r:
        Result<(), InvalidReversedPrice>)
        requires
            old(self)@.wf(),
        ensures
            match r {
                Ok(_) => position.holding().is_some() && final(self)@ == old(self)@.inserted(
                    position.holding().unwrap(),
                    asset@,
                ) && final(self)@.wf(),
                Err(_) => position.holding().is_none() && final(self)@ == old(self)@,
            },
    {
        match position.into_naive() {
            Ok(naive) => {
                self.insert_naive(naive, asset);
                Ok(())
            },
            Err(e) => Err(e),
        }
    }

    /// Takes a holding in canonical form of `asset` in.
    pub fn insert_naive(&mut self, naive: NaivePosition<T>, asset: &Asset)
        requires
            old(self)@.wf(),
        ensures
            final(self)@ == old(self)@.inserted(naive@, asset@),
            final(self)@.wf(),
    {
        let ghost before = self@;
        proof {
            lemma_inserted_wf(before, naive@, asset@);
        }
        if *asset == self.asset {
            let mut stated = naive;
            stated.convert(T::one());
            let gained = stated.take();
            self.value = ValueNode(self.value.0.add(&gained));
            assert(self@.nodes =~= before.nodes);
        } else {
            match self.find(asset) {
                Some(i) => {
                    let mut node = self.positions[i].node.clone();
                    let gained = node.add_naive(naive);
                    self.positions.set(i, Held { asset: asset.clone(), node });
                    self.value = ValueNode(self.value.0.add(&gained));
                    assert(self@.nodes =~= before.inserted(naive@, asset@).nodes);
                },
                None => {
                    let mut node = PositionNode::default();
                    let gained = node.add_naive(naive);
                    self.positions.push(Held { asset: asset.clone(), node });
                    self.value = ValueNode(self.value.0.add(&gained));
                    assert(self@.nodes =~= before.inserted(naive@, asset@).nodes);
                },
            }
        }
    }

    /// Takes the settled value and the nodes of another tree in.
    pub fn join(&mut self, other: &Self)
        requires
            old(self)@.wf(),
        ensures
            final(self)@ == old(self)@.joined(other@),
            final(self)@.wf(),
    {
        let ghost start = WeakModel {
            asset: self@.asset,
            value: self@.value + other@.value,
            nodes: self@.nodes,
        };
        self.add_value(other.value.0.duplicate());
        assert(self@ == start);
        let n = other.positions.len();
        let mut i: usize = 0;
        assert(other@.nodes.take(0) =~= Seq::<NodeModel>::empty());
        while i < n
            invariant
                n == other@.nodes.len(),
                i <= n,
                self@.wf(),
                self@ == start.absorbed(other@.nodes.take(i as int)),
            decreases n - i,
        {
            proof {
                let next = other@.nodes.take(i + 1);
                assert(next.drop_last() =~= other@.nodes.take(i as int));
                assert(next.last() == other@.nodes[i as int]);
            }
            let held = &other.positions[i];
            self.insert_naive(held.node.as_naive().duplicate(), &held.asset);
            i += 1;
        }
        assert(other@.nodes.take(n as int) =~= other@.nodes);
    }

    /// The pairs of assets whose prices the tree needs: each held asset with
    /// the asset of the tree.
    pub fn pairs(&self) -> (r: Vec<(Asset, Asset)>)
        ensures
            r@.map_values(|p: (Asset, Asset)| (p.0@, p.1@)) == self@.pairs(),
    {
        let mut out: Vec<(Asset, Asset)> = Vec::new();
        let n = self.positions.len();
        let mut i: usize = 0;
        while i < n
            invariant
                n == self@.nodes.len(),
                i <= n,
                out@.len() == i,
                forall|j: int|
                    0 <= j < i ==> (#[trigger] out@[j]).0@ == self@.nodes[j].asset && out@[j].1@
                        == self@.asset,
            decreases n - i,
        {
            out.push((self.positions[i].asset.clone(), self.asset.clone()));
            i += 1;
        }
        assert(out@.map_values(|p: (Asset, Asset)| (p.0@, p.1@)) =~= self@.pairs());
        out
    }

    /// Evaluates the tree by closing every node at the price of its asset in
    /// the asset of the tree, found under the spot of the two. There is no
    /// amount where a price is missing.
    pub fn eval_weak(&self, prices: &Prices<T>) -> (r: Option<T>)
        requires
            prices.wf(),
        ensures
            match r {
                Some(v) => self@.worth(prices@) == Some(v.value()),
                None => self@.worth(prices@).is_none(),
            },
    {
        let ghost nodes = self@.nodes;
        let mut total = self.value.0.duplicate();
        let n = self.positions.len();
        let mut i: usize = 0;
        assert(nodes.take(0) =~= Seq::<NodeModel>::empty());
        while i < n
            invariant
                n == nodes.len(),
                nodes == self@.nodes,
                i <= n,
                prices.wf(),
                forall|j: int|
                    0 <= j < i ==> prices@.dom().contains(
                        pair_key((#[trigger] nodes[j]).asset, self@.asset),
                    ),
                total.value() == self@.value + nodes_worth(
                    nodes.take(i as int),
                    self@.asset,
                    prices@,
                ),
            decreases n - i,
        {
            proof {
                let next = nodes.take(i + 1);
                assert(next.drop_last() =~= nodes.take(i as int));
                assert(next.last() == nodes[i as int]);
            }
            let held = &self.positions[i];
            match prices.get(&Symbol::spot(&held.asset, &self.asset)) {
                Some(price) => {
                    total = total.add(&held.node.eval(price));
                },
                None => {
                    assert(!prices@.dom().contains(pair_key(nodes[i as int].asset, self@.asset)));
                    return None;
                },
            }
            i += 1;
        }
        assert(nodes.take(n as int) =~= nodes);
        Some(total)
    }
}

/// The text of a node: `(price, size ASSET)`.
pub open spec fn held_text<T: PositionNum>(n: NodeModel) -> Seq<char> {
    "("@ + T::text_of(n.holding.price) + ", "@ + T::text_of(n.holding.size) + " "@ + n.asset
        + ")"@
}

/// The texts of the nodes in a row, with ` + ` before each but the first,
/// and before the first too where `lead` says that something stands before
/// the row.
pub open spec fn joined_nodes<T: PositionNum>(nodes: Seq<NodeModel>, lead: bool) -> Seq<char>
    decreases nodes.len(),
{
    if nodes.len() == 0 {
        Seq::empty()
    } else {
        joined_nodes::<T>(nodes.drop_last(), lead) + (if lead || nodes.len() > 1 {
            " + "@
        } else {
            Seq::empty()
        }) + held_text::<T>(nodes.last())
    }
}

/// The text of a weak tree: its nodes in a row and its settled value in its
/// asset.
pub open spec fn weak_text<T: PositionNum>(w: WeakModel, lead: bool) -> Seq<char> {
    joined_nodes::<T>(w.nodes, lead) + amount_text::<T>(w.value, lead || w.nodes.len() > 0) + " "@
        + w.asset
}

impl<T: PositionNum> WeakTree<T> {
    /// The tree as text behind what stands before it, if `lead` says that
    /// something does: its nodes as `(price, size ASSET)`, joined by ` + `,
    /// and its settled value in its asset.
    pub fn to_text_after(&self, lead: bool) -> (r: String)
        ensures
            r@ == weak_text::<T>(self@, lead),
    {
        let ghost nodes = self@.nodes;
        let mut out = String::new();
        let n = self.positions.len();
        let mut i: usize = 0;
        assert(nodes.take(0) =~= Seq::<NodeModel>::empty());
        while i < n
            invariant
                n == nodes.len(),
                nodes == self@.nodes,
                i <= n,
                out@ == joined_nodes::<T>(nodes.take(i as int), lead),
            decreases n - i,
        {
            proof {
                let next = nodes.take(i + 1);
                assert(next.drop_last() =~= nodes.take(i as int));
                assert(next.last() == nodes[i as int]);
            }
            let ghost before = out@;
            let held = &self.positions[i];
            if lead || i != 0 {
                out.append(" + ");
            }
            out.append("(");
            out.append(held.node.as_naive().price.to_text().as_str());
            out.append(", ");
            out.append(held.node.as_naive().size.to_text().as_str());
            out.append(" ");
            out.append(held.asset.as_str());
            out.append(")");
            assert(out@ =~= before + (if lead || i + 1 > 1 {
                " + "@
            } else {
                Seq::empty()
            }) + held_text::<T>(nodes[i as int]));
            i += 1;
        }
        assert(nodes.take(n as int) =~= nodes);
        let value = &self.value.0;
        let after = lead || n != 0;
        if value.is_positive() && after {
            out.append(" + ");
            out.append(value.to_text().as_str());
        } else if value.is_negative() && after {
            out.append(" - ");
            out.append(value.abs().to_text().as_str());
        } else if value.is_negative() {
            out.append("- ");
            out.append(value.abs().to_text().as_str());
        } else {
            out.append(value.to_text().as_str());
        }
        out.append(" ");
        out.append(self.asset.as_str());
        assert(out@ =~= weak_text::<T>(self@, lead));
        out
    }

    /// The tree as text: its nodes as `(price, size ASSET)`, joined by
    /// ` + `, and its settled value in its asset.
    pub fn to_text(&self) -> (r: String)
        ensures
            r@ == weak_text::<T>(self@, false),
    {
        self.to_text_after(false)
    }
}

} // verus!
