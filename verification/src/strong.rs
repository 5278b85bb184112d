//! The strong tree: a weak tree at the root and, under it, one weak tree for
//! each other asset, carried over to the root at the price of that asset.

use vstd::prelude::*;
use vstd::string::*;
use crate::asset::Asset;
use crate::num::PositionNum;
use crate::prices::Prices;
use crate::symbol::Symbol;
use crate::weak::{lemma_absorbed_wf, pair_key, weak_text, WeakModel, WeakTree};

verus! {

/// A strong tree as plain values.
pub struct StrongModel {
    pub weak: WeakModel,
    pub children: Seq<WeakModel>,
}

/// Whether one of the trees is that of the asset.
pub open spec fn holds_child(children: Seq<WeakModel>, asset: Seq<char>) -> bool {
    exists|i: int| 0 <= i < children.len() && (#[trigger] children[i]).asset == asset
}

/// Where the tree of the asset stands.
pub open spec fn index_of_child(children: Seq<WeakModel>, asset: Seq<char>) -> int {
    choose|i: int| 0 <= i < children.len() && (#[trigger] children[i]).asset == asset
}

/// The pairs of assets that the trees need, tree by tree.
pub open spec fn children_pairs(children: Seq<WeakModel>) -> Seq<(Seq<char>, Seq<char>)>
    decreases children.len(),
{
    if children.len() == 0 {
        Seq::empty()
    } else {
        children_pairs(children.drop_last()) + children.last().pairs()
    }
}

/// What the trees are worth at the root in sum: each its own worth times the
/// price of its asset in the root asset. There is no amount where a price is
/// missing.
pub open spec fn children_worth(
    children: Seq<WeakModel>,
    root: Seq<char>,
    prices: Map<Seq<char>, real>,
) -> Option<real>
    decreases children.len(),
{
    if children.len() == 0 {
        Some(0real)
    } else {
        match (
            children_worth(children.drop_last(), root, prices),
            children.last().worth(prices),
        ) {
            (Some(rest), Some(own)) => if prices.dom().contains(
                pair_key(children.last().asset, root),
            ) {
                Some(rest + prices[pair_key(children.last().asset, root)] * own)
            } else {
                None
            },
            _ => None,
        }
    }
}

impl StrongModel {
    /// Whether the root and every child are well formed, no asset has two
    /// children and the root asset has none.
    pub open spec fn wf(self) -> bool {
        &&& self.weak.wf()
        &&& forall|i: int| 0 <= i < self.children.len() ==> (#[trigger] self.children[i]).wf()
        &&& forall|i: int, j: int|
            0 <= i < j < self.children.len() ==> self.children[i].asset != self.children[j].asset
        &&& forall|i: int| 0 <= i < self.children.len() ==> (#[trigger] self.children[i]).asset
            != self.weak.asset
    }

    /// The tree after a settled value of `asset` came in: added at the root
    /// for the root asset, else to the child of the asset, which is made
    /// where there is none.
    pub open spec fn with_value(self, value: real, asset: Seq<char>) -> StrongModel {
        if asset == self.weak.asset {
            StrongModel {
                weak: WeakModel {
                    asset: self.weak.asset,
                    value: self.weak.value + value,
                    nodes: self.weak.nodes,
                },
                children: self.children,
            }
        } else if holds_child(self.children, asset) {
            let i = index_of_child(self.children, asset);
            StrongModel {
                weak: self.weak,
                children: self.children.update(
                    i,
                    WeakModel {
                        asset: asset,
                        value: self.children[i].value + value,
                        nodes: self.children[i].nodes,
                    },
                ),
            }
        } else {
            StrongModel {
                weak: self.weak,
                children: self.children.push(
                    WeakModel { asset: asset, value: value, nodes: Seq::empty() },
                ),
            }
        }
    }

    /// The tree after a weak tree came in: joined with the root for the root
    /// asset, else with the child of its asset, and added as a child where
    /// there is none.
    pub open spec fn with_weak(self, rhs: WeakModel) -> StrongModel {
        if rhs.asset == self.weak.asset {
            StrongModel { weak: self.weak.joined(rhs), children: self.children }
        } else if holds_child(self.children, rhs.asset) {
            let i = index_of_child(self.children, rhs.asset);
            StrongModel {
                weak: self.weak,
                children: self.children.update(i, self.children[i].joined(rhs)),
            }
        } else {
            StrongModel { weak: self.weak, children: self.children.push(rhs) }
        }
    }

    /// The tree after each of the weak trees came in, in their order.
    pub open spec fn with_all(self, trees: Seq<WeakModel>) -> StrongModel
        decreases trees.len(),
    {
        if trees.len() == 0 {
            self
        } else {
            self.with_all(trees.drop_last()).with_weak(trees.last())
        }
    }

    /// The tree with the root and the children of another tree taken in.
    pub open spec fn joined(self, other: StrongModel) -> StrongModel {
        self.with_weak(other.weak).with_all(other.children)
    }

    /// The pairs of assets whose prices the tree needs: those of the
    /// children, those of the root, and each child's asset with the root
    /// asset.
    pub open spec fn all_pairs(self) -> Seq<(Seq<char>, Seq<char>)> {
        children_pairs(self.children) + self.weak.pairs() + self.children.map_values(
            |c: WeakModel| (c.asset, self.weak.asset),
        )
    }

    /// What the tree is worth in the root asset, or nothing where a price is
    /// missing.
    pub open spec fn worth(self, prices: Map<Seq<char>, real>) -> Option<real> {
        match (self.weak.worth(prices), children_worth(self.children, self.weak.asset, prices)) {
            (Some(own), Some(rest)) => Some(own + rest),
            _ => None,
        }
    }
}

/// Taking a weak tree in keeps a strong tree well formed.
pub proof fn lemma_with_weak_wf(s: StrongModel, rhs: WeakModel)
    requires
        s.wf(),
        rhs.wf(),
    ensures
        s.with_weak(rhs).wf(),
        s.with_weak(rhs).weak.asset == s.weak.asset,
{
    let out = s.with_weak(rhs);
    if rhs.asset == s.weak.asset {
        let start = WeakModel {
            asset: s.weak.asset,
            value: s.weak.value + rhs.value,
            nodes: s.weak.nodes,
        };
        assert(start.wf());
        lemma_absorbed_wf(start, rhs.nodes);
    } else if holds_child(s.children, rhs.asset) {
        let i = index_of_child(s.children, rhs.asset);
        let child = s.children[i];
        assert(child.wf());
        let start = WeakModel { asset: child.asset, value: child.value + rhs.value, nodes: child.nodes };
        assert(start.wf());
        lemma_absorbed_wf(start, rhs.nodes);
        assert forall|k: int| 0 <= k < out.children.len() implies (#[trigger] out.children[k]).wf()
            && out.children[k].asset == s.children[k].asset by {
            if k != i {
                assert(out.children[k] == s.children[k]);
            }
        }
        assert forall|a: int, b: int| 0 <= a < b < out.children.len() implies out.children[a].asset
            != out.children[b].asset by {
            assert(out.children[a].asset == s.children[a].asset);
            assert(out.children[b].asset == s.children[b].asset);
        }
    } else {
        assert forall|k: int| 0 <= k < out.children.len() implies (#[trigger] out.children[k]).wf()
            && out.children[k].asset != out.weak.asset by {
            if k < s.children.len() {
                assert(out.children[k] == s.children[k]);
            }
        }
        assert forall|a: int, b: int| 0 <= a < b < out.children.len() implies out.children[a].asset
            != out.children[b].asset by {
            if b == s.children.len() {
                assert(s.children[a].asset == out.children[a].asset);
            } else {
                assert(out.children[a] == s.children[a]);
                assert(out.children[b] == s.children[b]);
            }
        }
    }
}

/// Position Tree (the strong tree).
#[derive(Debug)]
pub struct PositionTree<T> {
    weak: WeakTree<T>,
    children: Vec<WeakTree<T>>,
}

impl<T: PositionNum> View for PositionTree<T> {
    type V = StrongModel;

    closed spec fn view(&self) -> StrongModel {
        StrongModel {
            weak: self.weak@,
            children: Seq::new(self.children@.len(), |i: int| self.children@[i]@),
        }
    }
}

/// A new empty position tree.
pub fn tree<T: PositionNum>(asset: &Asset) -> (r: PositionTree<T>)
    ensures
        r@ == (StrongModel {
            weak: WeakModel { asset: asset@, value: 0real, nodes: Seq::empty() },
            children: Seq::empty(),
        }),
        r@.wf(),
{
    PositionTree::new(T::zero(), asset)
}

impl<T: PositionNum> PositionTree<T> {
    /// A position tree of the given settled value at the root, without
    /// positions and children.
    pub fn new(value: T, asset: &Asset) -> (r: Self)
        ensures
            r@ == (StrongModel {
                weak: WeakModel { asset: asset@, value: value.value(), nodes: Seq::empty() },
                children: Seq::empty(),
            }),
            r@.wf(),
    {
        let r = PositionTree { weak: WeakTree::new(value, asset), children: Vec::new() };
        assert(r@.children =~= Seq::<WeakModel>::empty());
        r
    }

    /// The weak tree of the root.
    pub fn weak(&self) -> (r: &WeakTree<T>)
        ensures
            r@ == self@.weak,
    {
        &self.weak
    }

    /// The weak tree of the root, to be changed in place. The tree stays well
    /// formed as long as the root stays well formed and keeps its asset.
    pub fn weak_mut(&mut self) -> (r: &mut WeakTree<T>)
        ensures
            r@ == old(self)@.weak,
            final(self)@ == (StrongModel { weak: final(r)@, children: old(self)@.children }),
    {
        &mut self.weak
    }

    /// Where the child of the asset stands, if there is one.
    fn find(&self, asset: &Asset) -> (r: Option<usize>)
        requires
            self@.wf(),
        ensures
            match r {
                Some(i) => holds_child(self@.children, asset@) && i == index_of_child(
                    self@.children,
                    asset@,
                ) && i < self@.children.len(),
                None => !holds_child(self@.children, asset@),
            },
    {
        let n = self.children.len();
        let mut i: usize = 0;
        while i < n
            invariant
                n == self@.children.len(),
                i <= n,
                self@.wf(),
                forall|j: int| 0 <= j < i ==> (#[trigger] self@.children[j]).asset != asset@,
            decreases n - i,
        {
            if *self.children[i].asset() == *asset {
                proof {
                    assert(self@.children[i as int].asset == asset@);
                    let k = index_of_child(self@.children, asset@);
                    assert(self@.children[k].asset == asset@);
                    assert(k == i);
                }
                return Some(i);
            }
            i += 1;
        }
        None
    }

    /// Takes a settled value of `asset` in: added at the root for the root
    /// asset, else to the child of the asset, which is made where there is
    /// none.
    pub fn insert_value(&mut self, value: T, asset: &Asset)
        requires
            old(self)@.wf(),
        ensures
            final(self)@ == old(self)@.with_value(value.value(), asset@),
            final(self)@.wf(),
    {
        let ghost before = self@;
        if *asset == *self.weak.asset() {
            self.weak.add_value(value);
            assert(self@.children =~= before.children);
        } else {
            match self.find(asset) {
                Some(i) => {
                    assert(before.children[i as int].wf());
                    let mut child = self.children[i].clone();
                    child.add_value(value);
                    self.children.set(i, child);
                    let ghost after = before.with_value(value.value(), asset@);
                    assert(self@.children =~= after.children);
                    proof {
                        assert forall|k: int| 0 <= k < after.children.len() implies (
                        #[trigger] after.children[k]).wf() && after.children[k].asset
                            == before.children[k].asset by {
                            if k != i {
                                assert(after.children[k] == before.children[k]);
                            }
                        }
                        assert forall|a: int, b: int|
                            0 <= a < b < after.children.len() implies after.children[a].asset
                            != after.children[b].asset by {
                            assert(after.children[a].asset == before.children[a].asset);
                            assert(after.children[b].asset == before.children[b].asset);
                        }
                    }
                },
                None => {
                    self.children.push(WeakTree::new(value, asset));
                    let ghost after = before.with_value(value.value(), asset@);
                    assert(self@.children =~= after.children);
                    proof {
                        assert forall|k: int| 0 <= k < after.children.len() implies (
                        #[trigger] after.children[k]).wf() && after.children[k].asset
                            != after.weak.asset by {
                            if k < before.children.len() {
                                assert(after.children[k] == before.children[k]);
                            }
                        }
                        assert forall|a: int, b: int|
                            0 <= a < b < after.children.len() implies after.children[a].asset
                            != after.children[b].asset by {
                            if b == before.children.len() {
                                assert(before.children[a].asset == after.children[a].asset);
                            } else {
                                assert(after.children[a] == before.children[a]);
                                assert(after.children[b] == before.children[b]);
                            }
                        }
                    }
                },
            }
        }
    }

    /// The weak tree of the asset, to be changed in place: the root for the
    /// root asset, else the child of the asset, if there is one. Nothing is
    /// made. The tree stays well formed as long as the weak tree stays well
    /// formed and keeps its asset.
    pub fn get_weak_mut(&mut self, asset: &Asset) -> (r: Option<&mut WeakTree<T>>)
        requires
            old(self)@.wf(),
        ensures
            match r {
                Some(w) => if asset@ == old(self)@.weak.asset {
                    w@ == old(self)@.weak && final(self)@ == (StrongModel {
                        weak: final(w)@,
                        children: old(self)@.children,
                    })
                } else {
                    let i = index_of_child(old(self)@.children, asset@);
                    &&& holds_child(old(self)@.children, asset@)
                    &&& w@ == old(self)@.children[i]
                    &&& final(self)@ == (StrongModel {
                        weak: old(self)@.weak,
                        children: old(self)@.children.update(i, final(w)@),
                    })
                },
                None => asset@ != old(self)@.weak.asset && !holds_child(
                    old(self)@.children,
                    asset@,
                ) && final(self)@ == old(self)@,
            },
    {
        let ghost before = self@;
        if *asset == *self.weak.asset() {
            let w = &mut self.weak;
            proof {
                assert(after_borrow(self)@.children =~= before.children);
            }
            Some(w)
        } else {
            match self.find(asset) {
                Some(i) => {
                    let w = &mut self.children[i];
                    proof {
                        assert(after_borrow(self)@.children =~= before.children.update(
                            i as int,
                            final(w)@,
                        ));
                    }
                    Some(w)
                },
                None => None,
            }
        }
    }

    /// Takes a weak tree in: joined with the root for the root asset, else
    /// with the child of its asset, and added as a child where there is none.
    pub fn add_weak(&mut self, rhs: WeakTree<T>)
        requires
            old(self)@.wf(),
            rhs@.wf(),
        ensures
            final(self)@ == old(self)@.with_weak(rhs@),
            final(self)@.wf(),
    {
        let ghost before = self@;
        proof {
            lemma_with_weak_wf(before, rhs@);
        }
        if *rhs.asset() == *self.weak.asset() {
            self.weak.join(&rhs);
            assert(self@.children =~= before.children);
        } else {
            match self.find(rhs.asset()) {
                Some(i) => {
                    assert(before.children[i as int].wf());
                    let mut child = self.children[i].clone();
                    child.join(&rhs);
                    self.children.set(i, child);
                    assert(self@.children =~= before.with_weak(rhs@).children);
                },
                None => {
                    self.children.push(rhs);
                    assert(self@.children =~= before.with_weak(rhs@).children);
                },
            }
        }
    }

    /// Takes the root and the children of another tree in.
    pub fn add_assign(&mut self, rhs: Self)
        requires
            old(self)@.wf(),
            rhs@.wf(),
        ensures
            final(self)@ == old(self)@.joined(rhs@),
            final(self)@.wf(),
    {
        let ghost start = self@.with_weak(rhs@.weak);
        let ghost theirs = rhs@.children;
        self.add_weak(rhs.weak.clone());
        let n = rhs.children.len();
        let mut i: usize = 0;
        while i < n
            invariant
                n == theirs.len(),
                theirs == rhs@.children,
                rhs@.wf(),
                i <= n,
                self@.wf(),
                self@ == start.with_all(theirs.take(i as int)),
            decreases n - i,
        {
            proof {
                let next = theirs.take(i + 1);
                assert(next.drop_last() =~= theirs.take(i as int));
                assert(next.last() == theirs[i as int]);
                assert(theirs[i as int].wf());
            }
            self.add_weak(rhs.children[i].clone());
            i += 1;
        }
        assert(theirs.take(n as int) =~= theirs);
    }

    /// The pairs of assets whose prices the tree needs: those of the
    /// children, those of the root, and each child's asset with the root
    /// asset.
    pub fn all_pairs(&self) -> (r: Vec<(Asset, Asset)>)
        ensures
            r@.map_values(|p: (Asset, Asset)| (p.0@, p.1@)) == self@.all_pairs(),
    {
        let ghost children = self@.children;
        let mut out: Vec<(Asset, Asset)> = Vec::new();
        let n = self.children.len();
        let mut k: usize = 0;
        assert(children.take(0) =~= Seq::<WeakModel>::empty());
        assert(out@.map_values(|p: (Asset, Asset)| (p.0@, p.1@)) =~= children_pairs(
            children.take(0),
        ));
        while k < n
            invariant
                n == children.len(),
                children == self@.children,
                k <= n,
                out@.map_values(|p: (Asset, Asset)| (p.0@, p.1@)) == children_pairs(
                    children.take(k as int),
                ),
            decreases n - k,
        {
            let ghost before = out@.map_values(|p: (Asset, Asset)| (p.0@, p.1@));
            proof {
                let next = children.take(k + 1);
                assert(next.drop_last() =~= children.take(k as int));
                assert(next.last() == children[k as int]);
            }
            let mut pairs = self.children[k].pairs();
            let ghost added = pairs@.map_values(|p: (Asset, Asset)| (p.0@, p.1@));
            out.append(&mut pairs);
            assert(out@.map_values(|p: (Asset, Asset)| (p.0@, p.1@)) =~= before + added);
            k += 1;
        }
        assert(children.take(n as int) =~= children);
        let ghost before = out@.map_values(|p: (Asset, Asset)| (p.0@, p.1@));
        let mut own = self.weak.pairs();
        let ghost added = own@.map_values(|p: (Asset, Asset)| (p.0@, p.1@));
        out.append(&mut own);
        assert(out@.map_values(|p: (Asset, Asset)| (p.0@, p.1@)) =~= before + added);
        let ghost head = out@.map_values(|p: (Asset, Asset)| (p.0@, p.1@));
        let mut k: usize = 0;
        while k < n
            invariant
                n == children.len(),
                children == self@.children,
                k <= n,
                out@.map_values(|p: (Asset, Asset)| (p.0@, p.1@)) == head + children.take(
                    k as int,
                ).map_values(|c: WeakModel| (c.asset, self@.weak.asset)),
            decreases n - k,
        {
            let ghost before = out@.map_values(|p: (Asset, Asset)| (p.0@, p.1@));
            out.push((self.children[k].asset().clone(), self.weak.asset().clone()));
            assert(out@.map_values(|p: (Asset, Asset)| (p.0@, p.1@)) =~= before.push(
                (children[k as int].asset, self@.weak.asset),
            ));
            assert(children.take(k + 1).map_values(|c: WeakModel| (c.asset, self@.weak.asset))
                =~= children.take(k as int).map_values(
                |c: WeakModel| (c.asset, self@.weak.asset),
            ).push((children[k as int].asset, self@.weak.asset)));
            k += 1;
        }
        assert(children.take(n as int) =~= children);
        out
    }

    /// Evaluates the tree by closing every position: the root's own worth,
    /// and each child's worth times the price of its asset in the root
    /// asset, found under the spot of the two. There is no amount where a
    /// price is missing.
    pub fn eval(&self, prices: &Prices<T>) -> (r: Option<T>)
        requires
            prices.wf(),
        ensures
            match r {
                Some(v) => self@.worth(prices@) == Some(v.value()),
                None => self@.worth(prices@).is_none(),
            },
    {
        let ghost children = self@.children;
        let ghost root = self@.weak.asset;
        let mut acc: Option<T> = Some(T::zero());
        let n = self.children.len();
        let mut k: usize = 0;
        assert(children.take(0) =~= Seq::<WeakModel>::empty());
        while k < n
            invariant
                n == children.len(),
                children == self@.children,
                root == self@.weak.asset,
                k <= n,
                prices.wf(),
                match acc {
                    Some(v) => children_worth(children.take(k as int), root, prices@) == Some(
                        v.value(),
                    ),
                    None => children_worth(children.take(k as int), root, prices@).is_none(),
                },
            decreases n - k,
        {
            proof {
                let next = children.take(k + 1);
                assert(next.drop_last() =~= children.take(k as int));
                assert(next.last() == children[k as int]);
            }
            let child = &self.children[k];
            let price = prices.get(&Symbol::spot(child.asset(), self.weak.asset()));
            acc = match (acc, child.eval_weak(prices), price) {
                (Some(rest), Some(own), Some(p)) => Some(rest.add(&p.mul(&own))),
                _ => None,
            };
            k += 1;
        }
        assert(children.take(n as int) =~= children);
        match (self.weak.eval_weak(prices), acc) {
            (Some(own), Some(rest)) => Some(own.add(&rest)),
            _ => None,
        }
    }
}

/// The texts of the children, with ` + ` between them.
pub open spec fn children_text<T: PositionNum>(children: Seq<WeakModel>) -> Seq<char>
    decreases children.len(),
{
    if children.len() == 0 {
        Seq::empty()
    } else {
        children_text::<T>(children.drop_last()) + (if children.len() > 1 {
            " + "@
        } else {
            Seq::empty()
        }) + weak_text::<T>(children.last(), false)
    }
}

/// The text of a strong tree: its children, then its root.
pub open spec fn strong_text<T: PositionNum>(s: StrongModel) -> Seq<char> {
    children_text::<T>(s.children) + weak_text::<T>(s.weak, s.children.len() > 0)
}

impl<T: PositionNum> PositionTree<T> {
    /// The tree as text: each child and then the root, with their nodes as
    /// `(price, size ASSET)` and their settled values, all joined by ` + `.
    pub fn to_text(&self) -> (r: String)
        ensures
            r@ == strong_text::<T>(self@),
    {
        let ghost children = self@.children;
        let mut out = String::new();
        let n = self.children.len();
        let mut k: usize = 0;
        assert(children.take(0) =~= Seq::<WeakModel>::empty());
        while k < n
            invariant
                n == children.len(),
                children == self@.children,
                k <= n,
                out@ == children_text::<T>(children.take(k as int)),
            decreases n - k,
        {
            proof {
                let next = children.take(k + 1);
                assert(next.drop_last() =~= children.take(k as int));
                assert(next.last() == children[k as int]);
            }
            let ghost before = out@;
            if k != 0 {
                out.append(" + ");
            }
            out.append(self.children[k].to_text().as_str());
            assert(out@ =~= before + (if k + 1 > 1 {
                " + "@
            } else {
                Seq::empty()
            }) + weak_text::<T>(children[k as int], false));
            k += 1;
        }
        assert(children.take(n as int) =~= children);
        out.append(self.weak.to_text_after(n != 0).as_str());
        out
    }
}

} // verus!
