//! Nodes of a position tree: a settled value, or a holding that hands over
//! what it realizes.

use vstd::prelude::*;
use crate::convert::{IntoNaivePosition, InvalidReversedPrice};
use crate::holding::{identity, merge, Holding};
use crate::naive_position::NaivePosition;
use crate::num::PositionNum;

verus! {

/// A node in the position tree.
#[derive(Debug)]
pub enum Node<T> {
    /// A Value Node.
    Value(ValueNode<T>),
    /// Position Node.
    Position(PositionNode<T>),
}

/// Value Node.
#[derive(Debug)]
pub struct ValueNode<T>(pub T);

/// Position Node.
#[derive(Debug)]
pub struct PositionNode<T>(pub NaivePosition<T>);

impl<T: PositionNum> View for PositionNode<T> {
    type V = Holding;

    open spec fn view(&self) -> Holding {
        self.0@
    }
}

impl<T: PositionNum> Default for ValueNode<T> {
    fn default() -> (r: Self)
        ensures
            r.0.value() == 0real,
    {
        ValueNode(T::zero())
    }
}

impl<T: PositionNum> Default for PositionNode<T> {
    fn default() -> (r: Self)
        ensures
            r@ == identity(),
    {
        PositionNode(NaivePosition::default())
    }
}

impl<T: PositionNum> Clone for ValueNode<T> {
    fn clone(&self) -> (r: Self)
        ensures
            r.0.value() == self.0.value(),
    {
        ValueNode(self.0.duplicate())
    }
}

impl<T: PositionNum> Clone for Node<T> {
    fn clone(&self) -> (r: Self)
        ensures
            match (self, r) {
                (Node::Value(a), Node::Value(b)) => a.0.value() == b.0.value(),
                (Node::Position(a), Node::Position(b)) => a@ == b@,
                _ => false,
            },
    {
        match self {
            Node::Value(v) => Node::Value(v.clone()),
            Node::Position(p) => Node::Position(p.clone()),
        }
    }
}

impl<T: PositionNum> Clone for PositionNode<T> {
    fn clone(&self) -> (r: Self)
        ensures
            r@ == self@,
    {
        PositionNode(self.0.duplicate())
    }
}

/// The holding with its value taken out.
pub open spec fn settled(h: Holding) -> Holding {
    Holding { price: h.price, size: h.size, value: 0real }
}

/// What a node realizes when its whole size is traded away at `price`: zero
/// for a flat node, else the value of the merge with the opposite trade.
pub open spec fn node_worth(h: Holding, price: real) -> real {
    if h.size == 0real {
        0real
    } else {
        merge(h, Holding { price: price, size: -h.size, value: 0real }).value
    }
}

impl<T: PositionNum> PositionNode<T> {
    /// The holding of the node.
    pub fn as_naive(&self) -> (r: &NaivePosition<T>)
        ensures
            r@ == self@,
    {
        &self.0
    }

    /// Merges a holding into the node and hands over the value that the
    /// merge leaves, so that the node keeps none. A holding in reversed form
    /// with a zero price is refused and leaves the node as it is.
    pub fn add<P: IntoNaivePosition<T>>(&mut self, position: P) -> (r: Result<
        T,
        InvalidReversedPrice,
    >)
        ensures
            match r {
                Ok(v) => position.holding().is_some() && v.value() == merge(
                    old(self)@,
                    position.holding().unwrap(),
                ).value && final(self)@ == settled(merge(old(self)@, position.holding().unwrap())),
                Err(_) => position.holding().is_none() && final(self)@ == old(self)@,
            },
    {
        match position.into_naive() {
            Ok(rhs) => Ok(self.add_naive(rhs)),
            Err(e) => Err(e),
        }
    }

    /// Merges a holding in canonical form into the node and hands over the
    /// value that the merge leaves.
    pub fn add_naive(&mut self, rhs: NaivePosition<T>) -> (r: T)
        ensures
            r.value() == merge(old(self)@, rhs@).value,
            final(self)@ == settled(merge(old(self)@, rhs@)),
    {
        self.0.add_assign(rhs);
        self.0.take()
    }

    /// What the node realizes when its whole size is traded away at `price`.
    /// The node stays as it is.
    pub fn eval(&self, price: &T) -> (r: T)
        ensures
            r.value() == node_worth(self@, price.value()),
    {
        if self.0.size.is_zero() {
            T::zero()
        } else {
            let trade = NaivePosition::new(price.duplicate(), self.0.size.neg(), T::zero());
            let merged = self.0.duplicate().add(trade);
            merged.value
        }
    }
}

} // verus!
