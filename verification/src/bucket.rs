//! The positions quoted in one asset, with the settled balance in that
//! asset.

use vstd::prelude::*;
use crate::holding::{merge, Holding};
use crate::num::PositionNum;
use crate::position::{Position, PositionModel};
use crate::symbol::Symbol;

verus! {

/// A settled balance with the positions quoted in the same asset, as plain
/// values.
pub struct SingleValueModel {
    pub value: real,
    pub positions: Seq<PositionModel>,
}

/// Whether no two of the positions have the same symbol.
pub open spec fn distinct_keys(ps: Seq<PositionModel>) -> bool {
    forall|i: int, j: int| 0 <= i < j < ps.len() ==> ps[i].key() != ps[j].key()
}

/// Whether one of the positions has the symbol with text `key`.
pub open spec fn holds_key(ps: Seq<PositionModel>, key: Seq<char>) -> bool {
    exists|i: int| 0 <= i < ps.len() && #[trigger] ps[i].key() == key
}

/// Where the position with the symbol text `key` stands.
pub open spec fn index_of_key(ps: Seq<PositionModel>, key: Seq<char>) -> int {
    choose|i: int| 0 <= i < ps.len() && #[trigger] ps[i].key() == key
}

/// The positions after `p` came in: merged into the position of the same
/// symbol where there is one, else added at the end.
pub open spec fn insert_into(ps: Seq<PositionModel>, p: PositionModel) -> Seq<PositionModel> {
    if holds_key(ps, p.key()) {
        let i = index_of_key(ps, p.key());
        ps.update(i, ps[i].with_holding(merge(ps[i].holding, p.holding)))
    } else {
        ps.push(p)
    }
}

/// The positions after each of `qs` came in, in their order.
pub open spec fn insert_all(ps: Seq<PositionModel>, qs: Seq<PositionModel>) -> Seq<PositionModel>
    decreases qs.len(),
{
    if qs.len() == 0 {
        ps
    } else {
        insert_into(insert_all(ps, qs.drop_last()), qs.last())
    }
}

/// The sum of the values of the positions.
pub open spec fn sum_of_values(ps: Seq<PositionModel>) -> real
    decreases ps.len(),
{
    if ps.len() == 0 {
        0real
    } else {
        sum_of_values(ps.drop_last()) + ps.last().holding.value
    }
}

/// The position with its value taken out.
pub open spec fn without_value(p: PositionModel) -> PositionModel {
    p.with_holding(Holding { price: p.holding.price, size: p.holding.size, value: 0real })
}

impl SingleValueModel {
    /// The balance with the positions of `other` merged in and its settled
    /// value added.
    pub open spec fn merged(self, other: SingleValueModel) -> SingleValueModel {
        SingleValueModel {
            value: self.value + other.value,
            positions: insert_all(self.positions, other.positions),
        }
    }

    /// The balance with the value of every position moved into the settled
    /// value.
    pub open spec fn concentrated(self) -> SingleValueModel {
        SingleValueModel {
            value: self.value + sum_of_values(self.positions),
            positions: self.positions.map_values(|p: PositionModel| without_value(p)),
        }
    }
}

/// Whether one of the positions is the same as `p`.
pub open spec fn holds_same(ps: Seq<PositionModel>, p: PositionModel) -> bool {
    exists|j: int| 0 <= j < ps.len() && p.same(#[trigger] ps[j])
}

impl SingleValueModel {
    /// Whether two balances are the same: the same settled value, as many
    /// positions, and each position of the one the same as one of the other.
    pub open spec fn same(self, other: SingleValueModel) -> bool {
        &&& self.value == other.value
        &&& self.positions.len() == other.positions.len()
        &&& forall|i: int|
            0 <= i < self.positions.len() ==> holds_same(
                other.positions,
                #[trigger] self.positions[i],
            )
    }
}

/// Inserting keeps the symbols distinct, and keeps every key that was there.
pub proof fn lemma_insert_into_distinct(ps: Seq<PositionModel>, p: PositionModel)
    requires
        distinct_keys(ps),
    ensures
        distinct_keys(insert_into(ps, p)),
        holds_key(insert_into(ps, p), p.key()),
        forall|key: Seq<char>| holds_key(ps, key) ==> holds_key(insert_into(ps, p), key),
        forall|key: Seq<char>|
            holds_key(insert_into(ps, p), key) ==> holds_key(ps, key) || key == p.key(),
{
    let r = insert_into(ps, p);
    if holds_key(ps, p.key()) {
        let i = index_of_key(ps, p.key());
        assert(r.len() == ps.len());
        assert forall|k: int| 0 <= k < r.len() implies #[trigger] r[k].key() == ps[k].key() by {}
        assert(r[i].key() == p.key());
        assert forall|key: Seq<char>| holds_key(ps, key) implies holds_key(r, key) by {
            let k = index_of_key(ps, key);
            assert(r[k].key() == key);
        }
        assert forall|key: Seq<char>| holds_key(r, key) implies holds_key(ps, key) || key
            == p.key() by {
            let k = index_of_key(r, key);
            assert(ps[k].key() == key);
        }
    } else {
        assert(r.len() == ps.len() + 1);
        assert(r[ps.len() as int].key() == p.key());
        assert forall|i: int, j: int| 0 <= i < j < r.len() implies r[i].key() != r[j].key() by {
            if j == ps.len() {
                assert(ps[i].key() == r[i].key());
            }
        }
        assert forall|key: Seq<char>| holds_key(ps, key) implies holds_key(r, key) by {
            let k = index_of_key(ps, key);
            assert(r[k].key() == key);
        }
        assert forall|key: Seq<char>| holds_key(r, key) implies holds_key(ps, key) || key
            == p.key() by {
            let k = index_of_key(r, key);
            if k < ps.len() {
                assert(ps[k].key() == key);
            }
        }
    }
}

/// Inserting a run of positions keeps the symbols distinct.
pub proof fn lemma_insert_all_distinct(ps: Seq<PositionModel>, qs: Seq<PositionModel>)
    requires
        distinct_keys(ps),
    ensures
        distinct_keys(insert_all(ps, qs)),
    decreases qs.len(),
{
    if qs.len() > 0 {
        lemma_insert_all_distinct(ps, qs.drop_last());
        lemma_insert_into_distinct(insert_all(ps, qs.drop_last()), qs.last());
    }
}

/// Single Value Positions.
#[derive(Debug)]
pub struct SingleValue<T> {
    value: T,
    positions: Vec<Position<T>>,
}

impl<T: PositionNum> View for SingleValue<T> {
    type V = SingleValueModel;

    closed spec fn view(&self) -> SingleValueModel {
        SingleValueModel {
            value: self.value.value(),
            positions: Seq::new(self.positions@.len(), |i: int| self.positions@[i]@),
        }
    }
}

impl<T: PositionNum> Default for SingleValue<T> {
    fn default() -> (r: Self)
        ensures
            r@.value == 0real,
            r@.positions == Seq::<PositionModel>::empty(),
            r.wf(),
    {
        let r = SingleValue { value: T::zero(), positions: Vec::new() };
        assert(r@.positions =~= Seq::<PositionModel>::empty());
        r
    }
}

impl<T: PositionNum> Clone for SingleValue<T> {
    fn clone(&self) -> (r: Self)
        ensures
            r@ == self@,
    {
        let mut positions: Vec<Position<T>> = Vec::new();
        let n = self.positions.len();
        let mut i: usize = 0;
        while i < n
            invariant
                n == self.positions@.len(),
                i <= n,
                positions@.len() == i,
                forall|j: int| 0 <= j < i ==> positions@[j]@ == self.positions@[j]@,
            decreases n - i,
        {
            positions.push(self.positions[i].clone());
            i += 1;
        }
        let r = SingleValue { value: self.value.duplicate(), positions };
        assert(r@.positions =~= self@.positions);
        r
    }
}

impl<T: PositionNum> PartialEq for SingleValue<T> {
    /// Balances are equal when they agree in the settled value and hold the
    /// same positions, in whatever order.
    fn eq(&self, other: &Self) -> (b: bool) {
        if !self.value.equals(&other.value) || self.positions.len() != other.positions.len() {
            return false;
        }
        let n = self.positions.len();
        let mut i: usize = 0;
        while i < n
            invariant
                n == self@.positions.len(),
                i <= n,
                forall|k: int|
                    0 <= k < i ==> holds_same(other@.positions, #[trigger] self@.positions[k]),
            decreases n - i,
        {
            if !other.holds(&self.positions[i]) {
                assert(!holds_same(other@.positions, self@.positions[i as int]));
                return false;
            }
            i += 1;
        }
        true
    }
}

impl<T: PositionNum> vstd::std_specs::cmp::PartialEqSpecImpl for SingleValue<T> {
    open spec fn obeys_eq_spec() -> bool {
        true
    }

    open spec fn eq_spec(&self, other: &Self) -> bool {
        self@.same(other@)
    }
}

impl<T: PositionNum> SingleValue<T> {
    /// Whether one of the positions is the same as `p`.
    pub fn holds(&self, p: &Position<T>) -> (b: bool)
        ensures
            b == holds_same(self@.positions, p@),
    {
        let n = self.positions.len();
        let mut j: usize = 0;
        while j < n
            invariant
                n == self@.positions.len(),
                j <= n,
                forall|k: int| 0 <= k < j ==> !p@.same(#[trigger] self@.positions[k]),
            decreases n - j,
        {
            if *p == self.positions[j] {
                assert(p@.same(self@.positions[j as int]));
                return true;
            }
            j += 1;
        }
        false
    }

    /// Whether no two positions have the same symbol.
    pub open spec fn wf(&self) -> bool {
        distinct_keys(self@.positions)
    }

    /// A balance of the given settled value, without positions.
    pub fn with_value(value: T) -> (r: Self)
        ensures
            r@.value == value.value(),
            r@.positions == Seq::<PositionModel>::empty(),
            r.wf(),
    {
        let r = SingleValue { value, positions: Vec::new() };
        assert(r@.positions =~= Seq::<PositionModel>::empty());
        r
    }

    /// The settled value.
    pub fn value(&self) -> (r: &T)
        ensures
            r.value() == self@.value,
    {
        &self.value
    }

    /// The number of positions.
    pub fn len(&self) -> (n: usize)
        ensures
            n == self@.positions.len(),
    {
        self.positions.len()
    }

    /// Whether there is no position.
    pub fn is_empty(&self) -> (b: bool)
        ensures
            b == (self@.positions.len() == 0),
    {
        self.positions.len() == 0
    }

    /// The position at `index`, in the order in which the symbols came in.
    pub fn at(&self, index: usize) -> (r: &Position<T>)
        requires
            index < self@.positions.len(),
        ensures
            r@ == self@.positions[index as int],
    {
        &self.positions[index]
    }

    /// The positions with their symbols, in the order in which the symbols
    /// came in.
    pub fn iter(&self) -> (r: Vec<(&Symbol, &Position<T>)>)
        ensures
            r@.len() == self@.positions.len(),
            forall|i: int|
                0 <= i < r@.len() ==> (#[trigger] r@[i]).1@ == self@.positions[i] && r@[i].0@
                    == self@.positions[i].instrument.symbol,
    {
        let mut out: Vec<(&Symbol, &Position<T>)> = Vec::new();
        let n = self.positions.len();
        let mut i: usize = 0;
        while i < n
            invariant
                n == self@.positions.len(),
                i <= n,
                out@.len() == i,
                forall|j: int|
                    0 <= j < i ==> (#[trigger] out@[j]).1@ == self@.positions[j] && out@[j].0@
                        == self@.positions[j].instrument.symbol,
            decreases n - i,
        {
            let p = &self.positions[i];
            out.push((p.instrument().as_symbol(), p));
            i += 1;
        }
        out
    }

    /// Where the position of the symbol stands, if there is one.
    pub fn find(&self, symbol: &Symbol) -> (r: Option<usize>)
        requires
            self.wf(),
        ensures
            match r {
                Some(i) => holds_key(self@.positions, symbol@.text()) && i == index_of_key(
                    self@.positions,
                    symbol@.text(),
                ) && i < self@.positions.len(),
                None => !holds_key(self@.positions, symbol@.text()),
            },
    {
        let n = self.positions.len();
        let mut i: usize = 0;
        while i < n
            invariant
                n == self@.positions.len(),
                i <= n,
                self.wf(),
                forall|j: int| 0 <= j < i ==> self@.positions[j].key() != symbol@.text(),
            decreases n - i,
        {
            if *self.positions[i].instrument().as_symbol() == *symbol {
                proof {
                    assert(self@.positions[i as int].key() == symbol@.text());
                    let k = index_of_key(self@.positions, symbol@.text());
                    assert(self@.positions[k].key() == symbol@.text());
                    assert(k == i);
                }
                return Some(i);
            }
            i += 1;
        }
        None
    }

    /// The position of the symbol, if there is one.
    pub fn get(&self, symbol: &Symbol) -> (r: Option<&Position<T>>)
        requires
            self.wf(),
        ensures
            match r {
                Some(p) => holds_key(self@.positions, symbol@.text()) && p@
                    == self@.positions[index_of_key(self@.positions, symbol@.text())],
                None => !holds_key(self@.positions, symbol@.text()),
            },
    {
        match self.find(symbol) {
            Some(i) => Some(&self.positions[i]),
            None => None,
        }
    }

    /// The position of the symbol, if there is one, to be changed in place.
    /// Nothing is made. The balance stays well formed as long as the
    /// position keeps its instrument.
    pub fn get_mut(&mut self, symbol: &Symbol) -> (r: Option<&mut Position<T>>)
        requires
            old(self).wf(),
        ensures
            match r {
                Some(p) => {
                    let i = index_of_key(old(self)@.positions, symbol@.text());
                    &&& holds_key(old(self)@.positions, symbol@.text())
                    &&& p@ == old(self)@.positions[i]
                    &&& final(self)@ == (SingleValueModel {
                        value: old(self)@.value,
                        positions: old(self)@.positions.update(i, final(p)@),
                    })
                },
                None => !holds_key(old(self)@.positions, symbol@.text()) && final(self)@ == old(
                    self,
                )@,
            },
    {
        match self.find(symbol) {
            Some(i) => {
                let ghost before = self@.positions;
                let p = &mut self.positions[i];
                proof {
                    assert(after_borrow(self)@.positions =~= before.update(i as int, final(p)@));
                }
                Some(p)
            },
            None => None,
        }
    }

    /// The settled value, to be changed in place.
    pub fn value_mut(&mut self) -> (r: &mut T)
        ensures
            r.value() == old(self)@.value,
            final(self)@ == (SingleValueModel {
                value: final(r).value(),
                positions: old(self)@.positions,
            }),
    {
        &mut self.value
    }

    /// Adds to the settled value.
    pub fn add_value(&mut self, value: T)
        ensures
            final(self)@ == (SingleValueModel {
                value: old(self)@.value + value.value(),
                positions: old(self)@.positions,
            }),
    {
        self.value = self.value.add(&value);
    }

    /// Takes a position in: merged into the position of the same symbol
    /// where there is one, else added after the others.
    pub fn insert(&mut self, position: Position<T>)
        requires
            old(self).wf(),
        ensures
            final(self).wf(),
            final(self)@ == (SingleValueModel {
                value: old(self)@.value,
                positions: insert_into(old(self)@.positions, position@),
            }),
    {
        proof {
            lemma_insert_into_distinct(self@.positions, position@);
        }
        match self.find(position.instrument().as_symbol()) {
            Some(i) => {
                let ghost before = self@.positions;
                let rhs = position.as_naive().duplicate();
                let mut merged = self.positions[i].clone();
                let _ = merged.add_assign(rhs);
                self.positions.set(i, merged);
                assert(self@.positions =~= insert_into(before, position@));
            },
            None => {
                let ghost before = self@.positions;
                self.positions.push(position);
                assert(self@.positions =~= insert_into(before, position@));
            },
        }
    }

    /// Takes in the settled value and the positions of another balance.
    pub fn add_assign(&mut self, rhs: &Self)
        requires
            old(self).wf(),
        ensures
            final(self).wf(),
            final(self)@ == old(self)@.merged(rhs@),
    {
        let ghost start = self@;
        self.value = self.value.add(&rhs.value);
        let n = rhs.positions.len();
        let mut i: usize = 0;
        while i < n
            invariant
                n == rhs@.positions.len(),
                i <= n,
                self.wf(),
                self@.value == start.value + rhs@.value,
                self@.positions == insert_all(start.positions, rhs@.positions.take(i as int)),
            decreases n - i,
        {
            proof {
                let next = rhs@.positions.take(i + 1);
                assert(next.drop_last() =~= rhs@.positions.take(i as int));
                assert(next.last() == rhs@.positions[i as int]);
            }
            self.insert(rhs.positions[i].clone());
            i += 1;
        }
        assert(rhs@.positions.take(n as int) =~= rhs@.positions);
    }

    /// Moves the value of every position into the settled value.
    pub fn concentrate(&mut self)
        ensures
            final(self)@ == old(self)@.concentrated(),
            old(self).wf() ==> final(self).wf(),
    {
        let ghost start = self@;
        let n = self.positions.len();
        let mut i: usize = 0;
        while i < n
            invariant
                n == start.positions.len(),
                self@.positions.len() == n,
                i <= n,
                self@.value == start.value + sum_of_values(start.positions.take(i as int)),
                forall|j: int|
                    0 <= j < i ==> #[trigger] self@.positions[j] == without_value(
                        start.positions[j],
                    ),
                forall|j: int| i <= j < n ==> #[trigger] self@.positions[j] == start.positions[j],
            decreases n - i,
        {
            proof {
                let next = start.positions.take(i + 1);
                assert(next.drop_last() =~= start.positions.take(i as int));
                assert(next.last() == start.positions[i as int]);
            }
            let ghost before = self@.positions;
            let mut p = self.positions[i].clone();
            let taken = p.take();
            self.positions.set(i, p);
            self.value = self.value.add(&taken);
            proof {
                assert(before[i as int] == start.positions[i as int]);
                assert(self@.positions[i as int] == without_value(start.positions[i as int]));
                assert forall|j: int| 0 <= j < n && j != i implies #[trigger] self@.positions[j]
                    == before[j] by {}
                assert forall|j: int| 0 <= j < i + 1 implies #[trigger] self@.positions[j]
                    == without_value(start.positions[j]) by {
                    if j < i {
                        assert(before[j] == without_value(start.positions[j]));
                    }
                }
            }
            i += 1;
        }
        assert(start.positions.take(n as int) =~= start.positions);
        assert(self@.positions =~= start.concentrated().positions);
        assert forall|a: int, b: int| 0 <= a < b < n implies #[trigger] self@.positions[a].key()
            != #[trigger] self@.positions[b].key() || !old(self).wf() by {
            assert(self@.positions[a].key() == start.positions[a].key());
            assert(self@.positions[b].key() == start.positions[b].key());
        }
    }
}

} // verus!
