//! The table of positions: for each quote asset a settled balance and the
//! positions quoted in it.

use vstd::prelude::*;
use crate::asset::Asset;
use crate::bucket::{
    distinct_keys, holds_key, index_of_key, insert_all, insert_into, lemma_insert_into_distinct,
    sum_of_values, SingleValue, SingleValueModel,
};
use crate::instrument::Instrument;
use crate::num::PositionNum;
use crate::position::{Position, PositionModel};

verus! {

/// A quote asset with its balance, as plain values.
pub struct BucketModel {
    pub asset: Seq<char>,
    pub single: SingleValueModel,
}

/// Whether every position of the bucket is quoted in the bucket's asset and
/// no two positions have the same symbol.
pub open spec fn bucket_wf(b: BucketModel) -> bool {
    &&& distinct_keys(b.single.positions)
    &&& forall|i: int|
        0 <= i < b.single.positions.len() ==> (#[trigger] b.single.positions[i]).instrument.quote
            == b.asset
}

/// Whether the table is well formed: no asset has two buckets, and every
/// bucket is well formed.
pub open spec fn table_wf(t: Seq<BucketModel>) -> bool {
    &&& forall|i: int, j: int| 0 <= i < j < t.len() ==> t[i].asset != t[j].asset
    &&& forall|i: int| 0 <= i < t.len() ==> bucket_wf(#[trigger] t[i])
}

/// Whether the table has a bucket for the asset.
pub open spec fn holds_asset(t: Seq<BucketModel>, asset: Seq<char>) -> bool {
    exists|i: int| 0 <= i < t.len() && #[trigger] t[i].asset == asset
}

/// Where the bucket of the asset stands.
pub open spec fn index_of_asset(t: Seq<BucketModel>, asset: Seq<char>) -> int {
    choose|i: int| 0 <= i < t.len() && #[trigger] t[i].asset == asset
}

/// The table after a position came in: into the bucket of its quote asset,
/// which is made where there is none.
pub open spec fn with_position(t: Seq<BucketModel>, p: PositionModel) -> Seq<BucketModel> {
    let asset = p.instrument.quote;
    if holds_asset(t, asset) {
        let i = index_of_asset(t, asset);
        t.update(
            i,
            BucketModel {
                asset: asset,
                single: SingleValueModel {
                    value: t[i].single.value,
                    positions: insert_into(t[i].single.positions, p),
                },
            },
        )
    } else {
        t.push(
            BucketModel {
                asset: asset,
                single: SingleValueModel { value: 0real, positions: seq![p] },
            },
        )
    }
}

/// The table after a settled value came in: added to the bucket of the
/// asset, which is made where there is none.
pub open spec fn with_value(t: Seq<BucketModel>, value: real, asset: Seq<char>) -> Seq<
    BucketModel,
> {
    if holds_asset(t, asset) {
        let i = index_of_asset(t, asset);
        t.update(
            i,
            BucketModel {
                asset: asset,
                single: SingleValueModel {
                    value: t[i].single.value + value,
                    positions: t[i].single.positions,
                },
            },
        )
    } else {
        t.push(
            BucketModel {
                asset: asset,
                single: SingleValueModel { value: value, positions: Seq::empty() },
            },
        )
    }
}

/// The table after a whole bucket came in: merged into the bucket of the
/// same asset where there is one, else added as it is.
pub open spec fn with_bucket(t: Seq<BucketModel>, b: BucketModel) -> Seq<BucketModel> {
    if holds_asset(t, b.asset) {
        let i = index_of_asset(t, b.asset);
        t.update(i, BucketModel { asset: b.asset, single: t[i].single.merged(b.single) })
    } else {
        t.push(b)
    }
}

/// The table after every bucket of `u` came in, in their order.
pub open spec fn merged_tables(t: Seq<BucketModel>, u: Seq<BucketModel>) -> Seq<BucketModel>
    decreases u.len(),
{
    if u.len() == 0 {
        t
    } else {
        with_bucket(merged_tables(t, u.drop_last()), u.last())
    }
}

/// The table with the value of every position moved into the settled value
/// of its bucket.
pub open spec fn concentrated_table(t: Seq<BucketModel>) -> Seq<BucketModel> {
    t.map_values(|b: BucketModel| BucketModel { asset: b.asset, single: b.single.concentrated() })
}

/// The position of an instrument in the table: the one with its symbol in
/// the bucket of its quote asset, if there is one.
pub open spec fn position_of(t: Seq<BucketModel>, quote: Seq<char>, key: Seq<char>) -> Option<
    PositionModel,
> {
    if holds_asset(t, quote) {
        let ps = t[index_of_asset(t, quote)].single.positions;
        if holds_key(ps, key) {
            Some(ps[index_of_key(ps, key)])
        } else {
            None
        }
    } else {
        None
    }
}

/// The settled value of an asset in the table, if it has a bucket.
pub open spec fn value_of(t: Seq<BucketModel>, asset: Seq<char>) -> Option<real> {
    if holds_asset(t, asset) {
        Some(t[index_of_asset(t, asset)].single.value)
    } else {
        None
    }
}

/// Whether one of the buckets has the asset of `b` and the same balance.
pub open spec fn holds_bucket(t: Seq<BucketModel>, b: BucketModel) -> bool {
    exists|j: int| 0 <= j < t.len() && (#[trigger] t[j]).asset == b.asset && b.single.same(t[j].single)
}

/// Whether two tables are the same: as many buckets, and each bucket of the
/// one with the asset and the same balance as one of the other.
pub open spec fn same_table(t: Seq<BucketModel>, u: Seq<BucketModel>) -> bool {
    &&& t.len() == u.len()
    &&& forall|i: int| 0 <= i < t.len() ==> holds_bucket(u, #[trigger] t[i])
}

#[derive(Debug)]
struct Bucket<T> {
    asset: Asset,
    single: SingleValue<T>,
}

impl<T: PositionNum> View for Bucket<T> {
    type V = BucketModel;

    closed spec fn view(&self) -> BucketModel {
        BucketModel { asset: self.asset@, single: self.single@ }
    }
}

/// A table of positions.
#[derive(Debug)]
pub struct Positions<T> {
    values: Vec<Bucket<T>>,
}

impl<T: PositionNum> View for Positions<T> {
    type V = Seq<BucketModel>;

    closed spec fn view(&self) -> Seq<BucketModel> {
        Seq::new(self.values@.len(), |i: int| self.values@[i]@)
    }
}

impl<T: PositionNum> Default for Positions<T> {
    fn default() -> (r: Self)
        ensures
            r@ == Seq::<BucketModel>::empty(),
            r.wf(),
    {
        let r = Positions { values: Vec::new() };
        assert(r@ =~= Seq::<BucketModel>::empty());
        r
    }
}

impl<T: PositionNum> Clone for Positions<T> {
    fn clone(&self) -> (r: Self)
        ensures
            r@ == self@,
    {
        let mut values: Vec<Bucket<T>> = Vec::new();
        let n = self.values.len();
        let mut i: usize = 0;
        while i < n
            invariant
                n == self.values@.len(),
                i <= n,
                values@.len() == i,
                forall|j: int| 0 <= j < i ==> values@[j]@ == self.values@[j]@,
            decreases n - i,
        {
            let b = &self.values[i];
            values.push(Bucket { asset: b.asset.clone(), single: b.single.clone() });
            i += 1;
        }
        let r = Positions { values };
        assert(r@ =~= self@);
        r
    }
}

impl<T: PositionNum> PartialEq for Positions<T> {
    /// Tables are equal when they hold the same buckets, in whatever order.
    fn eq(&self, other: &Self) -> (b: bool) {
        if self.values.len() != other.values.len() {
            return false;
        }
        let n = self.values.len();
        let mut i: usize = 0;
        while i < n
            invariant
                n == self@.len(),
                i <= n,
                forall|k: int| 0 <= k < i ==> holds_bucket(other@, #[trigger] self@[k]),
            decreases n - i,
        {
            if !other.holds(&self.values[i]) {
                assert(!holds_bucket(other@, self@[i as int]));
                return false;
            }
            i += 1;
        }
        true
    }
}

impl<T: PositionNum> vstd::std_specs::cmp::PartialEqSpecImpl for Positions<T> {
    open spec fn obeys_eq_spec() -> bool {
        true
    }

    open spec fn eq_spec(&self, other: &Self) -> bool {
        same_table(self@, other@)
    }
}

impl<T: PositionNum> Positions<T> {
    /// Whether one of the buckets has the asset of `b` and the same balance.
    fn holds(&self, b: &Bucket<T>) -> (r: bool)
        ensures
            r == holds_bucket(self@, b@),
    {
        let n = self.values.len();
        let mut j: usize = 0;
        while j < n
            invariant
                n == self@.len(),
                j <= n,
                forall|k: int|
                    0 <= k < j ==> !((#[trigger] self@[k]).asset == b@.asset && b@.single.same(
                        self@[k].single,
                    )),
            decreases n - j,
        {
            if self.values[j].asset == b.asset && b.single == self.values[j].single {
                assert(self@[j as int].asset == b@.asset && b@.single.same(self@[j as int].single));
                return true;
            }
            j += 1;
        }
        false
    }

    /// Whether the table is well formed.
    pub open spec fn wf(&self) -> bool {
        table_wf(self@)
    }

    /// The number of quote assets.
    pub fn len(&self) -> (n: usize)
        ensures
            n == self@.len(),
    {
        self.values.len()
    }

    /// Whether the table has no bucket.
    pub fn is_empty(&self) -> (b: bool)
        ensures
            b == (self@.len() == 0),
    {
        self.values.len() == 0
    }

    /// The quote asset of the bucket at `index`, in the order in which the
    /// assets came in.
    pub fn asset_at(&self, index: usize) -> (r: &Asset)
        requires
            index < self@.len(),
        ensures
            r@ == self@[index as int].asset,
    {
        &self.values[index].asset
    }

    /// The balance of the bucket at `index`.
    pub fn single_at(&self, index: usize) -> (r: &SingleValue<T>)
        requires
            index < self@.len(),
        ensures
            r@ == self@[index as int].single,
    {
        &self.values[index].single
    }

    /// The balances with their quote assets, in the order in which the
    /// assets came in.
    pub fn iter(&self) -> (r: Vec<(&Asset, &SingleValue<T>)>)
        ensures
            r@.len() == self@.len(),
            forall|i: int|
                0 <= i < r@.len() ==> (#[trigger] r@[i]).0@ == self@[i].asset && r@[i].1@
                    == self@[i].single,
    {
        let mut out: Vec<(&Asset, &SingleValue<T>)> = Vec::new();
        let n = self.values.len();
        let mut i: usize = 0;
        while i < n
            invariant
                n == self@.len(),
                i <= n,
                out@.len() == i,
                forall|j: int|
                    0 <= j < i ==> (#[trigger] out@[j]).0@ == self@[j].asset && out@[j].1@
                        == self@[j].single,
            decreases n - i,
        {
            let b = &self.values[i];
            out.push((&b.asset, &b.single));
            i += 1;
        }
        out
    }

    /// Where the bucket of the asset stands, if there is one.
    pub fn find(&self, asset: &Asset) -> (r: Option<usize>)
        requires
            self.wf(),
        ensures
            match r {
                Some(i) => holds_asset(self@, asset@) && i == index_of_asset(self@, asset@) && i
                    < self@.len(),
                None => !holds_asset(self@, asset@),
            },
    {
        let n = self.values.len();
        let mut i: usize = 0;
        while i < n
            invariant
                n == self@.len(),
                i <= n,
                self.wf(),
                forall|j: int| 0 <= j < i ==> self@[j].asset != asset@,
            decreases n - i,
        {
            if self.values[i].asset == *asset {
                proof {
                    assert(self@[i as int].asset == asset@);
                    let k = index_of_asset(self@, asset@);
                    assert(self@[k].asset == asset@);
                    assert(k == i);
                }
                return Some(i);
            }
            i += 1;
        }
        None
    }

    /// Takes a position in: into the bucket of its quote asset, merged with
    /// the position of the same symbol where there is one.
    pub fn insert_position(&mut self, position: Position<T>)
        requires
            old(self).wf(),
        ensures
            final(self).wf(),
            final(self)@ == with_position(old(self)@, position@),
    {
        let ghost before = self@;
        match self.find(position.instrument().quote()) {
            Some(i) => {
                proof {
                    lemma_insert_into_distinct(before[i as int].single.positions, position@);
                }
                let mut single = self.values[i].single.clone();
                single.insert(position);
                let asset = self.values[i].asset.clone();
                self.values.set(i, Bucket { asset, single });
                assert(self@ =~= with_position(before, position@));
                proof {
                    lemma_with_position_wf(before, position@);
                }
            },
            None => {
                let asset = position.instrument().quote().clone();
                let mut single = SingleValue::default();
                single.insert(position);
                assert(single@.positions =~= seq![position@]);
                self.values.push(Bucket { asset, single });
                assert(self@ =~= with_position(before, position@));
                proof {
                    lemma_with_position_wf(before, position@);
                }
            },
        }
    }

    /// Takes a settled value in: added to the bucket of the asset, which is
    /// made where there is none.
    pub fn insert_value(&mut self, value: T, asset: &Asset)
        requires
            old(self).wf(),
        ensures
            final(self).wf(),
            final(self)@ == with_value(old(self)@, value.value(), asset@),
    {
        let ghost before = self@;
        match self.find(asset) {
            Some(i) => {
                let mut single = self.values[i].single.clone();
                single.add_value(value);
                self.values.set(i, Bucket { asset: asset.clone(), single });
                assert(self@ =~= with_value(before, value.value(), asset@));
                proof {
                    lemma_with_value_wf(before, value.value(), asset@);
                }
            },
            None => {
                self.values.push(Bucket { asset: asset.clone(), single: SingleValue::with_value(value) });
                assert(self@ =~= with_value(before, value.value(), asset@));
                proof {
                    lemma_with_value_wf(before, value.value(), asset@);
                }
            },
        }
    }

    /// The position of the instrument, if the table holds one. Nothing is
    /// made.
    pub fn get_position(&self, instrument: &Instrument) -> (r: Option<&Position<T>>)
        requires
            self.wf(),
        ensures
            match r {
                Some(p) => position_of(self@, instrument@.quote, instrument@.symbol.text())
                    == Some(p@),
                None => position_of(self@, instrument@.quote, instrument@.symbol.text()).is_none(),
            },
    {
        match self.find(instrument.quote()) {
            Some(i) => {
                assert(bucket_wf(self@[i as int]));
                self.values[i].single.get(instrument.as_symbol())
            },
            None => None,
        }
    }

    /// The settled value of the asset, if the table has a bucket for it.
    /// Nothing is made.
    pub fn get_value(&self, asset: &Asset) -> (r: Option<&T>)
        requires
            self.wf(),
        ensures
            match r {
                Some(v) => value_of(self@, asset@) == Some(v.value()),
                None => value_of(self@, asset@).is_none(),
            },
    {
        match self.find(asset) {
            Some(i) => Some(self.values[i].single.value()),
            None => None,
        }
    }

    /// The position of the instrument, if the table holds one, to be changed
    /// in place. Nothing is made. The table stays well formed as long as the
    /// position keeps its instrument.
    pub fn get_position_mut(&mut self, instrument: &Instrument) -> (r: Option<&mut Position<T>>)
        requires
            old(self).wf(),
        ensures
            match r {
                Some(p) => {
                    let k = index_of_asset(old(self)@, instrument@.quote);
                    let ps = old(self)@[k].single.positions;
                    let i = index_of_key(ps, instrument@.symbol.text());
                    &&& position_of(old(self)@, instrument@.quote, instrument@.symbol.text())
                        == Some(p@)
                    &&& final(self)@ == old(self)@.update(
                        k,
                        BucketModel {
                            asset: old(self)@[k].asset,
                            single: SingleValueModel {
                                value: old(self)@[k].single.value,
                                positions: ps.update(i, final(p)@),
                            },
                        },
                    )
                },
                None => position_of(
                    old(self)@,
                    instrument@.quote,
                    instrument@.symbol.text(),
                ).is_none() && final(self)@ == old(self)@,
            },
    {
        match self.find(instrument.quote()) {
            Some(k) => {
                let ghost before = self@;
                assert(bucket_wf(before[k as int]));
                let bucket = &mut self.values[k];
                match bucket.single.get_mut(instrument.as_symbol()) {
                    Some(p) => {
                        proof {
                            let ps = before[k as int].single.positions;
                            let i = index_of_key(ps, instrument@.symbol.text());
                            assert(after_borrow(self)@ =~= before.update(
                                k as int,
                                BucketModel {
                                    asset: before[k as int].asset,
                                    single: SingleValueModel {
                                        value: before[k as int].single.value,
                                        positions: ps.update(i, final(p)@),
                                    },
                                },
                            ));
                        }
                        Some(p)
                    },
                    None => {
                        assert(after_borrow(self)@ =~= before);
                        None
                    },
                }
            },
            None => None,
        }
    }

    /// The settled value of the asset, if the table has a bucket for it, to
    /// be changed in place. Nothing is made.
    pub fn get_value_mut(&mut self, asset: &Asset) -> (r: Option<&mut T>)
        requires
            old(self).wf(),
        ensures
            match r {
                Some(v) => {
                    let k = index_of_asset(old(self)@, asset@);
                    &&& value_of(old(self)@, asset@) == Some(v.value())
                    &&& final(self)@ == old(self)@.update(
                        k,
                        BucketModel {
                            asset: asset@,
                            single: SingleValueModel {
                                value: final(v).value(),
                                positions: old(self)@[k].single.positions,
                            },
                        },
                    )
                    &&& final(self).wf()
                },
                None => value_of(old(self)@, asset@).is_none() && final(self)@ == old(self)@,
            },
    {
        match self.find(asset) {
            Some(k) => {
                let ghost before = self@;
                assert(bucket_wf(before[k as int]));
                let bucket = &mut self.values[k];
                let v = bucket.single.value_mut();
                proof {
                    let after = before.update(
                        k as int,
                        BucketModel {
                            asset: asset@,
                            single: SingleValueModel {
                                value: final(v).value(),
                                positions: before[k as int].single.positions,
                            },
                        },
                    );
                    assert(after_borrow(self)@ =~= after);
                    assert forall|j: int| 0 <= j < after.len() implies bucket_wf(
                        #[trigger] after[j],
                    ) by {
                        if j != k {
                            assert(after[j] == before[j]);
                        }
                    }
                    assert forall|x: int, y: int| 0 <= x < y < after.len() implies after[x].asset
                        != after[y].asset by {
                        assert(after[x].asset == before[x].asset);
                        assert(after[y].asset == before[y].asset);
                    }
                }
                Some(v)
            },
            None => None,
        }
    }

    /// Moves the value of every position into the settled value of its
    /// bucket. A second call in a row moves nothing more.
    pub fn concentrate(&mut self)
        requires
            old(self).wf(),
        ensures
            final(self).wf(),
            final(self)@ == concentrated_table(old(self)@),
    {
        let ghost start = self@;
        let n = self.values.len();
        let mut i: usize = 0;
        while i < n
            invariant
                n == start.len(),
                self@.len() == n,
                i <= n,
                table_wf(start),
                forall|j: int|
                    0 <= j < i ==> #[trigger] self@[j] == (BucketModel {
                        asset: start[j].asset,
                        single: start[j].single.concentrated(),
                    }),
                forall|j: int| i <= j < n ==> #[trigger] self@[j] == start[j],
            decreases n - i,
        {
            let ghost before = self@;
            let mut single = self.values[i].single.clone();
            single.concentrate();
            let asset = self.values[i].asset.clone();
            self.values.set(i, Bucket { asset, single });
            proof {
                assert(before[i as int] == start[i as int]);
                assert forall|j: int| 0 <= j < n && j != i implies #[trigger] self@[j]
                    == before[j] by {}
                assert forall|j: int| 0 <= j < i + 1 implies #[trigger] self@[j] == (BucketModel {
                    asset: start[j].asset,
                    single: start[j].single.concentrated(),
                }) by {
                    if j < i {
                        assert(before[j] == (BucketModel {
                            asset: start[j].asset,
                            single: start[j].single.concentrated(),
                        }));
                    }
                }
            }
            i += 1;
        }
        assert(self@ =~= concentrated_table(start));
        proof {
            lemma_concentrated_wf(start);
        }
    }

    /// Takes in every bucket of another table: merged into the bucket of the
    /// same asset where there is one, else added as it is.
    pub fn add_assign(&mut self, rhs: &Self)
        requires
            old(self).wf(),
            rhs.wf(),
        ensures
            final(self).wf(),
            final(self)@ == merged_tables(old(self)@, rhs@),
    {
        let ghost start = self@;
        let n = rhs.values.len();
        let mut i: usize = 0;
        while i < n
            invariant
                n == rhs@.len(),
                i <= n,
                self.wf(),
                rhs.wf(),
                self@ == merged_tables(start, rhs@.take(i as int)),
            decreases n - i,
        {
            let ghost before = self@;
            proof {
                let next = rhs@.take(i + 1);
                assert(next.drop_last() =~= rhs@.take(i as int));
                assert(next.last() == rhs@[i as int]);
                assert(bucket_wf(rhs@[i as int]));
                lemma_with_bucket_wf(before, rhs@[i as int]);
            }
            let theirs = &rhs.values[i];
            match self.find(&theirs.asset) {
                Some(at) => {
                    assert(bucket_wf(before[at as int]));
                    let mut single = self.values[at].single.clone();
                    single.add_assign(&theirs.single);
                    self.values.set(at, Bucket { asset: theirs.asset.clone(), single });
                    assert(self@ =~= with_bucket(before, rhs@[i as int]));
                },
                None => {
                    self.values.push(
                        Bucket { asset: theirs.asset.clone(), single: theirs.single.clone() },
                    );
                    assert(self@ =~= with_bucket(before, rhs@[i as int]));
                },
            }
            i += 1;
        }
        assert(rhs@.take(n as int) =~= rhs@);
    }

    /// The table with every bucket of another table taken in.
    pub fn add(self, rhs: Self) -> (r: Self)
        requires
            self.wf(),
            rhs.wf(),
        ensures
            r.wf(),
            r@ == merged_tables(self@, rhs@),
    {
        let mut r = self;
        r.add_assign(&rhs);
        r
    }

    /// The table that holds just the given position.
    pub fn from_position(p: Position<T>) -> (r: Self)
        ensures
            r.wf(),
            r@ == with_position(Seq::<BucketModel>::empty(), p@),
    {
        let mut r = Self::default();
        r.insert_position(p);
        r
    }
}

impl Asset {
    /// The table that holds nothing but the given value of this asset.
    pub fn to_positions<T: PositionNum>(&self, value: T) -> (r: Positions<T>)
        ensures
            r.wf(),
            r@ == with_value(Seq::<BucketModel>::empty(), value.value(), self@),
    {
        let mut p = Positions::default();
        p.insert_value(value, self);
        p
    }
}

/// Taking a position in keeps the table well formed.
pub proof fn lemma_with_position_wf(t: Seq<BucketModel>, p: PositionModel)
    requires
        table_wf(t),
    ensures
        table_wf(with_position(t, p)),
{
    let asset = p.instrument.quote;
    let r = with_position(t, p);
    if holds_asset(t, asset) {
        let i = index_of_asset(t, asset);
        let ps = t[i].single.positions;
        assert(bucket_wf(t[i]));
        lemma_insert_into_distinct(ps, p);
        let qs = insert_into(ps, p);
        assert forall|k: int| 0 <= k < qs.len() implies (#[trigger] qs[k]).instrument.quote
            == asset by {
            if holds_key(ps, p.key()) {
                let at = index_of_key(ps, p.key());
                if k != at {
                    assert(qs[k] == ps[k]);
                } else {
                    assert(ps[at].instrument.quote == asset);
                }
            } else {
                if k < ps.len() {
                    assert(qs[k] == ps[k]);
                }
            }
        }
        assert forall|k: int| 0 <= k < r.len() implies bucket_wf(#[trigger] r[k]) by {
            if k != i {
                assert(r[k] == t[k]);
            }
        }
        assert forall|a: int, b: int| 0 <= a < b < r.len() implies r[a].asset != r[b].asset by {
            assert(r[a].asset == t[a].asset);
            assert(r[b].asset == t[b].asset);
        }
    } else {
        assert forall|k: int| 0 <= k < r.len() implies bucket_wf(#[trigger] r[k]) by {
            if k < t.len() {
                assert(r[k] == t[k]);
            }
        }
        assert forall|a: int, b: int| 0 <= a < b < r.len() implies r[a].asset != r[b].asset by {
            if b == t.len() {
                assert(t[a].asset == r[a].asset);
            } else {
                assert(r[a].asset == t[a].asset);
                assert(r[b].asset == t[b].asset);
            }
        }
    }
}

/// Taking a settled value in keeps the table well formed.
pub proof fn lemma_with_value_wf(t: Seq<BucketModel>, value: real, asset: Seq<char>)
    requires
        table_wf(t),
    ensures
        table_wf(with_value(t, value, asset)),
{
    let r = with_value(t, value, asset);
    if holds_asset(t, asset) {
        let i = index_of_asset(t, asset);
        assert(bucket_wf(t[i]));
        assert forall|k: int| 0 <= k < r.len() implies bucket_wf(#[trigger] r[k]) by {
            if k != i {
                assert(r[k] == t[k]);
            }
        }
        assert forall|a: int, b: int| 0 <= a < b < r.len() implies r[a].asset != r[b].asset by {
            assert(r[a].asset == t[a].asset);
            assert(r[b].asset == t[b].asset);
        }
    } else {
        assert forall|k: int| 0 <= k < r.len() implies bucket_wf(#[trigger] r[k]) by {
            if k < t.len() {
                assert(r[k] == t[k]);
            }
        }
        assert forall|a: int, b: int| 0 <= a < b < r.len() implies r[a].asset != r[b].asset by {
            if b == t.len() {
                assert(t[a].asset == r[a].asset);
            } else {
                assert(r[a].asset == t[a].asset);
                assert(r[b].asset == t[b].asset);
            }
        }
    }
}

/// Taking a whole bucket in keeps the table well formed.
pub proof fn lemma_with_bucket_wf(t: Seq<BucketModel>, b: BucketModel)
    requires
        table_wf(t),
        bucket_wf(b),
    ensures
        table_wf(with_bucket(t, b)),
{
    let r = with_bucket(t, b);
    if holds_asset(t, b.asset) {
        let i = index_of_asset(t, b.asset);
        assert(bucket_wf(t[i]));
        lemma_insert_all_wf(t[i].single.positions, b.single.positions, b.asset);
        assert forall|k: int| 0 <= k < r.len() implies bucket_wf(#[trigger] r[k]) by {
            if k != i {
                assert(r[k] == t[k]);
            }
        }
        assert forall|x: int, y: int| 0 <= x < y < r.len() implies r[x].asset != r[y].asset by {
            assert(r[x].asset == t[x].asset);
            assert(r[y].asset == t[y].asset);
        }
    } else {
        assert forall|k: int| 0 <= k < r.len() implies bucket_wf(#[trigger] r[k]) by {
            if k < t.len() {
                assert(r[k] == t[k]);
            }
        }
        assert forall|x: int, y: int| 0 <= x < y < r.len() implies r[x].asset != r[y].asset by {
            if y == t.len() {
                assert(t[x].asset == r[x].asset);
            } else {
                assert(r[x].asset == t[x].asset);
                assert(r[y].asset == t[y].asset);
            }
        }
    }
}

/// Taking positions of one quote asset into others of that asset keeps the
/// symbols distinct and the quote asset the same.
pub proof fn lemma_insert_all_wf(ps: Seq<PositionModel>, qs: Seq<PositionModel>, asset: Seq<char>)
    requires
        bucket_wf(BucketModel { asset: asset, single: SingleValueModel { value: 0real, positions: ps } }),
        bucket_wf(BucketModel { asset: asset, single: SingleValueModel { value: 0real, positions: qs } }),
    ensures
        bucket_wf(
            BucketModel {
                asset: asset,
                single: SingleValueModel { value: 0real, positions: insert_all(ps, qs) },
            },
        ),
    decreases qs.len(),
{
    if qs.len() > 0 {
        let front = qs.drop_last();
        let p = qs.last();
        assert forall|i: int| 0 <= i < front.len() implies (#[trigger] front[i]).instrument.quote
            == asset by {
            assert(front[i] == qs[i]);
        }
        assert forall|i: int, j: int| 0 <= i < j < front.len() implies front[i].key()
            != front[j].key() by {
            assert(front[i] == qs[i]);
            assert(front[j] == qs[j]);
        }
        lemma_insert_all_wf(ps, front, asset);
        let mid = insert_all(ps, front);
        lemma_insert_into_distinct(mid, p);
        let out = insert_into(mid, p);
        assert(p.instrument.quote == asset);
        assert forall|k: int| 0 <= k < out.len() implies (#[trigger] out[k]).instrument.quote
            == asset by {
            if holds_key(mid, p.key()) {
                let at = index_of_key(mid, p.key());
                if k != at {
                    assert(out[k] == mid[k]);
                } else {
                    assert(mid[at].instrument.quote == asset);
                }
            } else {
                if k < mid.len() {
                    assert(out[k] == mid[k]);
                }
            }
        }
    }
}

/// Moving the values into the settled balances keeps the table well formed.
pub proof fn lemma_concentrated_wf(t: Seq<BucketModel>)
    requires
        table_wf(t),
    ensures
        table_wf(concentrated_table(t)),
{
    let r = concentrated_table(t);
    assert forall|k: int| 0 <= k < r.len() implies bucket_wf(#[trigger] r[k]) by {
        assert(bucket_wf(t[k]));
        let ps = t[k].single.positions;
        let qs = r[k].single.positions;
        assert forall|i: int| 0 <= i < qs.len() implies (#[trigger] qs[i]).instrument.quote
            == r[k].asset by {
            assert(ps[i].instrument.quote == t[k].asset);
        }
        assert forall|i: int, j: int| 0 <= i < j < qs.len() implies qs[i].key() != qs[j].key() by {
            assert(qs[i].key() == ps[i].key());
            assert(qs[j].key() == ps[j].key());
        }
    }
    assert forall|x: int, y: int| 0 <= x < y < r.len() implies r[x].asset != r[y].asset by {
        assert(r[x].asset == t[x].asset);
        assert(r[y].asset == t[y].asset);
    }
}

/// Moving the values into the settled balances a second time changes
/// nothing.
pub proof fn lemma_concentrate_idempotent(t: Seq<BucketModel>)
    ensures
        concentrated_table(concentrated_table(t)) == concentrated_table(t),
{
    let once = concentrated_table(t);
    let twice = concentrated_table(once);
    assert forall|k: int| 0 <= k < once.len() implies twice[k] == once[k] by {
        let ps = once[k].single.positions;
        lemma_sum_of_values_zero(ps);
        assert(twice[k].single.positions =~= ps);
    }
    assert(twice =~= once);
}

/// Positions without value have values that sum to zero.
pub proof fn lemma_sum_of_values_zero(ps: Seq<PositionModel>)
    requires
        forall|i: int| 0 <= i < ps.len() ==> (#[trigger] ps[i]).holding.value == 0real,
    ensures
        sum_of_values(ps) == 0real,
    decreases ps.len(),
{
    if ps.len() > 0 {
        assert forall|i: int| 0 <= i < ps.drop_last().len() implies (#[trigger] ps.drop_last()[i]).holding.value
            == 0real by {
            assert(ps.drop_last()[i] == ps[i]);
        }
        lemma_sum_of_values_zero(ps.drop_last());
    }
}

} // verus!
