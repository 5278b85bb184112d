//! The valuation of a table of positions in one asset.

use vstd::prelude::*;
use crate::asset::Asset;
use crate::bucket::{SingleValue, SingleValueModel};
use crate::holding::Holding;
use crate::convert::InvalidReversedPrice;
use crate::instrument::{spot_of, Instrument, InstrumentModel};
use crate::naive_position::NaivePosition;
use crate::num::PositionNum;
use crate::position::{Position, PositionModel};
use crate::prices::Prices;
use crate::symbol::Symbol;
use crate::table::{BucketModel, Positions};
use crate::valuation::{
    both, bucket_instruments, bucket_priced, bucket_worth, closed_sum, cross_position,
    held_instruments, instruments_of, positions_priced, table_priced, table_worth, valuation,
    Valuation,
};

verus! {

/// The instruments as plain values.
pub open spec fn models(v: Seq<Instrument>) -> Seq<InstrumentModel> {
    v.map_values(|i: Instrument| i@)
}

/// The amount that an answer stands for.
pub open spec fn amount<T: PositionNum>(x: Option<T>) -> Option<real> {
    match x {
        Some(v) => Some(v.value()),
        None => None,
    }
}

/// Whether the valuer may give the answer `a` for a position that reads as
/// `m`.
pub open spec fn may_answer<T: PositionNum, F: Fn(&Position<T>) -> Option<T>>(
    eval: F,
    m: PositionModel,
    a: Option<real>,
) -> bool {
    exists|p: Position<T>, x: Option<T>| p@ == m && eval.ensures((&p,), x) && amount(x) == a
}

/// The sum of the answers, or nothing where one of them is nothing.
pub open spec fn sum_answers(answers: Seq<Option<real>>) -> Option<real>
    decreases answers.len(),
{
    if answers.len() == 0 {
        Some(0real)
    } else {
        both(sum_answers(answers.drop_last()), answers.last())
    }
}

/// Whether `total` is what a balance comes to when the valuer gives
/// `answers` for its positions, one each: their sum plus the settled value,
/// or nothing where one answer is nothing.
pub open spec fn single_answered<T: PositionNum, F: Fn(&Position<T>) -> Option<T>>(
    eval: F,
    s: SingleValueModel,
    answers: Seq<Option<real>>,
    total: Option<real>,
) -> bool {
    &&& answers.len() == s.positions.len()
    &&& forall|i: int|
        0 <= i < answers.len() ==> may_answer(eval, s.positions[i], #[trigger] answers[i])
    &&& total == match sum_answers(answers) {
        Some(open) => Some(open + s.value),
        None => None,
    }
}

/// Whether `total` is what the balance comes to for some answers of the
/// valuer.
pub open spec fn single_answerable<T: PositionNum, F: Fn(&Position<T>) -> Option<T>>(
    eval: F,
    s: SingleValueModel,
    total: Option<real>,
) -> bool {
    exists|answers: Seq<Option<real>>| single_answered(eval, s, answers, total)
}

/// Whether `worth` is what the valuer may make of a balance that comes to
/// `total`, carried over by the instrument `by`: its answer for the position
/// of that size at price zero, or nothing for no total.
pub open spec fn carried_over<T: PositionNum, F: Fn(&Position<T>) -> Option<T>>(
    eval: F,
    by: InstrumentModel,
    total: Option<real>,
    worth: Option<real>,
) -> bool {
    match total {
        Some(v) => may_answer(
            eval,
            PositionModel {
                instrument: by,
                holding: Holding { price: 0real, size: v, value: 0real },
            },
            worth,
        ),
        None => worth.is_none(),
    }
}

/// Whether `worth` is what the bucket comes to for some answers of the
/// valuer: what its balance comes to, and for a bucket of another asset than
/// the root that amount carried over by the spot against the root.
pub open spec fn bucket_answerable<T: PositionNum, F: Fn(&Position<T>) -> Option<T>>(
    eval: F,
    b: BucketModel,
    root: Seq<char>,
    worth: Option<real>,
) -> bool {
    exists|total: Option<real>|
        #[trigger] single_answerable(eval, b.single, total) && made_of(eval, b, root, total, worth)
}

/// Whether `worth` is what the valuer may make of a bucket whose balance
/// comes to `total`: the total itself for a bucket of the root asset, and
/// else the total carried over by the spot against the root.
pub open spec fn made_of<T: PositionNum, F: Fn(&Position<T>) -> Option<T>>(
    eval: F,
    b: BucketModel,
    root: Seq<char>,
    total: Option<real>,
    worth: Option<real>,
) -> bool {
    if b.asset == root {
        worth == total
    } else {
        carried_over(eval, spot_of(b.asset, root), total, worth)
    }
}

/// Whether `worths` is what the buckets come to, one each, for some answers
/// of the valuer.
pub open spec fn table_answered<T: PositionNum, F: Fn(&Position<T>) -> Option<T>>(
    eval: F,
    t: Seq<BucketModel>,
    root: Seq<char>,
    worths: Seq<Option<real>>,
) -> bool {
    &&& worths.len() == t.len()
    &&& forall|k: int|
        0 <= k < t.len() ==> bucket_answerable(eval, t[k], root, #[trigger] worths[k])
}

/// The sum of the amounts, or nothing where one of them is nothing.
pub fn sum_options<T: PositionNum>(parts: &Vec<Option<T>>) -> (r: Option<T>)
    ensures
        amount(r) == sum_answers(parts@.map_values(|x: Option<T>| amount(x))),
{
    let ghost all = parts@.map_values(|x: Option<T>| amount(x));
    let mut acc: Option<T> = Some(T::zero());
    let n = parts.len();
    let mut i: usize = 0;
    assert(all.take(0) =~= Seq::empty());
    while i < n
        invariant
            n == parts@.len(),
            i <= n,
            all == parts@.map_values(|x: Option<T>| amount(x)),
            amount(acc) == sum_answers(all.take(i as int)),
        decreases n - i,
    {
        proof {
            let next = all.take(i + 1);
            assert(next.drop_last() =~= all.take(i as int));
            assert(next.last() == amount(parts@[i as int]));
        }
        acc = match (acc, &parts[i]) {
            (Some(a), Some(w)) => Some(a.add(w)),
            _ => None,
        };
        i += 1;
    }
    assert(all.take(n as int) =~= all);
    acc
}

/// Positions Expression: a table of positions read as an amount in one
/// asset.
#[derive(Debug)]
pub struct Expr<'a, T>(&'a Positions<T>);

impl<'a, T: PositionNum> View for Expr<'a, T> {
    type V = Seq<BucketModel>;

    closed spec fn view(&self) -> Seq<BucketModel> {
        self.0@
    }
}

impl<T: PositionNum> SingleValue<T> {
    /// Whether a price is there for every position of the balance.
    pub fn priced(&self, prices: &Prices<T>) -> (b: bool)
        requires
            prices.wf(),
        ensures
            b == positions_priced(self@.positions, prices@),
    {
        let m = self.len();
        let mut i: usize = 0;
        while i < m
            invariant
                m == self@.positions.len(),
                i <= m,
                prices.wf(),
                forall|j: int|
                    0 <= j < i ==> prices@.dom().contains((#[trigger] self@.positions[j]).key()),
            decreases m - i,
        {
            if prices.get(self.at(i).instrument().as_symbol()).is_none() {
                return false;
            }
            i += 1;
        }
        true
    }

    /// What closing every position of the balance at its price leaves in
    /// sum, or nothing where a price is a zero in reversed form.
    pub fn closed(&self, prices: &Prices<T>) -> (r: Option<T>)
        requires
            prices.wf(),
            positions_priced(self@.positions, prices@),
        ensures
            match r {
                Some(v) => closed_sum(self@.positions, prices@) == Some(v.value()),
                None => closed_sum(self@.positions, prices@).is_none(),
            },
    {
        let ghost ps = self@.positions;
        let mut acc: Option<T> = Some(T::zero());
        let m = self.len();
        let mut i: usize = 0;
        assert(ps.take(0) =~= Seq::empty());
        while i < m
            invariant
                m == ps.len(),
                self@.positions == ps,
                i <= m,
                prices.wf(),
                positions_priced(ps, prices@),
                match acc {
                    Some(v) => closed_sum(ps.take(i as int), prices@) == Some(v.value()),
                    None => closed_sum(ps.take(i as int), prices@).is_none(),
                },
            decreases m - i,
        {
            proof {
                let next = ps.take(i + 1);
                assert(next.drop_last() =~= ps.take(i as int));
                assert(next.last() == ps[i as int]);
                assert(prices@.dom().contains(ps[i as int].key()));
            }
            let p = self.at(i);
            let at = prices.get(p.instrument().as_symbol());
            let worth = match at {
                Some(price) => match p.closed(price) {
                    Ok(v) => Some(v),
                    Err(_) => None,
                },
                None => None,
            };
            acc = match (acc, worth) {
                (Some(a), Some(w)) => Some(a.add(&w)),
                _ => None,
            };
            i += 1;
        }
        assert(ps.take(m as int) =~= ps);
        acc
    }
}

impl<'a, T: PositionNum> Expr<'a, T> {
    /// The expression of a table.
    pub fn new(positions: &'a Positions<T>) -> (r: Self)
        ensures
            r@ == positions@,
    {
        Expr(positions)
    }

    /// The table.
    pub fn positions(&self) -> (r: &'a Positions<T>)
        ensures
            r@ == self@,
    {
        self.0
    }

    /// The instruments whose prices the valuation in `root` needs: every
    /// instrument held and, for each bucket of another asset, the spot of
    /// that asset against `root`.
    pub fn instruments(&self, root: &Asset) -> (r: Vec<Instrument>)
        ensures
            models(r@) == instruments_of(self@, root@),
    {
        let mut out: Vec<Instrument> = Vec::new();
        let n = self.0.len();
        let mut k: usize = 0;
        assert(self@.take(0) =~= Seq::<BucketModel>::empty());
        assert(models(out@) =~= instruments_of(self@.take(0), root@));
        while k < n
            invariant
                n == self@.len(),
                k <= n,
                models(out@) == instruments_of(self@.take(k as int), root@),
            decreases n - k,
        {
            let single = self.0.single_at(k);
            let asset = self.0.asset_at(k);
            let ghost start = out@;
            let ghost ps = self@[k as int].single.positions;
            let m = single.len();
            let mut i: usize = 0;
            while i < m
                invariant
                    m == ps.len(),
                    single@.positions == ps,
                    i <= m,
                    models(out@) == models(start) + held_instruments(ps.take(i as int)),
                decreases m - i,
            {
                let ghost before = out@;
                out.push(single.at(i).instrument().clone());
                assert(models(out@) =~= models(before).push(ps[i as int].instrument));
                assert(held_instruments(ps.take(i + 1)) =~= held_instruments(
                    ps.take(i as int),
                ).push(ps[i as int].instrument));
                i += 1;
            }
            assert(ps.take(m as int) =~= ps);
            if !(*asset == *root) {
                let ghost before = out@;
                out.push(Instrument::spot(asset, root));
                assert(models(out@) =~= models(before).push(spot_of(asset@, root@)));
            }
            proof {
                let next = self@.take(k + 1);
                assert(next.drop_last() =~= self@.take(k as int));
                assert(next.last() == self@[k as int]);
                assert(models(out@) =~= models(start) + bucket_instruments(
                    self@[k as int],
                    root@,
                ));
            }
            k += 1;
        }
        assert(self@.take(n as int) =~= self@);
        out
    }

    /// The spot position that carries an amount in `asset` over to `root`:
    /// bought at price zero, so that closing it leaves the amount times the
    /// price.
    pub fn cross(asset: &Asset, root: &Asset, total: T) -> (r: Position<T>)
        ensures
            r@ == cross_position(asset@, root@, total.value()),
    {
        Position::with_naive(
            Instrument::spot(asset, root),
            NaivePosition::new(T::zero(), total, T::zero()),
        )
    }

    /// Whether a price is there for every instrument that the valuation in
    /// `root` needs.
    pub fn priced(&self, root: &Asset, prices: &Prices<T>) -> (b: bool)
        requires
            prices.wf(),
        ensures
            b == table_priced(self@, root@, prices@),
    {
        let n = self.0.len();
        let mut k: usize = 0;
        while k < n
            invariant
                n == self@.len(),
                k <= n,
                prices.wf(),
                forall|j: int| 0 <= j < k ==> bucket_priced(#[trigger] self@[j], root@, prices@),
            decreases n - k,
        {
            let asset = self.0.asset_at(k);
            if !self.0.single_at(k).priced(prices) {
                assert(!bucket_priced(self@[k as int], root@, prices@));
                return false;
            }
            if !(*asset == *root) {
                let cross = Symbol::spot(asset, root);
                if prices.get(&cross).is_none() {
                    assert(!bucket_priced(self@[k as int], root@, prices@));
                    return false;
                }
            }
            k += 1;
        }
        true
    }

    /// What one bucket is worth in `root`.
    fn bucket_worth(asset: &Asset, single: &SingleValue<T>, root: &Asset, prices: &Prices<T>) -> (r:
        Option<T>)
        requires
            prices.wf(),
            bucket_priced(BucketModel { asset: asset@, single: single@ }, root@, prices@),
        ensures
            match r {
                Some(v) => bucket_worth(
                    BucketModel { asset: asset@, single: single@ },
                    root@,
                    prices@,
                ) == Some(v.value()),
                None => bucket_worth(
                    BucketModel { asset: asset@, single: single@ },
                    root@,
                    prices@,
                ).is_none(),
            },
    {
        match single.closed(prices) {
            Some(open) => {
                let total = open.add(single.value());
                if *asset == *root {
                    Some(total)
                } else {
                    let cross = Self::cross(asset, root, total);
                    match prices.get(cross.instrument().as_symbol()) {
                        Some(price) => match cross.closed(price) {
                            Ok(v) => Some(v),
                            Err(_) => None,
                        },
                        None => None,
                    }
                }
            },
            None => None,
        }
    }

    /// Evaluates the table in `root` at the given prices: every position
    /// closed at its price plus every settled value, each bucket of another
    /// asset carried over at the price of the spot against `root`. The
    /// result is all or nothing: where a price is missing there is no
    /// amount. A zero price in reversed form is refused when no price is
    /// missing.
    pub fn eval(&self, root: &Asset, prices: &Prices<T>) -> (r: Result<
        Option<T>,
        InvalidReversedPrice,
    >)
        requires
            prices.wf(),
        ensures
            match valuation(self@, root@, prices@) {
                Valuation::Missing => r is Ok && r->Ok_0 is None,
                Valuation::Invalid => r is Err,
                Valuation::Worth(v) => r is Ok && r->Ok_0 is Some && r->Ok_0->Some_0.value() == v,
            },
    {
        if !self.priced(root, prices) {
            return Ok(None);
        }
        let mut acc: Option<T> = Some(T::zero());
        let n = self.0.len();
        let mut k: usize = 0;
        assert(self@.take(0) =~= Seq::<BucketModel>::empty());
        while k < n
            invariant
                n == self@.len(),
                k <= n,
                prices.wf(),
                table_priced(self@, root@, prices@),
                match acc {
                    Some(v) => table_worth(self@.take(k as int), root@, prices@) == Some(
                        v.value(),
                    ),
                    None => table_worth(self@.take(k as int), root@, prices@).is_none(),
                },
            decreases n - k,
        {
            proof {
                let next = self@.take(k + 1);
                assert(next.drop_last() =~= self@.take(k as int));
                assert(next.last() == self@[k as int]);
                assert(bucket_priced(self@[k as int], root@, prices@));
            }
            let worth = Self::bucket_worth(self.0.asset_at(k), self.0.single_at(k), root, prices);
            acc = match (acc, worth) {
                (Some(a), Some(w)) => Some(a.add(&w)),
                _ => None,
            };
            k += 1;
        }
        assert(self@.take(n as int) =~= self@);
        match acc {
            Some(v) => Ok(Some(v)),
            None => Err(InvalidReversedPrice),
        }
    }
}

impl<T: PositionNum> SingleValue<T> {
    /// What the balance comes to when the valuer is asked once for each
    /// position: the sum of its answers plus the settled value, or nothing
    /// where it had no answer for a position.
    pub fn total_with<F: Fn(&Position<T>) -> Option<T>>(&self, eval: &F) -> (r: Option<T>)
        requires
            forall|p: &Position<T>| eval.requires((p,)),
        ensures
            single_answerable(*eval, self@, amount(r)),
    {
        let mut given: Vec<Option<T>> = Vec::new();
        let m = self.len();
        let mut i: usize = 0;
        while i < m
            invariant
                m == self@.positions.len(),
                i <= m,
                given@.len() == i,
                forall|p: &Position<T>| eval.requires((p,)),
                forall|j: int|
                    0 <= j < i ==> may_answer(
                        *eval,
                        self@.positions[j],
                        amount(#[trigger] given@[j]),
                    ),
            decreases m - i,
        {
            let p = self.at(i);
            let x = eval(p);
            proof {
                assert(eval.ensures((p,), x));
                assert(may_answer(*eval, self@.positions[i as int], amount(x)));
            }
            given.push(x);
            i += 1;
        }
        let ghost answers = given@.map_values(|x: Option<T>| amount(x));
        let r = match sum_options(&given) {
            Some(open) => Some(open.add(self.value())),
            None => None,
        };
        assert(single_answered(*eval, self@, answers, amount(r)));
        r
    }
}

/// Carries what a balance comes to over by an instrument: asks the valuer
/// for the position of that size at price zero. Nothing is asked, and
/// nothing comes of it, where the balance came to nothing.
pub fn carry_over<T: PositionNum, F: Fn(&Position<T>) -> Option<T>>(
    by: Instrument,
    total: Option<T>,
    eval: &F,
) -> (r: Option<T>)
    requires
        forall|p: &Position<T>| eval.requires((p,)),
    ensures
        carried_over(*eval, by@, amount(total), amount(r)),
{
    match total {
        Some(size) => {
            let cross = Position::with_naive(by, NaivePosition::new(T::zero(), size, T::zero()));
            let x = eval(&cross);
            proof {
                assert(eval.ensures((&cross,), x));
                assert(may_answer(*eval, cross@, amount(x)));
            }
            x
        },
        None => None,
    }
}

impl<'a, T: PositionNum> Expr<'a, T> {
    /// What one bucket comes to when the valuer is asked for each of its
    /// positions.
    fn bucket_with<F: Fn(&Position<T>) -> Option<T>>(
        asset: &Asset,
        single: &SingleValue<T>,
        root: &Asset,
        eval: &F,
    ) -> (r: Option<T>)
        requires
            forall|p: &Position<T>| eval.requires((p,)),
        ensures
            bucket_answerable(
                *eval,
                BucketModel { asset: asset@, single: single@ },
                root@,
                amount(r),
            ),
    {
        let total = single.total_with(eval);
        let ghost came_to = amount(total);
        let r = if *asset == *root {
            total
        } else {
            carry_over(Instrument::spot(asset, root), total, eval)
        };
        proof {
            let b = BucketModel { asset: asset@, single: single@ };
            assert(made_of(*eval, b, root@, came_to, amount(r)));
            assert(single_answerable(*eval, b.single, came_to));
            assert(bucket_answerable(*eval, b, root@, amount(r)));
        }
        r
    }

    /// Evaluates the table in `root` with a valuer in place of prices. The
    /// valuer is asked once for each position, and for each bucket of
    /// another asset than `root` once more, for the spot position that
    /// carries the bucket's amount over to `root`. The result is the sum of
    /// what the buckets come to, or nothing where the valuer had no answer.
    pub fn eval_with<F: Fn(&Position<T>) -> Option<T>>(&self, root: &Asset, eval: F) -> (r:
        Option<T>)
        requires
            forall|p: &Position<T>| eval.requires((p,)),
        ensures
            exists|worths: Seq<Option<real>>|
                table_answered(eval, self@, root@, worths) && amount(r) == sum_answers(worths),
            self@.len() == 0 ==> amount(r) == Some(0real),
    {
        let mut parts: Vec<Option<T>> = Vec::new();
        let n = self.0.len();
        let mut k: usize = 0;
        while k < n
            invariant
                n == self@.len(),
                k <= n,
                parts@.len() == k,
                forall|p: &Position<T>| eval.requires((p,)),
                forall|j: int|
                    0 <= j < k ==> bucket_answerable(
                        eval,
                        self@[j],
                        root@,
                        amount(#[trigger] parts@[j]),
                    ),
            decreases n - k,
        {
            let worth = Self::bucket_with(self.0.asset_at(k), self.0.single_at(k), root, &eval);
            parts.push(worth);
            k += 1;
        }
        let ghost worths = parts@.map_values(|x: Option<T>| amount(x));
        let r = sum_options(&parts);
        proof {
            assert forall|j: int| 0 <= j < self@.len() implies bucket_answerable(
                eval,
                self@[j],
                root@,
                #[trigger] worths[j],
            ) by {
                assert(worths[j] == amount(parts@[j]));
            }
            assert(table_answered(eval, self@, root@, worths));
        }
        r
    }
}

impl<T: PositionNum> Positions<T> {
    /// The table as an expression to evaluate.
    pub fn as_expr(&self) -> (r: Expr<'_, T>)
        ensures
            r@ == self@,
    {
        Expr::new(self)
    }
}

} // verus!
