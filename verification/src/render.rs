//! Positions, expressions and trees as text.

use vstd::prelude::*;
use vstd::string::*;
use crate::bucket::{sum_of_values, SingleValue, SingleValueModel};
use crate::expr::Expr;
use crate::table::{BucketModel, Positions};
use crate::tree::{BranchModel, TreeModel};
use crate::num::{abs_of, PositionNum};
use crate::position::{Position, PositionModel};

verus! {

/// The text of a price and a size for an instrument: `(price, size BASE)`,
/// both as shown for the instrument, with `Nan` for a price that is not
/// there and a `*` behind for an instrument that prefers the reversed form.
pub open spec fn position_text<T: PositionNum>(p: PositionModel) -> Seq<char> {
    "("@ + (match p.shown_price() {
        Some(v) => T::text_of(v),
        None => "Nan"@,
    }) + ", "@ + T::text_of(p.shown_size()) + " "@ + p.instrument.base + ")"@ + (
    if p.instrument.prefer_reversed {
        "*"@
    } else {
        Seq::empty()
    })
}

/// The text of an amount to be added to what stands before: ` + ` or ` - `
/// and the absolute value.
pub open spec fn signed_text<T: PositionNum>(v: real) -> Seq<char> {
    (if v < 0real {
        " - "@
    } else {
        " + "@
    }) + T::text_of(abs_of(v))
}

/// The text of a position: the price and size as shown, and behind them the
/// value in the quote asset where it is not zero.
pub open spec fn position_line<T: PositionNum>(p: PositionModel) -> Seq<char> {
    position_text::<T>(p) + (if p.holding.value != 0real {
        signed_text::<T>(p.holding.value) + " "@ + p.instrument.quote
    } else {
        Seq::empty()
    })
}

impl<T: PositionNum> Position<T> {
    /// The price and size as text: `(price, size BASE)`, with a `*` behind
    /// for an instrument that prefers the reversed form.
    pub fn to_short_text(&self) -> (r: String)
        ensures
            r@ == position_text::<T>(self@),
    {
        let mut out = String::from_str("(");
        match self.price() {
            Some(price) => out.append(price.to_text().as_str()),
            None => out.append("Nan"),
        }
        out.append(", ");
        out.append(self.size().to_text().as_str());
        out.append(" ");
        out.append(self.instrument().base().as_str());
        out.append(")");
        if self.instrument().is_prefer_reversed() {
            out.append("*");
        }
        assert(out@ =~= position_text::<T>(self@));
        out
    }

    /// The amount as text to be added to what stands before.
    pub fn signed(value: &T) -> (r: String)
        ensures
            r@ == signed_text::<T>(value.value()),
    {
        let mut out = if value.is_negative() {
            String::from_str(" - ")
        } else {
            String::from_str(" + ")
        };
        out.append(value.abs().to_text().as_str());
        out
    }

    /// The position as text: the price and size as shown, and behind them
    /// the value in the quote asset where it is not zero.
    pub fn to_text(&self) -> (r: String)
        ensures
            r@ == position_line::<T>(self@),
    {
        let mut out = self.to_short_text();
        if !self.value().is_zero() {
            out.append(Self::signed(self.value()).as_str());
            out.append(" ");
            out.append(self.instrument().quote().as_str());
            assert(out@ =~= position_line::<T>(self@));
        }
        out
    }
}

/// The texts of the positions in a row, with ` + ` before each but the
/// first, and before the first too where `lead` says that something stands
/// before the row.
pub open spec fn joined_positions<T: PositionNum>(ps: Seq<PositionModel>, lead: bool) -> Seq<char>
    decreases ps.len(),
{
    if ps.len() == 0 {
        Seq::empty()
    } else {
        joined_positions::<T>(ps.drop_last(), lead) + (if lead || ps.len() > 1 {
            " + "@
        } else {
            Seq::empty()
        }) + position_text::<T>(ps.last())
    }
}

/// The settled value of a balance plus the values of its positions.
pub open spec fn subtotal(s: SingleValueModel) -> real {
    s.value + sum_of_values(s.positions)
}

/// The text of one bucket of an expression: its positions in a row and its
/// subtotal in its asset. The subtotal stands bare where nothing stands
/// before it, and else behind ` + ` or ` - `.
pub open spec fn expr_bucket_text<T: PositionNum>(b: BucketModel, first: bool) -> Seq<char> {
    joined_positions::<T>(b.single.positions, !first) + (if first && b.single.positions.len()
        == 0 {
        T::text_of(subtotal(b.single))
    } else {
        signed_text::<T>(subtotal(b.single))
    }) + " "@ + b.asset
}

/// The texts of the buckets of an expression, one behind the other.
pub open spec fn expr_buckets_text<T: PositionNum>(t: Seq<BucketModel>) -> Seq<char>
    decreases t.len(),
{
    if t.len() == 0 {
        Seq::empty()
    } else {
        expr_buckets_text::<T>(t.drop_last()) + expr_bucket_text::<T>(t.last(), t.len() == 1)
    }
}

/// The text of an expression: `0` for an empty table, else its buckets.
pub open spec fn expr_text<T: PositionNum>(t: Seq<BucketModel>) -> Seq<char> {
    if t.len() == 0 {
        "0"@
    } else {
        expr_buckets_text::<T>(t)
    }
}

/// The text of the subtotal of a tree node: behind ` + ` or ` - ` where
/// something stands before it, and else bare, with `- ` before a negative
/// one.
pub open spec fn amount_text<T: PositionNum>(v: real, lead: bool) -> Seq<char> {
    if v > 0real && lead {
        " + "@ + T::text_of(v)
    } else if v < 0real && lead {
        " - "@ + T::text_of(abs_of(v))
    } else if v < 0real {
        "- "@ + T::text_of(abs_of(v))
    } else {
        T::text_of(v)
    }
}

/// The text of one node of a tree: its positions in a row and its subtotal
/// in its asset.
pub open spec fn node_text<T: PositionNum>(asset: Seq<char>, single: SingleValueModel, lead: bool) -> Seq<
    char,
> {
    joined_positions::<T>(single.positions, lead) + amount_text::<T>(
        subtotal(single),
        lead || single.positions.len() > 0,
    ) + " "@ + asset
}

/// The texts of the branches of a tree, with ` + ` between them.
pub open spec fn branches_text<T: PositionNum>(children: Seq<BranchModel>) -> Seq<char>
    decreases children.len(),
{
    if children.len() == 0 {
        Seq::empty()
    } else {
        branches_text::<T>(children.drop_last()) + (if children.len() > 1 {
            " + "@
        } else {
            Seq::empty()
        }) + node_text::<T>(children.last().bucket.asset, children.last().bucket.single, false)
    }
}

/// The text of a tree: its branches, then the node of the root.
pub open spec fn tree_text<T: PositionNum>(tree: TreeModel) -> Seq<char> {
    branches_text::<T>(tree.children) + node_text::<T>(
        tree.asset,
        tree.root,
        tree.children.len() > 0,
    )
}

impl<T: PositionNum> SingleValue<T> {
    /// The settled value plus the values of the positions.
    pub fn subtotal(&self) -> (r: T)
        ensures
            r.value() == subtotal(self@),
    {
        let ghost ps = self@.positions;
        let mut total = self.value().duplicate();
        let m = self.len();
        let mut i: usize = 0;
        assert(ps.take(0) =~= Seq::empty());
        while i < m
            invariant
                m == ps.len(),
                ps == self@.positions,
                i <= m,
                total.value() == self@.value + sum_of_values(ps.take(i as int)),
            decreases m - i,
        {
            proof {
                let next = ps.take(i + 1);
                assert(next.drop_last() =~= ps.take(i as int));
                assert(next.last() == ps[i as int]);
            }
            total = total.add(self.at(i).value());
            i += 1;
        }
        assert(ps.take(m as int) =~= ps);
        total
    }

    /// The texts of the positions in a row, with ` + ` before each but the
    /// first, and before the first too where `lead` is set.
    pub fn joined_text(&self, lead: bool) -> (r: String)
        ensures
            r@ == joined_positions::<T>(self@.positions, lead),
    {
        let ghost ps = self@.positions;
        let mut out = String::new();
        let m = self.len();
        let mut i: usize = 0;
        assert(ps.take(0) =~= Seq::empty());
        while i < m
            invariant
                m == ps.len(),
                ps == self@.positions,
                i <= m,
                out@ == joined_positions::<T>(ps.take(i as int), lead),
            decreases m - i,
        {
            proof {
                let next = ps.take(i + 1);
                assert(next.drop_last() =~= ps.take(i as int));
                assert(next.last() == ps[i as int]);
            }
            let ghost before = out@;
            if lead || i != 0 {
                out.append(" + ");
            }
            out.append(self.at(i).to_short_text().as_str());
            assert(out@ =~= before + (if lead || i + 1 > 1 {
                " + "@
            } else {
                Seq::empty()
            }) + position_text::<T>(ps[i as int]));
            i += 1;
        }
        assert(ps.take(m as int) =~= ps);
        out
    }
}

impl<'a, T: PositionNum> Expr<'a, T> {
    /// The text of one bucket: its positions in a row and its subtotal in
    /// its asset.
    fn bucket_text(asset: &str, single: &SingleValue<T>, first: bool) -> (r: String)
        ensures
            r@ == expr_bucket_text::<T>(BucketModel { asset: asset@, single: single@ }, first),
    {
        let mut out = single.joined_text(!first);
        let total = single.subtotal();
        if first && single.is_empty() {
            out.append(total.to_text().as_str());
        } else {
            out.append(Position::<T>::signed(&total).as_str());
        }
        out.append(" ");
        out.append(asset);
        assert(out@ =~= expr_bucket_text::<T>(
            BucketModel { asset: asset@, single: single@ },
            first,
        ));
        out
    }

    /// The expression as text: for each bucket its positions as
    /// `(price, size BASE)`, joined by ` + `, and its subtotal in its asset;
    /// `0` for an empty table.
    pub fn to_text(&self) -> (r: String)
        ensures
            r@ == expr_text::<T>(self@),
    {
        let table = self.positions();
        if table.is_empty() {
            return String::from_str("0");
        }
        let mut out = String::new();
        let n = table.len();
        let mut k: usize = 0;
        assert(self@.take(0) =~= Seq::<BucketModel>::empty());
        while k < n
            invariant
                n == self@.len(),
                table@ == self@,
                k <= n,
                out@ == expr_buckets_text::<T>(self@.take(k as int)),
            decreases n - k,
        {
            proof {
                let next = self@.take(k + 1);
                assert(next.drop_last() =~= self@.take(k as int));
                assert(next.last() == self@[k as int]);
            }
            let text = Self::bucket_text(table.asset_at(k).as_str(), table.single_at(k), k == 0);
            out.append(text.as_str());
            k += 1;
        }
        assert(self@.take(n as int) =~= self@);
        out
    }
}

/// Whether a position has neither size nor value.
pub open spec fn is_flat(p: PositionModel) -> bool {
    p.holding.size == 0real && p.holding.value == 0real
}

/// The lines of the first positions of a list of `count`: one line for each
/// position that has a size or a value, with its symbol, `=>` and its text,
/// marked as the last line where the position is the last of the list.
pub open spec fn listed_positions<T: PositionNum>(ps: Seq<PositionModel>, count: int) -> Seq<char>
    decreases ps.len(),
{
    if ps.len() == 0 {
        Seq::empty()
    } else {
        listed_positions::<T>(ps.drop_last(), count) + (if is_flat(ps.last()) {
            Seq::empty()
        } else {
            (if ps.len() == count {
                "\u{2514} "@
            } else {
                "\u{251c} "@
            }) + ps.last().key() + " => "@ + position_line::<T>(ps.last()) + "\n"@
        })
    }
}

/// The lines of the table: for each bucket a line with its asset, `=>` and
/// its settled value, and under it the lines of its positions.
pub open spec fn table_text<T: PositionNum>(t: Seq<BucketModel>) -> Seq<char>
    decreases t.len(),
{
    if t.len() == 0 {
        Seq::empty()
    } else {
        table_text::<T>(t.drop_last()) + t.last().asset + " => "@ + T::text_of(
            t.last().single.value,
        ) + " "@ + t.last().asset + "\n"@ + listed_positions::<T>(
            t.last().single.positions,
            t.last().single.positions.len() as int,
        )
    }
}

impl<T: PositionNum> SingleValue<T> {
    /// The positions as lines: one for each position that has a size or a
    /// value, with its symbol, `=>` and its text.
    pub fn to_text(&self) -> (r: String)
        ensures
            r@ == listed_positions::<T>(self@.positions, self@.positions.len() as int),
    {
        let ghost ps = self@.positions;
        let mut out = String::new();
        let m = self.len();
        let mut i: usize = 0;
        assert(ps.take(0) =~= Seq::empty());
        while i < m
            invariant
                m == ps.len(),
                ps == self@.positions,
                i <= m,
                out@ == listed_positions::<T>(ps.take(i as int), m as int),
            decreases m - i,
        {
            proof {
                let next = ps.take(i + 1);
                assert(next.drop_last() =~= ps.take(i as int));
                assert(next.last() == ps[i as int]);
            }
            let p = self.at(i);
            if !p.is_zero() {
                let ghost before = out@;
                if i == m - 1 {
                    out.append("\u{2514} ");
                } else {
                    out.append("\u{251c} ");
                }
                out.append(p.instrument().as_symbol().to_text().as_str());
                out.append(" => ");
                out.append(p.to_text().as_str());
                out.append("\n");
                assert(out@ =~= before + ((if i + 1 == m {
                    "\u{2514} "@
                } else {
                    "\u{251c} "@
                }) + ps[i as int].key() + " => "@ + position_line::<T>(ps[i as int]) + "\n"@));
            }
            i += 1;
        }
        assert(ps.take(m as int) =~= ps);
        out
    }
}

impl<T: PositionNum> Positions<T> {
    /// The table as lines: for each bucket a line with its asset, `=>` and
    /// its settled value, and under it the lines of its positions.
    pub fn to_text(&self) -> (r: String)
        ensures
            r@ == table_text::<T>(self@),
    {
        let mut out = String::new();
        let n = self.len();
        let mut k: usize = 0;
        assert(self@.take(0) =~= Seq::<BucketModel>::empty());
        while k < n
            invariant
                n == self@.len(),
                k <= n,
                out@ == table_text::<T>(self@.take(k as int)),
            decreases n - k,
        {
            proof {
                let next = self@.take(k + 1);
                assert(next.drop_last() =~= self@.take(k as int));
                assert(next.last() == self@[k as int]);
            }
            let ghost before = out@;
            let asset = self.asset_at(k);
            let single = self.single_at(k);
            out.append(asset.as_str());
            out.append(" => ");
            out.append(single.value().to_text().as_str());
            out.append(" ");
            out.append(asset.as_str());
            out.append("\n");
            out.append(single.to_text().as_str());
            assert(out@ =~= before + self@[k as int].asset + " => "@ + T::text_of(
                self@[k as int].single.value,
            ) + " "@ + self@[k as int].asset + "\n"@ + listed_positions::<T>(
                self@[k as int].single.positions,
                self@[k as int].single.positions.len() as int,
            ));
            k += 1;
        }
        assert(self@.take(n as int) =~= self@);
        out
    }
}

} // verus!
