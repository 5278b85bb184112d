//! Laws of the holding algebra.

use vstd::prelude::*;
use crate::holding::{
    closed, converted, equivalent, merge, merge_ordered, residual, same_direction, Holding,
};
use crate::num::abs_of;
use crate::position::PositionModel;

verus! {

/// A quotient times its nonzero divisor gives the dividend back.
pub proof fn lemma_div_mul_cancel(x: real, d: real)
    requires
        d != 0real,
    ensures
        (x / d) * d == x,
{
    assert((x / d) * d == x) by (nonlinear_arith)
        requires
            d != 0real,
    ;
}

/// Two holdings are equivalent exactly when they agree in size and in
/// residual.
pub proof fn lemma_equivalent_by_residual(a: Holding, b: Holding)
    ensures
        equivalent(a, b) <==> (a.size == b.size && residual(a) == residual(b)),
{
    if a.size == b.size {
        let s = a.size;
        if s != 0real {
            lemma_div_mul_cancel(a.value, s);
            lemma_div_mul_cancel(b.value, s);
            let qa = a.value / s;
            let qb = b.value / s;
            assert((a.price - qa == b.price - qb) <==> (a.value - a.price * s == b.value - b.price
                * s)) by (nonlinear_arith)
                requires
                    qa * s == a.value,
                    qb * s == b.value,
                    s != 0real,
            ;
        } else {
            assert(a.price * s == 0real) by (nonlinear_arith)
                requires
                    s == 0real,
            ;
            assert(b.price * s == 0real) by (nonlinear_arith)
                requires
                    s == 0real,
            ;
        }
    }
}

/// Merging adds sizes and adds residuals, whichever operand leads.
pub proof fn lemma_merge_ordered_adds(big: Holding, small: Holding)
    ensures
        merge_ordered(big, small).size == big.size + small.size,
        residual(merge_ordered(big, small)) == residual(big) + residual(small),
{
    let m = merge_ordered(big, small);
    if small.size == 0real {
        assert(small.price * small.size == 0real) by (nonlinear_arith)
            requires
                small.size == 0real,
        ;
    } else if same_direction(big.size, small.size) {
        let total = big.size + small.size;
        let cost = big.price * big.size + small.price * small.size;
        lemma_div_mul_cancel(cost, total);
    } else {
        assert(residual(m) == residual(big) + residual(small)) by (nonlinear_arith)
            requires
                m.price == big.price,
                m.size == big.size + small.size,
                m.value == big.value + small.value + (small.price - big.price) * (-small.size),
        ;
    }
}

/// Merging adds sizes and adds residuals.
pub proof fn lemma_merge_adds(a: Holding, b: Holding)
    ensures
        merge(a, b).size == a.size + b.size,
        residual(merge(a, b)) == residual(a) + residual(b),
{
    if abs_of(b.size) <= abs_of(a.size) {
        lemma_merge_ordered_adds(a, b);
    } else {
        lemma_merge_ordered_adds(b, a);
    }
}

/// Equivalence is reflexive, symmetric and transitive.
pub proof fn lemma_equivalent_is_equivalence(a: Holding, b: Holding, c: Holding)
    ensures
        equivalent(a, a),
        equivalent(a, b) ==> equivalent(b, a),
        equivalent(a, b) && equivalent(b, c) ==> equivalent(a, c),
{
    lemma_equivalent_by_residual(a, a);
    lemma_equivalent_by_residual(a, b);
    lemma_equivalent_by_residual(b, a);
    lemma_equivalent_by_residual(b, c);
    lemma_equivalent_by_residual(a, c);
}

/// Merge is commutative up to equivalence: `a + b` and `b + a` are
/// equivalent holdings.
pub proof fn lemma_merge_commutative(a: Holding, b: Holding)
    ensures
        equivalent(merge(a, b), merge(b, a)),
{
    lemma_merge_adds(a, b);
    lemma_merge_adds(b, a);
    lemma_equivalent_by_residual(merge(a, b), merge(b, a));
}

/// Merge is associative up to equivalence: `(a + b) + c` and `a + (b + c)`
/// are equivalent holdings.
pub proof fn lemma_merge_associative(a: Holding, b: Holding, c: Holding)
    ensures
        equivalent(merge(merge(a, b), c), merge(a, merge(b, c))),
{
    lemma_merge_adds(a, b);
    lemma_merge_adds(merge(a, b), c);
    lemma_merge_adds(b, c);
    lemma_merge_adds(a, merge(b, c));
    lemma_equivalent_by_residual(merge(merge(a, b), c), merge(a, merge(b, c)));
}

/// Merge respects equivalence: equivalent operands give equivalent results.
pub proof fn lemma_merge_respects_equivalence(a: Holding, a2: Holding, b: Holding, b2: Holding)
    requires
        equivalent(a, a2),
        equivalent(b, b2),
    ensures
        equivalent(merge(a, b), merge(a2, b2)),
{
    lemma_equivalent_by_residual(a, a2);
    lemma_equivalent_by_residual(b, b2);
    lemma_merge_adds(a, b);
    lemma_merge_adds(a2, b2);
    lemma_equivalent_by_residual(merge(a, b), merge(a2, b2));
}

/// Closing a holding at `price` leaves its residual plus its size at that
/// price.
pub proof fn lemma_closed_value(h: Holding, price: real)
    ensures
        closed(h, price) == h.value + (price - h.price) * h.size,
{
    if h.size == 0real {
        assert((price - h.price) * h.size == 0real) by (nonlinear_arith)
            requires
                h.size == 0real,
        ;
    } else {
        assert((price - h.price) * (-(-h.size)) == (price - h.price) * h.size)
            by (nonlinear_arith);
    }
}

/// Restating a holding without value at another price does not change what
/// closing it realizes: for a holding `h` with no value, a target `x` and a
/// closing price `y`, `h.converted(x).closed(y) == h.closed(y)`.
pub proof fn lemma_converted_then_closed(h: Holding, x: real, y: real)
    requires
        h.value == 0real,
    ensures
        closed(converted(h, x), y) == closed(h, y),
{
    lemma_closed_value(h, y);
    lemma_closed_value(converted(h, x), y);
    assert((x - h.price) * h.size + (y - x) * h.size == (y - h.price) * h.size)
        by (nonlinear_arith);
}

/// Restating at another price keeps a holding without value in its
/// equivalence class.
pub proof fn lemma_converted_equivalent(h: Holding, x: real)
    requires
        h.value == 0real,
    ensures
        equivalent(converted(h, x), h),
{
    lemma_equivalent_by_residual(converted(h, x), h);
    assert((x - h.price) * h.size - x * h.size == 0real - h.price * h.size) by (nonlinear_arith);
}

/// Restating a position without value at another quoted price does not
/// change what closing it realizes: for a position `p` with no value, a
/// target `x` and a closing price `y`, both read as the instrument prefers
/// and `x` with a canonical price, `p.converted(x).closed(y) == p.closed(y)`.
pub proof fn lemma_position_converted_then_closed(p: PositionModel, x: real, y: real)
    requires
        p.holding.value == 0real,
        p.canonical_price(x).is_some(),
    ensures
        p.converted(x).is_some(),
        p.converted(x).unwrap().closed(y) == p.closed(y),
{
    if p.canonical_price(y).is_some() {
        lemma_converted_then_closed(
            p.holding,
            p.canonical_price(x).unwrap(),
            p.canonical_price(y).unwrap(),
        );
    }
}

} // verus!
