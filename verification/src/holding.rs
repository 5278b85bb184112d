//! The mathematical model of a holding: a price, a signed size and a value,
//! with the merge that accounts for realized value exactly.

use vstd::prelude::*;
use crate::num::abs_of;

verus! {

/// A holding as three real numbers: `price` in quote per base, `size` signed
/// (positive is long), and `value`, the amount not folded into the price.
pub struct Holding {
    pub price: real,
    pub size: real,
    pub value: real,
}

/// The identity holding: price one, size zero, value zero.
pub open spec fn identity() -> Holding {
    Holding { price: 1real, size: 0real, value: 0real }
}

/// Whether two sizes point the same way: both long or both short.
pub open spec fn same_direction(x: real, y: real) -> bool {
    (x > 0real && y > 0real) || (x < 0real && y < 0real)
}

/// The merge of an operand `big` with an operand `small` of no larger size.
///
/// A flat `small` only adds its value. A `small` in the direction of `big`
/// moves the price to the size-weighted average and realizes nothing. A
/// `small` against `big` closes part of it (or flips it through zero) and
/// realizes the price difference on the size of `small`, keeping the price
/// of `big`.
pub open spec fn merge_ordered(big: Holding, small: Holding) -> Holding {
    if small.size == 0real {
        Holding { price: big.price, size: big.size, value: big.value + small.value }
    } else if same_direction(big.size, small.size) {
        Holding {
            price: (big.price * big.size + small.price * small.size) / (big.size + small.size),
            size: big.size + small.size,
            value: big.value + small.value,
        }
    } else {
        Holding {
            price: big.price,
            size: big.size + small.size,
            value: big.value + small.value + (small.price - big.price) * (-small.size),
        }
    }
}

/// The merge of two holdings. The operand of larger absolute size leads; on
/// a tie the left operand does.
pub open spec fn merge(a: Holding, b: Holding) -> Holding {
    if abs_of(b.size) <= abs_of(a.size) {
        merge_ordered(a, b)
    } else {
        merge_ordered(b, a)
    }
}

/// The holding with size and value negated, at the same price.
pub open spec fn negated(h: Holding) -> Holding {
    Holding { price: h.price, size: -h.size, value: -h.value }
}

/// The holding with its value folded into its price; a flat holding has
/// nothing to fold into.
pub open spec fn consumed(h: Holding) -> Option<Holding> {
    if h.size == 0real {
        None
    } else {
        Some(Holding { price: h.price - h.value / h.size, size: h.size, value: 0real })
    }
}

/// The holding restated at the nominal price `price`, with the value that
/// the move of the price gives its size.
pub open spec fn converted(h: Holding, price: real) -> Holding {
    Holding { price: price, size: h.size, value: (price - h.price) * h.size }
}

/// The holding that a trade quoted in inverse terms stands for: the inverse
/// price and the negated size. A zero price has no inverse.
pub open spec fn reversed(h: Holding) -> Option<Holding> {
    if h.price == 0real {
        None
    } else {
        Some(Holding { price: 1real / h.price, size: -h.size, value: h.value })
    }
}

/// The value left when the whole size is traded away at `price`.
pub open spec fn closed(h: Holding, price: real) -> real {
    merge(h, negated(Holding { price: price, size: h.size, value: 0real })).value
}

/// Equivalence of holdings: equal sizes, and either equal price and value,
/// or, for a flat pair, equal values, or else equal prices once each value
/// is folded into its price.
pub open spec fn equivalent(a: Holding, b: Holding) -> bool {
    a.size == b.size && ((a.price == b.price && a.value == b.value) || if a.size == 0real {
        a.value == b.value
    } else {
        a.price - a.value / a.size == b.price - b.value / b.size
    })
}

/// What a holding is worth beyond its size at price zero: the value less the
/// cost of the size. Together with the size it decides the equivalence class.
pub open spec fn residual(h: Holding) -> real {
    h.value - h.price * h.size
}

} // verus!
