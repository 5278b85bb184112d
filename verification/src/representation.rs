//! The direction in which prices are quoted, as a marker type.

use vstd::prelude::*;

verus! {

/// Price representation.
pub trait Representation: Sized {
    /// Whether prices are quoted in reversed form.
    spec fn reversed() -> bool;

    /// Is price representation reversed.
    fn is_reversed() -> (b: bool)
        ensures
            b == Self::reversed(),
    ;
}

/// Normal price representation.
#[derive(Debug, Clone, Copy, Default, PartialEq, Eq, PartialOrd, Ord, Hash)]
pub struct Normal;

/// Reversed price representation.
#[derive(Debug, Clone, Copy, Default, PartialEq, Eq, PartialOrd, Ord, Hash)]
pub struct Reversed;

impl Representation for Normal {
    open spec fn reversed() -> bool {
        false
    }

    fn is_reversed() -> (b: bool) {
        false
    }
}

impl Representation for Reversed {
    open spec fn reversed() -> bool {
        true
    }

    fn is_reversed() -> (b: bool) {
        true
    }
}

} // verus!
