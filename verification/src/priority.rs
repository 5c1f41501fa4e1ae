//! How orders, levels and results compare.
//!
//! Orders compare by arrival alone, levels by matching priority, results by
//! the quantity they traded. Equal under these comparisons does not mean
//! the same in every field.

use crate::level::{priority_order, Level};
use crate::order::Order;
use crate::result::MatchingResult;
use std::cmp::Ordering;
use vstd::prelude::*;
use vstd::std_specs::cmp::{PartialEqSpecImpl, PartialOrdSpecImpl};

verus! {

/// The order of two numbers.
pub open spec fn number_order(a: nat, b: nat) -> Ordering {
    if a < b {
        Ordering::Less
    } else if a == b {
        Ordering::Equal
    } else {
        Ordering::Greater
    }
}

impl PartialEq for Order {
    /// Two orders are equal when they arrived at the same moment.
    fn eq(&self, other: &Self) -> (r: bool) {
        self.entry_seq() == other.entry_seq()
    }
}

impl PartialEqSpecImpl for Order {
    open spec fn obeys_eq_spec() -> bool {
        true
    }

    open spec fn eq_spec(&self, other: &Self) -> bool {
        self@.entry_seq == other@.entry_seq
    }
}

impl PartialOrd for Order {
    /// The order that arrived earlier is the lesser one.
    fn partial_cmp(&self, other: &Self) -> (r: Option<Ordering>) {
        let mine = self.entry_seq();
        let theirs = other.entry_seq();
        if mine < theirs {
            Some(Ordering::Less)
        } else if mine == theirs {
            Some(Ordering::Equal)
        } else {
            Some(Ordering::Greater)
        }
    }
}

impl PartialOrdSpecImpl for Order {
    open spec fn obeys_partial_cmp_spec() -> bool {
        true
    }

    open spec fn partial_cmp_spec(&self, other: &Self) -> Option<Ordering> {
        Some(number_order(self@.entry_seq, other@.entry_seq))
    }
}

impl Eq for Order {}

impl PartialEq for Level {
    /// Two levels are equal when they stand at one price.
    fn eq(&self, p_other: &Self) -> (r: bool) {
        self.same_price(p_other)
    }
}

impl PartialEqSpecImpl for Level {
    open spec fn obeys_eq_spec() -> bool {
        true
    }

    open spec fn eq_spec(&self, p_other: &Self) -> bool {
        self@.price == p_other@.price
    }
}

impl PartialOrd for Level {
    /// The level with matching priority is the lesser one, as seen from the
    /// side of `self`.
    fn partial_cmp(&self, p_other: &Self) -> (r: Option<Ordering>) {
        Some(self.compare(p_other))
    }
}

impl PartialOrdSpecImpl for Level {
    open spec fn obeys_partial_cmp_spec() -> bool {
        true
    }

    open spec fn partial_cmp_spec(&self, p_other: &Self) -> Option<Ordering> {
        Some(priority_order(self@.side, self@.price, p_other@.price))
    }
}

impl Eq for Level {}

impl PartialEq for MatchingResult {
    /// Two results are equal when they traded the same quantity.
    fn eq(&self, other: &Self) -> (r: bool) {
        self.executed_qty() == other.executed_qty()
    }
}

impl PartialEqSpecImpl for MatchingResult {
    open spec fn obeys_eq_spec() -> bool {
        true
    }

    open spec fn eq_spec(&self, other: &Self) -> bool {
        self@.executed_qty == other@.executed_qty
    }
}

impl PartialOrd for MatchingResult {
    /// The result that traded less is the lesser one.
    fn partial_cmp(&self, other: &Self) -> (r: Option<Ordering>) {
        let mine = self.executed_qty();
        let theirs = other.executed_qty();
        if mine < theirs {
            Some(Ordering::Less)
        } else if mine == theirs {
            Some(Ordering::Equal)
        } else {
            Some(Ordering::Greater)
        }
    }
}

impl PartialOrdSpecImpl for MatchingResult {
    open spec fn obeys_partial_cmp_spec() -> bool {
        true
    }

    open spec fn partial_cmp_spec(&self, other: &Self) -> Option<Ordering> {
        Some(number_order(self@.executed_qty, other@.executed_qty))
    }
}

impl Eq for MatchingResult {}

} // verus!
