//! What a matching attempt reports back.

use vstd::prelude::*;

verus! {

/// The outcome of matching one incoming order against resting orders.
#[derive(Debug)]
pub struct MatchingResult {
    matched_order_ids: Vec<String>,
    executed_qty: u32,
    executed_notional: u128,
    executed_price: Option<u64>,
}

/// The mathematical value of a [`MatchingResult`].
pub struct MatchingResultView {
    /// The resting orders traded with, in the order they traded.
    pub matched_order_ids: Seq<Seq<char>>,
    /// The total quantity traded.
    pub executed_qty: nat,
    /// Price times quantity, summed over the trades.
    pub executed_notional: nat,
    /// The volume-weighted average price, rounded down to a whole tick.
    pub executed_price: Option<nat>,
}

/// The view of a list of identifiers.
pub open spec fn ids_view(ids: Seq<String>) -> Seq<Seq<char>> {
    ids.map_values(|s: String| s@)
}

/// The volume-weighted average price of `qty` units worth `notional` in
/// all, rounded down to a whole tick. There is none when nothing traded.
pub open spec fn average_price(notional: nat, qty: nat) -> Option<nat> {
    if qty == 0 {
        None
    } else {
        Some(notional / qty)
    }
}

impl View for MatchingResult {
    type V = MatchingResultView;

    closed spec fn view(&self) -> MatchingResultView {
        MatchingResultView {
            matched_order_ids: ids_view(self.matched_order_ids@),
            executed_qty: self.executed_qty as nat,
            executed_notional: self.executed_notional as nat,
            executed_price: match self.executed_price {
                Some(p) => Some(p as nat),
                None => None,
            },
        }
    }
}

impl Clone for MatchingResult {
    fn clone(&self) -> (r: Self)
        ensures
            r@ == self@,
    {
        let matched_order_ids = self.matched_order_ids.clone();
        MatchingResult {
            matched_order_ids,
            executed_qty: self.executed_qty,
            executed_notional: self.executed_notional,
            executed_price: self.executed_price,
        }
    }
}

impl Default for MatchingResult {
    /// The result of a match in which nothing traded.
    fn default() -> (r: Self)
        ensures
            r@ == (MatchingResultView {
                matched_order_ids: Seq::empty(),
                executed_qty: 0,
                executed_notional: 0,
                executed_price: None,
            }),
    {
        let r = MatchingResult {
            matched_order_ids: Vec::new(),
            executed_qty: 0,
            executed_notional: 0,
            executed_price: None,
        };
        assert(ids_view(r.matched_order_ids@) =~= Seq::empty());
        r
    }
}

impl MatchingResult {
    /// Puts a result together from the trades of one match and works out
    /// the average price.
    pub(crate) fn from_trades(ids: Vec<String>, executed_qty: u32, executed_notional: u128) -> (r:
        Self)
        requires
            executed_notional <= executed_qty * u64::MAX,
        ensures
            r@ == (MatchingResultView {
                matched_order_ids: ids_view(ids@),
                executed_qty: executed_qty as nat,
                executed_notional: executed_notional as nat,
                executed_price: average_price(executed_notional as nat, executed_qty as nat),
            }),
    {
        let executed_price = if executed_qty == 0 {
            None
        } else {
            let avg: u128 = executed_notional / (executed_qty as u128);
            assert(avg <= u64::MAX) by (nonlinear_arith)
                requires
                    executed_qty > 0,
                    executed_notional <= executed_qty * u64::MAX,
                    avg == executed_notional as int / executed_qty as int,
            ;
            Some(avg as u64)
        };
        MatchingResult { matched_order_ids: ids, executed_qty, executed_notional, executed_price }
    }

    /// The total quantity traded.
    pub fn executed_qty(&self) -> (r: u32)
        ensures
            r == self@.executed_qty,
    {
        self.executed_qty
    }

    /// Price times quantity, summed over the trades.
    pub fn executed_notional(&self) -> (r: u128)
        ensures
            r == self@.executed_notional,
    {
        self.executed_notional
    }

    /// The volume-weighted average price in whole ticks, rounded down, or
    /// `None` when nothing traded.
    pub fn executed_price(&self) -> (r: Option<u64>)
        ensures
            match r {
                Some(price) => self@.executed_price == Some(price as nat),
                None => self@.executed_price is None,
            },
    {
        self.executed_price
    }

    /// The resting orders traded with, in the order they traded.
    pub fn matched_order_ids(&self) -> (r: &Vec<String>)
        ensures
            ids_view(r@) == self@.matched_order_ids,
    {
        &self.matched_order_ids
    }
}

} // verus!
