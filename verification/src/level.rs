//! One price level: the resting orders of one side at one price.

use crate::order::{Order, OrderView};
use crate::prefix::lemma_leading_stops;
use crate::queue::{
    arrived_before, ascending, executed_notional, executed_qty, fill_at, has_entry_seq,
    lemma_match_conserves_qty, lemma_notional_stops, lemma_qty_ahead_monotone,
    lemma_reached_count, lemma_used_up_count, leading_ids, matched_ids, notional_ahead, qty_ahead,
    queue_after_match, queue_with, total_qty, used_up,
};
use crate::result::{average_price, ids_view, MatchingResult, MatchingResultView};
use crate::types::OrderSide;
use std::cmp::Ordering;
use vstd::prelude::*;

verus! {

/// The resting orders of one side at one price, earliest arrival first.
#[derive(Debug)]
pub struct Level {
    orders: Vec<Order>,
    price: u64,
    side: OrderSide,
}

/// The mathematical value of a [`Level`].
pub struct LevelView {
    pub price: nat,
    pub side: OrderSide,
    pub orders: Seq<OrderView>,
}

/// The views of a list of orders.
pub open spec fn orders_view(orders: Seq<Order>) -> Seq<OrderView> {
    orders.map_values(|o: Order| o@)
}

/// On `side`, a level priced `a` has priority over one priced `b`: the
/// higher bid, the lower ask.
pub open spec fn precedes(side: OrderSide, a: nat, b: nat) -> bool {
    match side {
        OrderSide::Buy => a > b,
        OrderSide::Sell => a < b,
    }
}

/// How a level of `side` priced `a` stands to one priced `b`: `Less` when
/// it has priority, `Equal` at one price.
pub open spec fn priority_order(side: OrderSide, a: nat, b: nat) -> Ordering {
    if precedes(side, a, b) {
        Ordering::Less
    } else if a == b {
        Ordering::Equal
    } else {
        Ordering::Greater
    }
}

/// What matching an incoming quantity `n` against the queue `q` reports.
pub open spec fn match_outcome(q: Seq<OrderView>, n: nat) -> MatchingResultView {
    MatchingResultView {
        matched_order_ids: matched_ids(q, n),
        executed_qty: executed_qty(q, n),
        executed_notional: executed_notional(q, n),
        executed_price: average_price(executed_notional(q, n), executed_qty(q, n)),
    }
}

impl LevelView {
    /// The queue is in strictly ascending arrival order.
    pub open spec fn wf(self) -> bool {
        ascending(self.orders)
    }

    /// Every order of the queue is on the level's side at the level's price.
    pub open spec fn uniform(self) -> bool {
        forall|k: int|
            0 <= k < self.orders.len() ==> (#[trigger] self.orders[k]).price == self.price
                && self.orders[k].side == self.side
    }

    /// The level that holds nothing yet and takes its price and side from `o`.
    pub open spec fn empty_for(o: OrderView) -> LevelView {
        LevelView { price: o.price, side: o.side, orders: Seq::empty() }
    }

    /// The level once `o` has joined its queue.
    pub open spec fn with_order(self, o: OrderView) -> LevelView {
        LevelView { orders: queue_with(self.orders, o), ..self }
    }

    /// The level once an incoming quantity `n` has traded against it.
    pub open spec fn after_match(self, n: nat) -> LevelView {
        LevelView { orders: queue_after_match(self.orders, n), ..self }
    }
}

impl View for Level {
    type V = LevelView;

    closed spec fn view(&self) -> LevelView {
        LevelView { price: self.price as nat, side: self.side, orders: orders_view(self.orders@) }
    }
}

impl Clone for Level {
    fn clone(&self) -> (r: Self)
        ensures
            r@ == self@,
    {
        let orders = self.orders.clone();
        assert(orders_view(orders@) =~= orders_view(self.orders@));
        Level { orders, price: self.price, side: self.side }
    }
}

impl Level {
    /// The level's queue is in strictly ascending arrival order.
    pub open spec fn wf(&self) -> bool {
        self@.wf()
    }

    /// Orders two levels by matching priority, as seen from the side of
    /// `self`: `Less` when `self` has priority over `p_other`, `Equal` when
    /// both stand at one price.
    pub fn compare(&self, p_other: &Self) -> (r: Ordering)
        ensures
            r == priority_order(self@.side, self@.price, p_other@.price),
    {
        match self.side {
            OrderSide::Buy => {
                if p_other.price < self.price {
                    Ordering::Less
                } else if p_other.price == self.price {
                    Ordering::Equal
                } else {
                    Ordering::Greater
                }
            },
            OrderSide::Sell => {
                if self.price < p_other.price {
                    Ordering::Less
                } else if self.price == p_other.price {
                    Ordering::Equal
                } else {
                    Ordering::Greater
                }
            },
        }
    }

    /// Whether `self` has matching priority over `p_other`.
    pub fn has_priority_over(&self, p_other: &Self) -> (r: bool)
        ensures
            r <==> precedes(self@.side, self@.price, p_other@.price),
    {
        match self.compare(p_other) {
            Ordering::Less => true,
            _ => false,
        }
    }

    /// Whether `self` and `p_other` stand at one price.
    pub fn same_price(&self, p_other: &Self) -> (r: bool)
        ensures
            r <==> self@.price == p_other@.price,
    {
        match self.compare(p_other) {
            Ordering::Equal => true,
            _ => false,
        }
    }

    /// An empty level at the price and on the side of `p_order`.
    pub fn from_order(p_order: &Order) -> (r: Level)
        ensures
            r.wf(),
            r@ == LevelView::empty_for(p_order@),
    {
        let r = Level { price: p_order.price(), orders: Vec::new(), side: p_order.side() };
        assert(r@.orders =~= Seq::empty());
        r
    }

    /// A level whose only member is `p_order`.
    pub fn from_first_order(p_order: &Order) -> (r: Level)
        ensures
            r.wf(),
            r@ == LevelView::empty_for(p_order@).with_order(p_order@),
            r@.orders == seq![p_order@],
    {
        let mut new_level = Level::from_order(p_order);
        new_level.add_order(p_order);
        proof {
            let q = Seq::<OrderView>::empty();
            assert(!has_entry_seq(q, p_order@.entry_seq));
        }
        new_level
    }

    /// Puts `p_order` into the queue at the place its arrival number gives
    /// it. If an order with that arrival number is already resting, the
    /// queue stays as it is.
    pub fn add_order(&mut self, p_order: &Order)
        requires
            old(self).wf(),
        ensures
            final(self).wf(),
            final(self)@ == old(self)@.with_order(p_order@),
    {
        let ghost seq = p_order@.entry_seq;
        let ghost q = self@.orders;
        let len = self.orders.len();
        let mut i: usize = 0;
        while i < len && self.orders[i] < *p_order
            invariant
                len == self.orders.len(),
                i <= len,
                self@.orders == q,
                seq == p_order@.entry_seq,
                forall|k: int| 0 <= k < i ==> q[k].entry_seq < seq,
            decreases len - i,
        {
            i += 1;
        }
        proof {
            let p = arrived_before(q, seq);
            lemma_leading_stops(p, 0, i as int, q.len() as int);
        }
        if i < len && self.orders[i] == *p_order {
            assert(has_entry_seq(q, seq));
        } else {
            let resting = p_order.clone();
            self.orders.insert(i, resting);
            proof {
                assert(self@.orders =~= q.insert(i as int, p_order@));
            }
        }
    }

    /// Trades the remaining quantity of `p_order` against the queue, from
    /// the earliest resting order on, until the incoming quantity or the
    /// queue is used up.
    ///
    /// A resting order no larger than what is left of the incoming quantity
    /// trades whole and leaves the queue. A larger one trades what is left,
    /// stays at the front with the rest of its quantity, and ends the match.
    /// `p_order` itself is not changed.
    pub fn match_order(&mut self, p_order: &Order) -> (result: MatchingResult)
        requires
            old(self).wf(),
        ensures
            final(self).wf(),
            final(self)@ == old(self)@.after_match(p_order@.qty),
            result@ == match_outcome(old(self)@.orders, p_order@.qty),
            result@.executed_qty <= p_order@.qty,
            total_qty(final(self)@.orders) + result@.executed_qty == total_qty(old(self)@.orders),
    {
        proof {
            lemma_match_conserves_qty(old(self)@.orders, p_order@.qty);
        }
        let n = p_order.qty();
        let ghost q = self@.orders;
        let len = self.orders.len();
        let mut remaining: u32 = n;
        let mut notional: u128 = 0;
        let mut ids: Vec<String> = Vec::new();
        let mut i: usize = 0;
        while i < len && remaining > 0 && self.orders[i].qty() <= remaining
            invariant
                len == self.orders.len(),
                i <= len,
                self@.orders == q,
                self@ == old(self)@,
                n == p_order@.qty,
                remaining + qty_ahead(q, i as int) == n,
                forall|k: int| 0 <= k < i ==> used_up(q, n as nat, k),
                ids_view(ids@) == leading_ids(q, i as nat),
                notional == notional_ahead(q, n as nat, i as int),
                notional <= u64::MAX * qty_ahead(q, i as int),
            decreases len - i,
        {
            let head = &self.orders[i];
            let head_qty = head.qty();
            let head_price = head.price();
            ids.push(head.id().clone());
            proof {
                let ahead = qty_ahead(q, i as int);
                assert(head_price * head_qty + u64::MAX * ahead <= u64::MAX * (ahead + head_qty))
                    by (nonlinear_arith)
                    requires
                        head_price <= u64::MAX,
                ;
                assert(u64::MAX * (ahead + head_qty) <= u64::MAX * u32::MAX) by (nonlinear_arith)
                    requires
                        ahead + head_qty <= u32::MAX,
                ;
                assert(fill_at(q, n as nat, i as int) == head_qty);
                assert(ids_view(ids@) =~= leading_ids(q, i as nat).push(q[i as int].id));
                assert(ids_view(ids@) =~= leading_ids(q, (i + 1) as nat));
            }
            notional = notional + (head_price as u128) * (head_qty as u128);
            remaining = remaining - head_qty;
            i += 1;
        }
        let ghost whole = i as int;
        assert(whole > 0 ==> used_up(q, n as nat, whole - 1));
        if i < len && remaining > 0 {
            let head = &self.orders[i];
            let head_qty = head.qty();
            let head_price = head.price();
            ids.push(head.id().clone());
            proof {
                let ahead = qty_ahead(q, i as int);
                assert(head_price * remaining + u64::MAX * ahead <= u64::MAX * (ahead + remaining))
                    by (nonlinear_arith)
                    requires
                        head_price <= u64::MAX,
                ;
                assert(u64::MAX * (ahead + remaining) <= u64::MAX * u32::MAX) by (nonlinear_arith)
                    requires
                        ahead + remaining <= u32::MAX,
                ;
                assert(fill_at(q, n as nat, i as int) == remaining);
                assert(ids_view(ids@) =~= leading_ids(q, i as nat).push(q[i as int].id));
                assert(ids_view(ids@) =~= leading_ids(q, (i + 1) as nat));
                lemma_reached_count(q, n as nat, i + 1);
                lemma_notional_stops(q, n as nat, i + 1, len as int);
                lemma_qty_ahead_monotone(q, i + 1, len as int);
            }
            notional = notional + (head_price as u128) * (remaining as u128);
            self.orders[i].set_qty(head_qty - remaining);
            remaining = 0;
        } else {
            proof {
                lemma_reached_count(q, n as nat, i as int);
                if i < len {
                    lemma_notional_stops(q, n as nat, i as int, len as int);
                    lemma_qty_ahead_monotone(q, i as int, len as int);
                }
            }
        }
        proof {
            lemma_used_up_count(q, n as nat, whole);
        }
        let executed: u32 = n - remaining;
        let ghost partial = whole < len && fill_at(q, n as nat, whole) > 0;
        let rest = self.orders.split_off(i);
        self.orders = rest;
        proof {
            let after = queue_after_match(q, n as nat);
            assert forall|j: int| 0 <= j < after.len() implies self@.orders[j] == after[j] by {
                if partial {
                    if j > 0 {
                        lemma_qty_ahead_monotone(q, whole + 1, whole + j);
                    }
                } else {
                    lemma_qty_ahead_monotone(q, whole, whole + j);
                }
            }
            assert(self@.orders =~= after);
        }
        MatchingResult::from_trades(ids, executed, notional)
    }

    /// Whether no order rests at this level.
    pub fn is_empty(&self) -> (r: bool)
        ensures
            r <==> self@.orders.len() == 0,
    {
        self.orders.is_empty()
    }

    /// The number of orders resting at this level.
    pub fn len(&self) -> (r: usize)
        ensures
            r == self@.orders.len(),
    {
        self.orders.len()
    }

    /// The level's price in ticks.
    pub fn price(&self) -> (r: u64)
        ensures
            r == self@.price,
    {
        self.price
    }

    /// The side of the book the level is on.
    pub fn side(&self) -> (r: OrderSide)
        ensures
            r == self@.side,
    {
        self.side
    }

    /// The resting orders, earliest first.
    pub fn orders(&self) -> (r: &Vec<Order>)
        ensures
            orders_view(r@) == self@.orders,
    {
        &self.orders
    }

    /// The resting order at position `i`, counted from the earliest.
    pub fn order_at(&self, i: usize) -> (r: Option<&Order>)
        ensures
            i < self@.orders.len() ==> r is Some && r->0@ == self@.orders[i as int],
            i >= self@.orders.len() ==> r is None,
    {
        if i < self.orders.len() {
            Some(&self.orders[i])
        } else {
            None
        }
    }
}

} // verus!
