//! A single participant's trading intent.

use crate::types::{OrderSide, OrderType};
use vstd::prelude::*;

verus! {

/// One order: who it is, what it wants to trade, and when it arrived.
///
/// Prices are integer ticks. The arrival sequence number orders the resting
/// orders of one price level; it is compared for nothing else. Whoever
/// takes orders in hands these numbers out, ever increasing and each one
/// once: a level holds one order per arrival number and does not take in a
/// second.
#[derive(Debug)]
pub struct Order {
    id: String,
    symbol: String,
    qty: u32,
    price: u64,
    entry_seq: u64,
    side: OrderSide,
    kind: OrderType,
}

/// The mathematical value of an [`Order`].
pub struct OrderView {
    pub id: Seq<char>,
    pub symbol: Seq<char>,
    pub qty: nat,
    pub price: nat,
    pub entry_seq: nat,
    pub side: OrderSide,
    pub kind: OrderType,
}

impl OrderView {
    /// The same order with its remaining quantity replaced.
    pub open spec fn with_qty(self, qty: nat) -> OrderView {
        OrderView { qty, ..self }
    }
}

impl View for Order {
    type V = OrderView;

    closed spec fn view(&self) -> OrderView {
        OrderView {
            id: self.id@,
            symbol: self.symbol@,
            qty: self.qty as nat,
            price: self.price as nat,
            entry_seq: self.entry_seq as nat,
            side: self.side,
            kind: self.kind,
        }
    }
}

impl Clone for Order {
    fn clone(&self) -> (r: Self)
        ensures
            r@ == self@,
    {
        Order {
            id: self.id.clone(),
            symbol: self.symbol.clone(),
            qty: self.qty,
            price: self.price,
            entry_seq: self.entry_seq,
            side: self.side,
            kind: self.kind,
        }
    }
}

impl Order {
    /// Builds an order from its parts.
    pub fn new(
        id: String,
        symbol: String,
        qty: u32,
        price: u64,
        entry_seq: u64,
        side: OrderSide,
        kind: OrderType,
    ) -> (o: Order)
        ensures
            o@ == (OrderView {
                id: id@,
                symbol: symbol@,
                qty: qty as nat,
                price: price as nat,
                entry_seq: entry_seq as nat,
                side,
                kind,
            }),
    {
        Order { id, symbol, qty, price, entry_seq, side, kind }
    }

    /// The order's identifier.
    pub fn id(&self) -> (r: &String)
        ensures
            r@ == self@.id,
    {
        &self.id
    }

    /// The instrument the order trades.
    pub fn symbol(&self) -> (r: &String)
        ensures
            r@ == self@.symbol,
    {
        &self.symbol
    }

    /// The quantity that has not traded yet.
    pub fn qty(&self) -> (r: u32)
        ensures
            r == self@.qty,
    {
        self.qty
    }

    /// The limit price in ticks. A market order carries one too, but it
    /// plays no part in choosing what the order trades against.
    pub fn price(&self) -> (r: u64)
        ensures
            r == self@.price,
    {
        self.price
    }

    /// The arrival sequence number.
    pub fn entry_seq(&self) -> (r: u64)
        ensures
            r == self@.entry_seq,
    {
        self.entry_seq
    }

    /// The side of the market the order is on.
    pub fn side(&self) -> (r: OrderSide)
        ensures
            r == self@.side,
    {
        self.side
    }

    /// Whether the order is a market or a limit order.
    pub fn order_type(&self) -> (r: OrderType)
        ensures
            r == self@.kind,
    {
        self.kind
    }

    /// Replaces the remaining quantity and leaves everything else alone.
    pub fn set_qty(&mut self, qty: u32)
        ensures
            final(self)@ == old(self)@.with_qty(qty as nat),
    {
        self.qty = qty;
    }
}

} // verus!
