//! Plain value types shared by every layer of the engine.

use vstd::prelude::*;

verus! {

/// The side of the market an order trades on.
#[derive(Clone, Copy, Debug, PartialEq, Eq, Structural)]
pub enum OrderSide {
    Buy,
    Sell,
}

/// How an order is priced.
#[derive(Clone, Copy, Debug)]
pub enum OrderType {
    Mkt,
    Limit,
}

/// The kind of request carried by an incoming event.
#[derive(Clone, Copy, Debug)]
pub enum EventType {
    New,
    Rpl,
    Cxl,
}

impl OrderSide {
    /// The side an order of this side trades against.
    pub open spec fn spec_opposite(self) -> OrderSide {
        match self {
            OrderSide::Buy => OrderSide::Sell,
            OrderSide::Sell => OrderSide::Buy,
        }
    }

    /// The side an order of this side trades against.
    #[verifier::when_used_as_spec(spec_opposite)]
    pub fn opposite(self) -> (r: OrderSide)
        ensures
            r == self.spec_opposite(),
    {
        match self {
            OrderSide::Buy => OrderSide::Sell,
            OrderSide::Sell => OrderSide::Buy,
        }
    }
}

} // verus!
