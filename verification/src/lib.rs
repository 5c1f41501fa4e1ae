//! An in-memory continuous matching engine for a single venue.
//!
//! Incoming orders are routed by instrument symbol to an order book, matched
//! against one resting price level under price-time priority, and any
//! unfilled remainder is rested on the book.

pub mod book;
pub mod engine;
pub mod level;
pub mod order;
pub mod prefix;
pub mod priority;
pub mod queue;
pub mod result;
pub mod theorems;
pub mod types;

pub use book::{BookView, OrderBook};
pub use engine::{process_event, MatchingEngine};
pub use level::{Level, LevelView};
pub use order::{Order, OrderView};
pub use result::{MatchingResult, MatchingResultView};
pub use types::{EventType, OrderSide, OrderType};
