//! Core of a price-time-priority central limit order book: a matcher that
//! crosses an incoming order against a book of resting orders, emits fill and
//! out events to a bounded queue, and rests any remainder, with fixed-point
//! (Q32.32) price arithmetic throughout.

pub mod codec;
pub mod consume_events;
pub mod critbit;
pub mod error;
pub mod laws;
pub mod event_queue;
pub mod new_order;
pub mod orderbook;
pub mod state;
pub mod utils;
