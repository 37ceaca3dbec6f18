//! The small values that events and history rows are made of.

use vstd::prelude::*;

verus! {

/// An account identifier: 256 bits, compared as a whole and never taken apart.
#[derive(Clone, Copy, Debug, PartialEq, Eq, Structural)]
pub struct Address {
    pub high: u128,
    pub low: u128,
}

/// A point in time: microseconds since the start of 1970, UTC.
#[derive(Clone, Copy, Debug, PartialEq, Eq, Structural)]
pub struct Timestamp {
    pub micros: i64,
}

/// How an order stands.
#[derive(Clone, Copy, Debug, PartialEq, Eq, Structural)]
pub enum OrderStatus {
    Open,
    Closed,
    Cancelled,
}

/// The kind of an order, which is also the table its extension row stands in.
#[derive(Clone, Copy, Debug, PartialEq, Eq, Structural)]
pub enum OrderType {
    Limit,
    Market,
    Swap,
}

/// The side of the book a limit order rests on.
#[derive(Clone, Copy, Debug, PartialEq, Eq, Structural)]
pub enum Side {
    Bid,
    Ask,
}

} // verus!
