//! Why a pass over the event log is abandoned.

use vstd::prelude::*;

verus! {

/// A fault that aborts the whole pass: nothing of it is kept, and the next
/// pass meets the same events again.
#[derive(Clone, Copy, Debug, PartialEq, Eq, Structural)]
pub enum AggregationError {
    /// An event whose position has to be encoded carries a transaction
    /// version with a fractional part.
    TxnVersionNotInteger,
    /// An event whose position has to be encoded carries an event index with
    /// a fractional part.
    EventIdxNotInteger,
    /// A swap was placed on a market that no registration describes.
    MissingMarketRegistration,
    /// A swap was placed on a market registered with a lot size of zero.
    ZeroLotSize,
    /// A swap's size in lots cannot be held at a scale this library accepts.
    SizeOutOfRange,
    /// A placement repeats the market and order number of an earlier one.
    DuplicateOrder,
    /// A size change names an order that was never placed.
    UnknownOrder,
    /// An event's position is already in the ledger.
    LedgerCollision,
}

/// What the read interface answers with when a request fails. The two
/// faults that come from below carry the message of their cause.
#[derive(Debug)]
pub enum ApiError {
    NotFound,
    SqlxError(String),
    TypeError(String),
}

/// The status code that answers a fault: 404 where nothing was found, 500
/// for a fault of the server's own.
pub open spec fn status_of(error: ApiError) -> u16 {
    match error {
        ApiError::NotFound => 404,
        ApiError::SqlxError(_) => 500,
        ApiError::TypeError(_) => 500,
    }
}

/// The text that answers a fault.
pub open spec fn message_of(error: ApiError) -> Seq<char> {
    match error {
        ApiError::NotFound => "404 Not Found"@,
        ApiError::SqlxError(cause) => cause@,
        ApiError::TypeError(cause) => cause@,
    }
}

impl ApiError {
    /// The status code that answers this fault.
    pub fn status_code(&self) -> (r: u16)
        ensures
            r == status_of(*self),
    {
        match self {
            ApiError::NotFound => 404,
            ApiError::SqlxError(_) => 500,
            ApiError::TypeError(_) => 500,
        }
    }

    /// The text that answers this fault.
    pub fn message(&self) -> (r: String)
        ensures
            r@ == message_of(*self),
    {
        match self {
            ApiError::NotFound => "404 Not Found".to_owned(),
            ApiError::SqlxError(cause) => cause.clone(),
            ApiError::TypeError(cause) => cause.clone(),
        }
    }

    /// The answer to a failed request: the status code and the text.
    pub fn into_response(self) -> (r: (u16, String))
        ensures
            r.0 == status_of(self),
            r.1@ == message_of(self),
    {
        let text = self.message();
        (self.status_code(), text)
    }
}

} // verus!
