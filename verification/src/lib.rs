//! Incremental aggregation of an order-book exchange's event stream into a
//! per-order history view, with an idempotence ledger that makes every event
//! count exactly once.
//!
//! Collectors append raw chain events (placements, fills, changes of size,
//! cancels) to event tables. One pass of the aggregator loads the events that
//! its ledger does not hold yet, folds them into the derived tables in a
//! fixed order, and enters them in the ledger: all of it or nothing.
//!
//! The data:
//! - [`basics`], [`decimal`], [`events`], [`rows`]: the values, the events
//!   and the derived rows.
//! - [`error`]: why a pass is abandoned.
//!
//! What is computed, as mathematics:
//! - [`model`]: the derived tables and what each event makes of them.
//! - [`book`], [`meaning`]: the same read by order instead of by row.
//!
//! The code, each function proved against [`model`]:
//! - [`loader`]: the events that the ledger does not hold, in chain order.
//! - [`sequencer`]: fills and changes merged into one order.
//! - [`placement`], [`appliers`], [`engine`]: folding one event.
//! - [`pass`]: folding the batches of one pass.
//! - [`user_history`], [`prices`], [`clock`]: the schedule and the pass as
//!   the scheduler calls it.
//!
//! What holds of it all:
//! - [`laws`]: ledger and state agree; passing over the same log again
//!   changes nothing.
//! - [`order_laws`]: the life of an order, from placement to closing.
//! - [`split`], [`growth`]: two passes over a growing log fold as one.

pub mod appliers;
pub mod basics;
pub mod book;
pub mod clock;
pub mod decimal;
pub mod engine;
pub mod error;
pub mod events;
pub mod growth;
pub mod laws;
pub mod loader;
pub mod meaning;
pub mod model;
pub mod order_laws;
pub mod pass;
pub mod placement;
pub mod prices;
pub mod rows;
pub mod sequencer;
pub mod split;
pub mod user_history;
