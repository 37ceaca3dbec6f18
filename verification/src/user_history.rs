//! The user-history aggregator: the tables it keeps, when it last ran, and
//! the pass that a scheduler asks of it.

use crate::basics::Timestamp;
use crate::clock::duration_nanos;
use crate::clock::due;
use crate::clock::due_at_present;
use crate::clock::is_due;
use crate::clock::now;
use crate::clock::seconds;
use crate::engine::DerivedState;
use crate::error::AggregationError;
use crate::loader::load_unaggregated;
use crate::loader::loaded;
use crate::loader::EventTables;
use crate::loader::TablesView;
use crate::meaning::tables_sound;
use crate::model::StateView;
use crate::pass::aggregate;
use crate::pass::pass_applied;
use std::time::Duration;
use vstd::prelude::*;

verus! {

/// Seconds that have to pass after a pass before the next one is due.
pub const POLL_INTERVAL_SECONDS: u32 = 5;

/// The aggregator of the user history: the derived tables, and when the
/// last pass over the event log that succeeded was completed.
#[derive(Debug)]
pub struct UserHistory {
    store: DerivedState,
    last_indexed_timestamp: Option<Timestamp>,
}

/// The aggregator as the contracts see it.
pub struct UserHistoryView {
    pub store: StateView,
    pub last_indexed_timestamp: Option<Timestamp>,
}

impl View for UserHistory {
    type V = UserHistoryView;

    closed spec fn view(&self) -> UserHistoryView {
        UserHistoryView {
            store: self.store@,
            last_indexed_timestamp: self.last_indexed_timestamp,
        }
    }
}

/// What one pass over the tables makes of the aggregator's store: the rows
/// that the ledger does not hold are loaded and folded.
pub open spec fn tick_applied(store: StateView, tables: TablesView) -> Result<
    StateView,
    AggregationError,
> {
    pass_applied(store, tables.market_registration_events, loaded(tables, store.ledger))
}

impl UserHistory {
    /// An aggregator over `store` that has not run yet.
    pub fn new(store: DerivedState) -> (r: Self)
        ensures
            r@.store == store@,
            r@.last_indexed_timestamp is None,
    {
        Self { store, last_indexed_timestamp: None }
    }

    /// The name the aggregator goes by.
    pub fn model_name(&self) -> (r: &'static str)
        ensures
            r@ == "UserHistory"@,
    {
        "UserHistory"
    }

    /// The tables as they stand.
    pub fn store(&self) -> (r: &DerivedState)
        ensures
            r@ == self@.store,
    {
        &self.store
    }

    /// When the last pass that succeeded was completed.
    pub fn last_indexed_timestamp(&self) -> (r: Option<Timestamp>)
        ensures
            r == self@.last_indexed_timestamp,
    {
        self.last_indexed_timestamp
    }

    /// Whether a pass is due at `now`: none has succeeded yet, or the last
    /// one that did lies more than five seconds back.
    pub fn ready_at(&self, now: Timestamp) -> (r: bool)
        ensures
            r == due(self@.last_indexed_timestamp, now, POLL_INTERVAL_SECONDS as int),
    {
        is_due(self.last_indexed_timestamp, now, POLL_INTERVAL_SECONDS)
    }

    /// Whether a pass is due at the present moment: the answer of
    /// [`UserHistory::ready_at`] for the moment that the system clock shows.
    pub fn ready(&self) -> (r: bool)
        ensures
            due_at_present(self@.last_indexed_timestamp, POLL_INTERVAL_SECONDS as int, r),
            self@.last_indexed_timestamp is None ==> r,
    {
        let moment = now();
        let answer = self.ready_at(moment);
        assert(answer == due(
            self@.last_indexed_timestamp,
            moment,
            POLL_INTERVAL_SECONDS as int,
        ));
        answer
    }

    /// How long the scheduler waits between two looks at the aggregator: five
    /// seconds.
    pub fn poll_interval(&self) -> (r: Option<Duration>)
        ensures
            r matches Some(d) && duration_nanos(d) == POLL_INTERVAL_SECONDS * 1_000_000_000,
    {
        Some(seconds(POLL_INTERVAL_SECONDS as u64))
    }

    /// One pass without its time: loads what the ledger does not hold and
    /// folds it, as a whole or not at all.
    fn pass(&mut self, tables: &EventTables) -> (r: Result<(), AggregationError>)
        ensures
            final(self)@.last_indexed_timestamp == old(self)@.last_indexed_timestamp,
            match tick_applied(old(self)@.store, tables@) {
                Ok(next) => r is Ok && final(self)@.store == next,
                Err(e) => r == Err::<(), AggregationError>(e) && final(self)@ == old(self)@,
            },
            tables_sound(old(self)@.store) ==> tables_sound(final(self)@.store),
    {
        let batches = load_unaggregated(tables, &self.store.ledger);
        aggregate(&mut self.store, &batches, &tables.market_registration_events)
    }

    /// One pass, completed at `now`: loads what the ledger does not hold,
    /// folds it, and on success keeps the result and the time. A failure
    /// leaves the aggregator as it was, so that the next pass tries again.
    pub fn tick_at(&mut self, tables: &EventTables, now: Timestamp) -> (r: Result<
        (),
        AggregationError,
    >)
        ensures
            match tick_applied(old(self)@.store, tables@) {
                Ok(next) => r is Ok && final(self)@ == (UserHistoryView {
                    store: next,
                    last_indexed_timestamp: Some(now),
                }),
                Err(e) => r == Err::<(), AggregationError>(e) && final(self)@ == old(self)@,
            },
            tables_sound(old(self)@.store) ==> tables_sound(final(self)@.store),
    {
        match self.pass(tables) {
            Ok(()) => {
                self.last_indexed_timestamp = Some(now);
                Ok(())
            },
            Err(e) => Err(e),
        }
    }

    /// One pass, completed at the moment it is done. The time that is kept
    /// is read off the clock after the events were folded.
    pub fn process_and_save_internal(&mut self, tables: &EventTables) -> (r: Result<
        (),
        AggregationError,
    >)
        ensures
            match tick_applied(old(self)@.store, tables@) {
                Ok(next) => r is Ok && final(self)@.store == next
                    && final(self)@.last_indexed_timestamp is Some,
                Err(e) => r == Err::<(), AggregationError>(e) && final(self)@ == old(self)@,
            },
    {
        match self.pass(tables) {
            Ok(()) => {
                self.last_indexed_timestamp = Some(now());
                Ok(())
            },
            Err(e) => Err(e),
        }
    }

    /// What the scheduler calls: one pass, completed at the present moment.
    pub fn process_and_save_historical_data(&mut self, tables: &EventTables) -> (r: Result<
        (),
        AggregationError,
    >)
        ensures
            match tick_applied(old(self)@.store, tables@) {
                Ok(next) => r is Ok && final(self)@.store == next
                    && final(self)@.last_indexed_timestamp is Some,
                Err(e) => r == Err::<(), AggregationError>(e) && final(self)@ == old(self)@,
            },
    {
        self.process_and_save_internal(tables)
    }
}

} // verus!
