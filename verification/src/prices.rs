//! The prices pipeline, as far as its schedule goes. Its pass is a run of
//! stored queries and has no logic of its own.

use crate::basics::Timestamp;
use crate::clock::duration_nanos;
use crate::clock::due;
use crate::clock::due_at_present;
use crate::clock::is_due;
use crate::clock::now;
use crate::clock::seconds;
use std::time::Duration;
use vstd::prelude::*;

verus! {

/// Seconds that have to pass after a run before the next one is due.
pub const TIMEOUT_SECONDS: u32 = 60;

/// The prices pipeline's schedule: when its last run was recorded.
#[derive(Debug)]
pub struct Prices {
    last_indexed_timestamp: Option<Timestamp>,
}

impl View for Prices {
    type V = Option<Timestamp>;

    closed spec fn view(&self) -> Option<Timestamp> {
        self.last_indexed_timestamp
    }
}

impl Prices {
    /// A pipeline that has not run yet.
    pub fn new() -> (r: Self)
        ensures
            r@ is None,
    {
        Self { last_indexed_timestamp: None }
    }

    /// The name the pipeline goes by.
    pub fn model_name(&self) -> (r: String)
        ensures
            r@ == "Prices"@,
    {
        "Prices".to_owned()
    }

    /// Whether a run is due at `now`: none was recorded yet, or the last one
    /// lies more than a minute back.
    pub fn ready_at(&self, now: Timestamp) -> (r: bool)
        ensures
            r == due(self@, now, TIMEOUT_SECONDS as int),
    {
        is_due(self.last_indexed_timestamp, now, TIMEOUT_SECONDS)
    }

    /// Whether a run is due at the present moment: the answer of
    /// [`Prices::ready_at`] for the moment that the system clock shows.
    pub fn ready(&self) -> (r: bool)
        ensures
            due_at_present(self@, TIMEOUT_SECONDS as int, r),
            self@ is None ==> r,
    {
        let moment = now();
        let answer = self.ready_at(moment);
        assert(answer == due(self@, moment, TIMEOUT_SECONDS as int));
        answer
    }

    /// How long the scheduler waits between two looks at the pipeline: a minute.
    pub fn poll_interval(&self) -> (r: Option<Duration>)
        ensures
            r matches Some(d) && duration_nanos(d) == TIMEOUT_SECONDS * 1_000_000_000,
    {
        Some(seconds(TIMEOUT_SECONDS as u64))
    }

    /// Records that a run was completed at `at`.
    pub fn record_run(&mut self, at: Timestamp)
        ensures
            final(self)@ == Some(at),
    {
        self.last_indexed_timestamp = Some(at);
    }
}

} // verus!
