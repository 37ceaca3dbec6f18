//! Time as the schedulers need it: the present moment, and lengths of time
//! to hand to a timer.

use crate::basics::Timestamp;
use std::time::Duration;
use vstd::prelude::*;

verus! {

/// How long a `Duration` lasts, in nanoseconds.
pub uninterp spec fn duration_nanos(d: Duration) -> nat;

/// `chrono::Utc::now`, read off in microseconds since the start of 1970.
/// `chrono` takes the system clock's distance from the start of 1970 and
/// panics if the clock stands before it, so the result is never negative.
/// Nothing else is known of it: it is whatever the system clock says.
#[verifier::external_body]
fn utc_now_micros() -> (r: i64)
    ensures
        r >= 0,
{
    chrono::Utc::now().timestamp_micros()
}

/// `Duration::from_secs`: a length of time of that many whole seconds.
#[verifier::external_body]
fn duration_from_secs(secs: u64) -> (r: Duration)
    ensures
        duration_nanos(r) == secs * 1_000_000_000,
{
    Duration::from_secs(secs)
}

/// The present moment, as the system clock shows it: a moment at or after
/// the start of 1970.
pub fn now() -> (r: Timestamp)
    ensures
        clock_shows(r),
{
    Timestamp { micros: utc_now_micros() }
}

/// A length of time of `secs` seconds.
pub fn seconds(secs: u64) -> (r: Duration)
    ensures
        duration_nanos(r) == secs * 1_000_000_000,
{
    duration_from_secs(secs)
}

/// Whether more than `seconds` seconds lie between `earlier` and `later`.
pub open spec fn elapsed_more_than(earlier: Timestamp, later: Timestamp, seconds: int) -> bool {
    earlier.micros + seconds * 1_000_000 < later.micros
}

/// Whether a moment is one that the system clock can show: it does not lie
/// before the start of 1970.
pub open spec fn clock_shows(moment: Timestamp) -> bool {
    moment.micros >= 0
}

/// Whether what last ran at `last` is due again at `now`, where `seconds`
/// seconds have to pass between two runs: always, where nothing ran before.
pub open spec fn due(last: Option<Timestamp>, now: Timestamp, seconds: int) -> bool {
    match last {
        None => true,
        Some(earlier) => elapsed_more_than(earlier, now, seconds),
    }
}

/// Whether `answer` is the answer to "is it due again?" at the present
/// moment, whichever moment that is: there is a moment that the clock can
/// show at which it is the answer.
pub open spec fn due_at_present(last: Option<Timestamp>, seconds: int, answer: bool) -> bool {
    exists|moment: Timestamp| clock_shows(moment) && answer == #[trigger] due(last, moment, seconds)
}

/// Whether more than `seconds` seconds have passed at `now` since `last`;
/// true where nothing ran before.
pub fn is_due(last: Option<Timestamp>, now: Timestamp, seconds: u32) -> (r: bool)
    ensures
        r == due(last, now, seconds as int),
{
    match last {
        None => true,
        Some(earlier) => {
            let wait: i128 = seconds as i128 * 1_000_000;
            earlier.micros as i128 + wait < now.micros as i128
        },
    }
}

} // verus!
