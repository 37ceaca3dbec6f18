//! One pass over the batches of unaggregated events: placements first, then
//! fills and changes in the order of the chain, then cancels. A pass counts
//! as a whole or not at all.

use crate::appliers::aggregate_cancel_event;
use crate::appliers::aggregate_change_event;
use crate::appliers::aggregate_fill_event;
use crate::engine::DerivedState;
use crate::error::AggregationError;
use crate::events::Cancel;
use crate::events::CancelView;
use crate::events::ChangeSize;
use crate::events::ChangeSizeView;
use crate::events::Fill;
use crate::events::FillView;
use crate::events::MarketRegistration;
use crate::events::MarketRegistrationView;
use crate::events::PlaceLimit;
use crate::events::PlaceLimitView;
use crate::events::PlaceMarket;
use crate::events::PlaceMarketView;
use crate::events::PlaceSwap;
use crate::events::PlaceSwapView;
use crate::events::cancel_views;
use crate::events::change_views;
use crate::events::fill_views;
use crate::events::place_limit_views;
use crate::events::place_market_views;
use crate::events::place_swap_views;
use crate::events::registration_views;
use crate::model::StateView;
use crate::model::Step;
use crate::meaning::lemma_run_keeps_tables_sound;
use crate::meaning::tables_sound;
use crate::model::steps_applied;
use crate::placement::record_limit_order;
use crate::placement::record_market_order;
use crate::placement::record_swap_order;
use crate::sequencer::Turn;
use crate::sequencer::TurnView;
use crate::sequencer::change_keys;
use crate::sequencer::fill_keys;
use crate::sequencer::merge_order;
use crate::sequencer::merged;
use crate::sequencer::turn_in_range;
use crate::sequencer::turn_views;
use vstd::prelude::*;

verus! {

/// The events that one pass has to fold, by kind, each kind in the order of
/// the chain.
#[derive(Debug)]
pub struct Batches {
    pub place_limits: Vec<PlaceLimit>,
    pub place_markets: Vec<PlaceMarket>,
    pub place_swaps: Vec<PlaceSwap>,
    pub fills: Vec<Fill>,
    pub changes: Vec<ChangeSize>,
    pub cancels: Vec<Cancel>,
}

/// The batches of a pass as the contracts see them.
pub struct BatchesView {
    pub place_limits: Seq<PlaceLimitView>,
    pub place_markets: Seq<PlaceMarketView>,
    pub place_swaps: Seq<PlaceSwapView>,
    pub fills: Seq<FillView>,
    pub changes: Seq<ChangeSizeView>,
    pub cancels: Seq<CancelView>,
}

impl View for Batches {
    type V = BatchesView;

    open spec fn view(&self) -> BatchesView {
        BatchesView {
            place_limits: place_limit_views(self.place_limits@),
            place_markets: place_market_views(self.place_markets@),
            place_swaps: place_swap_views(self.place_swaps@),
            fills: fill_views(self.fills@),
            changes: change_views(self.changes@),
            cancels: cancel_views(self.cancels@),
        }
    }
}

/// Limit placements as the steps of a run.
pub open spec fn limit_steps(events: Seq<PlaceLimitView>) -> Seq<Step> {
    events.map_values(|event: PlaceLimitView| Step::PlaceLimit(event))
}

/// Market placements as the steps of a run.
pub open spec fn market_steps(events: Seq<PlaceMarketView>) -> Seq<Step> {
    events.map_values(|event: PlaceMarketView| Step::PlaceMarket(event))
}

/// Swap placements as the steps of a run.
pub open spec fn swap_steps(events: Seq<PlaceSwapView>) -> Seq<Step> {
    events.map_values(|event: PlaceSwapView| Step::PlaceSwap(event))
}

/// Cancels as the steps of a run.
pub open spec fn cancel_steps(events: Seq<CancelView>) -> Seq<Step> {
    events.map_values(|event: CancelView| Step::Cancel(event))
}

/// The event whose turn it is.
pub open spec fn turn_step(
    turn: TurnView,
    fills: Seq<FillView>,
    changes: Seq<ChangeSizeView>,
) -> Step {
    match turn {
        TurnView::Fill(i) => Step::Fill(fills[i]),
        TurnView::Change(j) => Step::Change(changes[j]),
    }
}

/// Fills and changes in the order in which a pass takes them.
pub open spec fn merged_steps(fills: Seq<FillView>, changes: Seq<ChangeSizeView>) -> Seq<Step> {
    merged(fill_keys(fills), change_keys(changes)).map_values(
        |turn: TurnView| turn_step(turn, fills, changes),
    )
}

/// Every event of a pass in the order in which the pass folds it.
pub open spec fn pass_steps(batches: BatchesView) -> Seq<Step> {
    limit_steps(batches.place_limits) + market_steps(batches.place_markets) + swap_steps(
        batches.place_swaps,
    ) + merged_steps(batches.fills, batches.changes) + cancel_steps(batches.cancels)
}

/// What a pass makes of a state.
pub open spec fn pass_applied(
    state: StateView,
    registrations: Seq<MarketRegistrationView>,
    batches: BatchesView,
) -> Result<StateView, AggregationError> {
    steps_applied(state, registrations, pass_steps(batches))
}

/// A run that has failed after `n` events has failed for good: the events
/// behind them are never looked at.
pub proof fn lemma_failure_is_final(
    state: StateView,
    registrations: Seq<MarketRegistrationView>,
    steps: Seq<Step>,
    n: int,
)
    requires
        0 <= n <= steps.len(),
        steps_applied(state, registrations, steps.take(n)) is Err,
    ensures
        steps_applied(state, registrations, steps) == steps_applied(
            state,
            registrations,
            steps.take(n),
        ),
    decreases steps.len() - n,
{
    if n < steps.len() {
        assert(steps.take(n + 1).drop_last() =~= steps.take(n));
        lemma_failure_is_final(state, registrations, steps, n + 1);
    } else {
        assert(steps.take(n) =~= steps);
    }
}

/// Running two runs one after the other is running them joined.
pub proof fn lemma_runs_join(
    state: StateView,
    registrations: Seq<MarketRegistrationView>,
    first: Seq<Step>,
    second: Seq<Step>,
)
    ensures
        steps_applied(state, registrations, first + second) == match steps_applied(
            state,
            registrations,
            first,
        ) {
            Ok(between) => steps_applied(between, registrations, second),
            Err(e) => Err(e),
        },
    decreases second.len(),
{
    if second.len() == 0 {
        assert(first + second =~= first);
    } else {
        assert((first + second).drop_last() =~= first + second.drop_last());
        assert((first + second).last() == second.last());
        lemma_runs_join(state, registrations, first, second.drop_last());
    }
}

fn record_limit_orders(
    tx: &mut DerivedState,
    events: &Vec<PlaceLimit>,
    Ghost(registrations): Ghost<Seq<MarketRegistrationView>>,
) -> (r: Result<(), AggregationError>)
    ensures
        match steps_applied(old(tx)@, registrations, limit_steps(place_limit_views(events@))) {
            Ok(next) => r is Ok && final(tx)@ == next,
            Err(e) => r == Err::<(), AggregationError>(e),
        },
{
    let ghost start = tx@;
    let ghost steps = limit_steps(place_limit_views(events@));
    let mut i: usize = 0;
    while i < events.len()
        invariant
            i <= events.len(),
            start == old(tx)@,
            steps == limit_steps(place_limit_views(events@)),
            steps_applied(start, registrations, steps.take(i as int)) == Ok::<
                StateView,
                AggregationError,
            >(tx@),
        decreases events.len() - i,
    {
        proof {
            assert(steps.take(i + 1).drop_last() =~= steps.take(i as int));
            assert(steps.take(i + 1).last() == Step::PlaceLimit(events@[i as int]@));
        }
        match record_limit_order(tx, &events[i]) {
            Ok(()) => {},
            Err(e) => {
                proof {
                    lemma_failure_is_final(start, registrations, steps, i + 1);
                }
                return Err(e);
            },
        }
        i += 1;
    }
    proof {
        assert(steps.take(i as int) =~= steps);
    }
    Ok(())
}

fn record_market_orders(
    tx: &mut DerivedState,
    events: &Vec<PlaceMarket>,
    Ghost(registrations): Ghost<Seq<MarketRegistrationView>>,
) -> (r: Result<(), AggregationError>)
    ensures
        match steps_applied(old(tx)@, registrations, market_steps(place_market_views(events@))) {
            Ok(next) => r is Ok && final(tx)@ == next,
            Err(e) => r == Err::<(), AggregationError>(e),
        },
{
    let ghost start = tx@;
    let ghost steps = market_steps(place_market_views(events@));
    let mut i: usize = 0;
    while i < events.len()
        invariant
            i <= events.len(),
            start == old(tx)@,
            steps == market_steps(place_market_views(events@)),
            steps_applied(start, registrations, steps.take(i as int)) == Ok::<
                StateView,
                AggregationError,
            >(tx@),
        decreases events.len() - i,
    {
        proof {
            assert(steps.take(i + 1).drop_last() =~= steps.take(i as int));
            assert(steps.take(i + 1).last() == Step::PlaceMarket(events@[i as int]@));
        }
        match record_market_order(tx, &events[i]) {
            Ok(()) => {},
            Err(e) => {
                proof {
                    lemma_failure_is_final(start, registrations, steps, i + 1);
                }
                return Err(e);
            },
        }
        i += 1;
    }
    proof {
        assert(steps.take(i as int) =~= steps);
    }
    Ok(())
}

fn record_swap_orders(
    tx: &mut DerivedState,
    events: &Vec<PlaceSwap>,
    registrations: &Vec<MarketRegistration>,
) -> (r: Result<(), AggregationError>)
    ensures
        match steps_applied(
            old(tx)@,
            registration_views(registrations@),
            swap_steps(place_swap_views(events@)),
        ) {
            Ok(next) => r is Ok && final(tx)@ == next,
            Err(e) => r == Err::<(), AggregationError>(e),
        },
{
    let ghost start = tx@;
    let ghost steps = swap_steps(place_swap_views(events@));
    let ghost known = registration_views(registrations@);
    let mut i: usize = 0;
    while i < events.len()
        invariant
            i <= events.len(),
            start == old(tx)@,
            steps == swap_steps(place_swap_views(events@)),
            known == registration_views(registrations@),
            steps_applied(start, known, steps.take(i as int)) == Ok::<StateView, AggregationError>(
                tx@,
            ),
        decreases events.len() - i,
    {
        proof {
            assert(steps.take(i + 1).drop_last() =~= steps.take(i as int));
            assert(steps.take(i + 1).last() == Step::PlaceSwap(events@[i as int]@));
        }
        match record_swap_order(tx, registrations, &events[i]) {
            Ok(()) => {},
            Err(e) => {
                proof {
                    lemma_failure_is_final(start, known, steps, i + 1);
                }
                return Err(e);
            },
        }
        i += 1;
    }
    proof {
        assert(steps.take(i as int) =~= steps);
    }
    Ok(())
}

fn aggregate_fills_and_changes(
    tx: &mut DerivedState,
    fills: &Vec<Fill>,
    changes: &Vec<ChangeSize>,
    Ghost(registrations): Ghost<Seq<MarketRegistrationView>>,
) -> (r: Result<(), AggregationError>)
    ensures
        match steps_applied(
            old(tx)@,
            registrations,
            merged_steps(fill_views(fills@), change_views(changes@)),
        ) {
            Ok(next) => r is Ok && final(tx)@ == next,
            Err(e) => r == Err::<(), AggregationError>(e),
        },
{
    let ghost start = tx@;
    let ghost steps = merged_steps(fill_views(fills@), change_views(changes@));
    let turns = merge_order(fills, changes);
    let mut t: usize = 0;
    while t < turns.len()
        invariant
            t <= turns.len(),
            start == old(tx)@,
            steps == merged_steps(fill_views(fills@), change_views(changes@)),
            turn_views(turns@) == merged(
                fill_keys(fill_views(fills@)),
                change_keys(change_views(changes@)),
            ),
            forall|u: int|
                0 <= u < turns.len() ==> turn_in_range(
                    (#[trigger] turns[u])@,
                    fills.len() as int,
                    changes.len() as int,
                ),
            steps_applied(start, registrations, steps.take(t as int)) == Ok::<
                StateView,
                AggregationError,
            >(tx@),
        decreases turns.len() - t,
    {
        proof {
            assert(steps.take(t + 1).drop_last() =~= steps.take(t as int));
            assert(turn_views(turns@)[t as int] == turns[t as int]@);
            assert(steps.take(t + 1).last() == turn_step(
                turns[t as int]@,
                fill_views(fills@),
                change_views(changes@),
            ));
        }
        let outcome = match turns[t] {
            Turn::Fill(i) => aggregate_fill_event(tx, &fills[i]),
            Turn::Change(j) => aggregate_change_event(tx, &changes[j]),
        };
        match outcome {
            Ok(()) => {},
            Err(e) => {
                proof {
                    lemma_failure_is_final(start, registrations, steps, t + 1);
                }
                return Err(e);
            },
        }
        t += 1;
    }
    proof {
        assert(steps.take(t as int) =~= steps);
    }
    Ok(())
}

fn aggregate_cancels(
    tx: &mut DerivedState,
    events: &Vec<Cancel>,
    Ghost(registrations): Ghost<Seq<MarketRegistrationView>>,
) -> (r: Result<(), AggregationError>)
    ensures
        match steps_applied(old(tx)@, registrations, cancel_steps(cancel_views(events@))) {
            Ok(next) => r is Ok && final(tx)@ == next,
            Err(e) => r == Err::<(), AggregationError>(e),
        },
{
    let ghost start = tx@;
    let ghost steps = cancel_steps(cancel_views(events@));
    let mut i: usize = 0;
    while i < events.len()
        invariant
            i <= events.len(),
            start == old(tx)@,
            steps == cancel_steps(cancel_views(events@)),
            steps_applied(start, registrations, steps.take(i as int)) == Ok::<
                StateView,
                AggregationError,
            >(tx@),
        decreases events.len() - i,
    {
        proof {
            assert(steps.take(i + 1).drop_last() =~= steps.take(i as int));
            assert(steps.take(i + 1).last() == Step::Cancel(events@[i as int]@));
        }
        match aggregate_cancel_event(tx, &events[i]) {
            Ok(()) => {},
            Err(e) => {
                proof {
                    lemma_failure_is_final(start, registrations, steps, i + 1);
                }
                return Err(e);
            },
        }
        i += 1;
    }
    proof {
        assert(steps.take(i as int) =~= steps);
    }
    Ok(())
}

/// Folds the batches of one pass into the tables, where they stand. After a
/// failure the tables hold the part of the pass that came before it, which
/// the caller throws away.
fn aggregate_in_place(
    tx: &mut DerivedState,
    batches: &Batches,
    registrations: &Vec<MarketRegistration>,
) -> (r: Result<(), AggregationError>)
    ensures
        match pass_applied(old(tx)@, registration_views(registrations@), batches@) {
            Ok(next) => r is Ok && final(tx)@ == next,
            Err(e) => r == Err::<(), AggregationError>(e),
        },
{
    let ghost start = tx@;
    let ghost known = registration_views(registrations@);
    let ghost limits = limit_steps(batches@.place_limits);
    let ghost markets = market_steps(batches@.place_markets);
    let ghost swaps = swap_steps(batches@.place_swaps);
    let ghost turns = merged_steps(batches@.fills, batches@.changes);
    let ghost cancels = cancel_steps(batches@.cancels);
    proof {
        lemma_runs_join(start, known, limits + markets + swaps + turns, cancels);
        lemma_runs_join(start, known, limits + markets + swaps, turns);
        lemma_runs_join(start, known, limits + markets, swaps);
        lemma_runs_join(start, known, limits, markets);
    }
    match record_limit_orders(tx, &batches.place_limits, Ghost(known)) {
        Ok(()) => {},
        Err(e) => {
            return Err(e);
        },
    }
    match record_market_orders(tx, &batches.place_markets, Ghost(known)) {
        Ok(()) => {},
        Err(e) => {
            return Err(e);
        },
    }
    match record_swap_orders(tx, &batches.place_swaps, registrations) {
        Ok(()) => {},
        Err(e) => {
            return Err(e);
        },
    }
    match aggregate_fills_and_changes(tx, &batches.fills, &batches.changes, Ghost(known)) {
        Ok(()) => {},
        Err(e) => {
            return Err(e);
        },
    }
    aggregate_cancels(tx, &batches.cancels, Ghost(known))
}

/// Folds the batches of one pass into the tables, as a whole or not at all:
/// after a failure the tables are what they were before. Sound tables stay
/// sound.
pub fn aggregate(
    tx: &mut DerivedState,
    batches: &Batches,
    registrations: &Vec<MarketRegistration>,
) -> (r: Result<(), AggregationError>)
    ensures
        match pass_applied(old(tx)@, registration_views(registrations@), batches@) {
            Ok(next) => r is Ok && final(tx)@ == next,
            Err(e) => r == Err::<(), AggregationError>(e) && final(tx)@ == old(tx)@,
        },
        tables_sound(old(tx)@) ==> tables_sound(final(tx)@),
{
    proof {
        if tables_sound(tx@) && pass_applied(tx@, registration_views(registrations@), batches@)
            is Ok {
            lemma_run_keeps_tables_sound(
                tx@,
                registration_views(registrations@),
                pass_steps(batches@),
            );
        }
    }
    let mut work = tx.clone();
    match aggregate_in_place(&mut work, batches, registrations) {
        Ok(()) => {
            *tx = work;
            Ok(())
        },
        Err(e) => Err(e),
    }
}

} // verus!
