//! What the aggregator computes, stated on plain mathematical values.
//!
//! The derived state is five tables, each a sequence of rows in the order in
//! which they were inserted. An event turns one state into the next, or fails
//! and so aborts the pass. The executable code in [`crate::placement`],
//! [`crate::appliers`] and [`crate::pass`] is proved to compute exactly these
//! functions.

use crate::basics::OrderStatus;
use crate::basics::OrderType;
use crate::basics::Timestamp;
use crate::decimal::checked_quotient;
use crate::decimal::decimal_difference;
use crate::decimal::decimal_sum;
use crate::decimal::is_integral;
use crate::decimal::shift_or_value;
use crate::decimal::truncate;
use crate::decimal::DecimalView;
use crate::error::AggregationError;
use crate::events::same_key;
use crate::events::CancelView;
use crate::events::ChangeSizeView;
use crate::events::FillView;
use crate::events::KeyView;
use crate::events::MarketRegistrationView;
use crate::events::PlaceLimitView;
use crate::events::PlaceMarketView;
use crate::events::PlaceSwapView;
use crate::rows::HistoryView;
use crate::rows::LimitView;
use crate::rows::MarketView;
use crate::rows::SwapView;
use vstd::prelude::*;

verus! {

/// The derived tables and the ledger.
pub struct StateView {
    pub history: Seq<HistoryView>,
    pub limits: Seq<LimitView>,
    pub markets: Seq<MarketView>,
    pub swaps: Seq<SwapView>,
    pub ledger: Seq<KeyView>,
}

/// One event of a pass, of whichever kind.
pub enum Step {
    PlaceLimit(PlaceLimitView),
    PlaceMarket(PlaceMarketView),
    PlaceSwap(PlaceSwapView),
    Fill(FillView),
    Change(ChangeSizeView),
    Cancel(CancelView),
}

/// The tables before any event.
pub open spec fn empty_state() -> StateView {
    StateView {
        history: Seq::empty(),
        limits: Seq::empty(),
        markets: Seq::empty(),
        swaps: Seq::empty(),
        ledger: Seq::empty(),
    }
}

/// Whether a row with these two identifiers is the order `(market, order)`.
/// Identifiers are compared as numbers, whatever scale they are stored at.
pub open spec fn names_order(
    market_id: DecimalView,
    order_id: DecimalView,
    market: real,
    order: real,
) -> bool {
    market_id.value == market && order_id.value == order
}

/// Whether the history table has a row of the order.
pub open spec fn history_has(rows: Seq<HistoryView>, market: real, order: real) -> bool {
    exists|i: int|
        0 <= i < rows.len() && names_order(
            (#[trigger] rows[i]).market_id,
            rows[i].order_id,
            market,
            order,
        )
}

/// Whether the limit table has a row of the order.
pub open spec fn limits_have(rows: Seq<LimitView>, market: real, order: real) -> bool {
    exists|i: int|
        0 <= i < rows.len() && names_order(
            (#[trigger] rows[i]).market_id,
            rows[i].order_id,
            market,
            order,
        )
}

/// Whether the market table has a row of the order.
pub open spec fn markets_have(rows: Seq<MarketView>, market: real, order: real) -> bool {
    exists|i: int|
        0 <= i < rows.len() && names_order(
            (#[trigger] rows[i]).market_id,
            rows[i].order_id,
            market,
            order,
        )
}

/// Whether the swap table has a row of the order.
pub open spec fn swaps_have(rows: Seq<SwapView>, market: real, order: real) -> bool {
    exists|i: int|
        0 <= i < rows.len() && names_order(
            (#[trigger] rows[i]).market_id,
            rows[i].order_id,
            market,
            order,
        )
}

/// Whether the ledger holds a position.
pub open spec fn ledger_has(ledger: Seq<KeyView>, key: KeyView) -> bool {
    exists|i: int| 0 <= i < ledger.len() && same_key(#[trigger] ledger[i], key)
}

/// The index of the first history row at or after `from` that is the order
/// `(market, order)`, or the table's length if there is none.
pub open spec fn first_history_from(
    rows: Seq<HistoryView>,
    market: real,
    order: real,
    from: int,
) -> int
    decreases rows.len() - from,
{
    if from < 0 || from >= rows.len() {
        rows.len() as int
    } else if names_order(rows[from].market_id, rows[from].order_id, market, order) {
        from
    } else {
        first_history_from(rows, market, order, from + 1)
    }
}

/// The index of the first registration at or after `from` that describes
/// `market`, or the table's length if there is none.
pub open spec fn first_registration_from(
    registrations: Seq<MarketRegistrationView>,
    market: real,
    from: int,
) -> int
    decreases registrations.len() - from,
{
    if from < 0 || from >= registrations.len() {
        registrations.len() as int
    } else if registrations[from].market_id.value == market {
        from
    } else {
        first_registration_from(registrations, market, from + 1)
    }
}

/// The single number that stands for an event's position wherever the
/// price-time order has to be one sortable value: the transaction version
/// shifted left by 64 bits, or-ed with the event index.
pub open spec fn stamp_value(key: KeyView) -> int {
    shift_or_value(truncate(key.txn_version.value), truncate(key.event_idx.value))
}

/// The stamp as it is stored, or why there is none.
pub open spec fn priority_stamp_of(key: KeyView) -> Result<DecimalView, AggregationError> {
    if !is_integral(key.txn_version.value) {
        Err(AggregationError::TxnVersionNotInteger)
    } else if !is_integral(key.event_idx.value) {
        Err(AggregationError::EventIdxNotInteger)
    } else {
        Ok(DecimalView { value: stamp_value(key) as real, scale: 0 })
    }
}

/// Enters an event's position in the ledger, which must not hold it yet.
pub open spec fn marked(state: StateView, key: KeyView) -> Result<StateView, AggregationError> {
    if ledger_has(state.ledger, key) {
        Err(AggregationError::LedgerCollision)
    } else {
        Ok(StateView { ledger: state.ledger.push(key), ..state })
    }
}

/// The history row that a placement creates.
pub open spec fn opened_row(
    market_id: DecimalView,
    order_id: DecimalView,
    time: Timestamp,
    integrator: crate::basics::Address,
    size: DecimalView,
    order_type: OrderType,
) -> HistoryView {
    HistoryView {
        market_id,
        order_id,
        created_at: time,
        last_updated_at: None,
        integrator,
        total_filled: DecimalView { value: 0real, scale: 0 },
        remaining_size: size,
        order_status: OrderStatus::Open,
        order_type,
    }
}

/// The extension row that a limit placement creates.
pub open spec fn limit_row(event: PlaceLimitView, stamp: DecimalView) -> LimitView {
    LimitView {
        market_id: event.market_id,
        order_id: event.order_id,
        user: event.user,
        custodian_id: event.custodian_id,
        side: event.side,
        self_match_behavior: event.self_match_behavior,
        restriction: event.restriction,
        price: event.price,
        last_increase_stamp: stamp,
    }
}

/// The extension row that a market placement creates.
pub open spec fn market_row(event: PlaceMarketView) -> MarketView {
    MarketView {
        market_id: event.market_id,
        order_id: event.order_id,
        user: event.user,
        custodian_id: event.custodian_id,
        direction: event.direction,
        self_match_behavior: event.self_match_behavior,
    }
}

/// The extension row that a swap placement creates.
pub open spec fn swap_row(event: PlaceSwapView) -> SwapView {
    SwapView {
        market_id: event.market_id,
        order_id: event.order_id,
        direction: event.direction,
        limit_price: event.limit_price,
        signing_account: event.signing_account,
        min_base: event.min_base,
        max_base: event.max_base,
        min_quote: event.min_quote,
        max_quote: event.max_quote,
    }
}

/// A limit order is placed: its extension row carries the placement's stamp,
/// its history row opens with the whole size remaining.
pub open spec fn limit_placed(state: StateView, event: PlaceLimitView) -> Result<
    StateView,
    AggregationError,
> {
    let market = event.market_id.value;
    let order = event.order_id.value;
    match priority_stamp_of(event.key) {
        Err(e) => Err(e),
        Ok(stamp) => if limits_have(state.limits, market, order) || history_has(
            state.history,
            market,
            order,
        ) {
            Err(AggregationError::DuplicateOrder)
        } else {
            marked(
                StateView {
                    limits: state.limits.push(limit_row(event, stamp)),
                    history: state.history.push(
                        opened_row(
                            event.market_id,
                            event.order_id,
                            event.time,
                            event.integrator,
                            event.initial_size,
                            OrderType::Limit,
                        ),
                    ),
                    ..state
                },
                event.key,
            )
        },
    }
}

/// A market order is placed: its extension row, and a history row that
/// opens with the whole size remaining.
pub open spec fn market_placed(state: StateView, event: PlaceMarketView) -> Result<
    StateView,
    AggregationError,
> {
    let market = event.market_id.value;
    let order = event.order_id.value;
    if markets_have(state.markets, market, order) || history_has(state.history, market, order) {
        Err(AggregationError::DuplicateOrder)
    } else {
        marked(
            StateView {
                markets: state.markets.push(market_row(event)),
                history: state.history.push(
                    opened_row(
                        event.market_id,
                        event.order_id,
                        event.time,
                        event.integrator,
                        event.size,
                        OrderType::Market,
                    ),
                ),
                ..state
            },
            event.key,
        )
    }
}

/// The size in lots that a swap opens with, or why there is none.
pub open spec fn swap_size(
    registrations: Seq<MarketRegistrationView>,
    event: PlaceSwapView,
) -> Result<DecimalView, AggregationError> {
    let at = first_registration_from(registrations, event.market_id.value, 0);
    if at >= registrations.len() {
        Err(AggregationError::MissingMarketRegistration)
    } else if registrations[at].lot_size.value == 0real {
        Err(AggregationError::ZeroLotSize)
    } else {
        match checked_quotient(event.max_base, registrations[at].lot_size) {
            Some(size) => Ok(size),
            None => Err(AggregationError::SizeOutOfRange),
        }
    }
}

/// A swap is placed: its extension row, and a history row that opens with
/// the swap's size in lots.
pub open spec fn swap_placed(
    state: StateView,
    registrations: Seq<MarketRegistrationView>,
    event: PlaceSwapView,
) -> Result<StateView, AggregationError> {
    let market = event.market_id.value;
    let order = event.order_id.value;
    if swaps_have(state.swaps, market, order) {
        Err(AggregationError::DuplicateOrder)
    } else {
        match swap_size(registrations, event) {
            Err(e) => Err(e),
            Ok(size) => if history_has(state.history, market, order) {
                Err(AggregationError::DuplicateOrder)
            } else {
                marked(
                    StateView {
                        swaps: state.swaps.push(swap_row(event)),
                        history: state.history.push(
                            opened_row(
                                event.market_id,
                                event.order_id,
                                event.time,
                                event.integrator,
                                size,
                                OrderType::Swap,
                            ),
                        ),
                        ..state
                    },
                    event.key,
                )
            },
        }
    }
}

/// One order's row after a fill of `size` at `time`. A limit order closes
/// when exactly nothing is left; any other order closes at its first fill.
pub open spec fn filled_row(row: HistoryView, size: DecimalView, time: Timestamp) -> HistoryView {
    let left = decimal_difference(row.remaining_size, size);
    HistoryView {
        remaining_size: left,
        total_filled: decimal_sum(row.total_filled, size),
        order_status: if row.order_type == OrderType::Limit {
            if left.value == 0real {
                OrderStatus::Closed
            } else {
                row.order_status
            }
        } else {
            OrderStatus::Closed
        },
        last_updated_at: Some(time),
        ..row
    }
}

/// The history table after a fill against the order `(market, order)`.
pub open spec fn fill_applied(
    rows: Seq<HistoryView>,
    size: DecimalView,
    market: real,
    order: real,
    time: Timestamp,
) -> Seq<HistoryView> {
    Seq::new(
        rows.len(),
        |i: int|
            if names_order(rows[i].market_id, rows[i].order_id, market, order) {
                filled_row(rows[i], size, time)
            } else {
                rows[i]
            },
    )
}

/// The history table after a fill against the maker's order and then the
/// taker's.
pub open spec fn both_filled(rows: Seq<HistoryView>, fill: FillView) -> Seq<HistoryView> {
    fill_applied(
        fill_applied(
            rows,
            fill.size,
            fill.market_id.value,
            fill.maker_order_id.value,
            fill.time,
        ),
        fill.size,
        fill.market_id.value,
        fill.taker_order_id.value,
        fill.time,
    )
}

/// A fill is folded in. The copy emitted to the maker's own handle counts;
/// any other copy is only entered in the ledger.
pub open spec fn fill_aggregated(state: StateView, fill: FillView) -> Result<
    StateView,
    AggregationError,
> {
    if fill.maker_address == fill.emit_address {
        marked(StateView { history: both_filled(state.history, fill), ..state }, fill.key)
    } else {
        marked(state, fill.key)
    }
}

/// The limit table with the stamp of the order `(market, order)` replaced.
pub open spec fn restamped(
    rows: Seq<LimitView>,
    market: real,
    order: real,
    stamp: DecimalView,
) -> Seq<LimitView> {
    Seq::new(
        rows.len(),
        |i: int|
            if names_order(rows[i].market_id, rows[i].order_id, market, order) {
                LimitView { last_increase_stamp: stamp, ..rows[i] }
            } else {
                rows[i]
            },
    )
}

/// The history table with the open size of the order `(market, order)` set.
pub open spec fn resized(
    rows: Seq<HistoryView>,
    new_size: DecimalView,
    market: real,
    order: real,
    time: Timestamp,
) -> Seq<HistoryView> {
    Seq::new(
        rows.len(),
        |i: int|
            if names_order(rows[i].market_id, rows[i].order_id, market, order) {
                HistoryView { remaining_size: new_size, last_updated_at: Some(time), ..rows[i] }
            } else {
                rows[i]
            },
    )
}

/// Whether a change of size costs the order its place in the queue: it is a
/// limit order and the new size is strictly larger than what was left.
pub open spec fn loses_priority(row: HistoryView, new_size: DecimalView) -> bool {
    row.order_type == OrderType::Limit && row.remaining_size.value < new_size.value
}

/// The tables after a size change, without the ledger entry.
pub open spec fn change_applied(state: StateView, change: ChangeSizeView) -> Result<
    StateView,
    AggregationError,
> {
    let market = change.market_id.value;
    let order = change.order_id.value;
    let at = first_history_from(state.history, market, order, 0);
    if at >= state.history.len() {
        Err(AggregationError::UnknownOrder)
    } else if loses_priority(state.history[at], change.new_size) {
        match priority_stamp_of(change.key) {
            Err(e) => Err(e),
            Ok(stamp) => Ok(
                StateView {
                    limits: restamped(state.limits, market, order, stamp),
                    history: resized(state.history, change.new_size, market, order, change.time),
                    ..state
                },
            ),
        }
    } else {
        Ok(
            StateView {
                history: resized(state.history, change.new_size, market, order, change.time),
                ..state
            },
        )
    }
}

/// A change of size is folded in and entered in the ledger.
pub open spec fn change_aggregated(state: StateView, change: ChangeSizeView) -> Result<
    StateView,
    AggregationError,
> {
    match change_applied(state, change) {
        Err(e) => Err(e),
        Ok(next) => marked(next, change.key),
    }
}

/// The history table with the order `(market, order)` cancelled.
pub open spec fn cancelled(
    rows: Seq<HistoryView>,
    market: real,
    order: real,
    time: Timestamp,
) -> Seq<HistoryView> {
    Seq::new(
        rows.len(),
        |i: int|
            if names_order(rows[i].market_id, rows[i].order_id, market, order) {
                HistoryView {
                    order_status: OrderStatus::Cancelled,
                    last_updated_at: Some(time),
                    ..rows[i]
                }
            } else {
                rows[i]
            },
    )
}

/// A cancel is folded in. Where no such order is known no row changes, and
/// the cancel is entered in the ledger all the same.
pub open spec fn cancel_aggregated(state: StateView, cancel: CancelView) -> Result<
    StateView,
    AggregationError,
> {
    marked(
        StateView {
            history: cancelled(
                state.history,
                cancel.market_id.value,
                cancel.order_id.value,
                cancel.time,
            ),
            ..state
        },
        cancel.key,
    )
}

/// What one event makes of a state.
pub open spec fn step_applied(
    state: StateView,
    registrations: Seq<MarketRegistrationView>,
    step: Step,
) -> Result<StateView, AggregationError> {
    match step {
        Step::PlaceLimit(event) => limit_placed(state, event),
        Step::PlaceMarket(event) => market_placed(state, event),
        Step::PlaceSwap(event) => swap_placed(state, registrations, event),
        Step::Fill(fill) => fill_aggregated(state, fill),
        Step::Change(change) => change_aggregated(state, change),
        Step::Cancel(cancel) => cancel_aggregated(state, cancel),
    }
}

/// What a run of events makes of a state, one after the other. The first
/// failure is the run's.
pub open spec fn steps_applied(
    state: StateView,
    registrations: Seq<MarketRegistrationView>,
    steps: Seq<Step>,
) -> Result<StateView, AggregationError>
    decreases steps.len(),
{
    if steps.len() == 0 {
        Ok(state)
    } else {
        match steps_applied(state, registrations, steps.drop_last()) {
            Err(e) => Err(e),
            Ok(before) => step_applied(before, registrations, steps.last()),
        }
    }
}

/// The first row found from `from` on is a row of the order, and no row
/// between `from` and it is; where none is found, no row from `from` on is.
pub proof fn lemma_first_history(rows: Seq<HistoryView>, market: real, order: real, from: int)
    requires
        0 <= from <= rows.len(),
    ensures
        from <= first_history_from(rows, market, order, from) <= rows.len(),
        first_history_from(rows, market, order, from) < rows.len() ==> names_order(
            rows[first_history_from(rows, market, order, from)].market_id,
            rows[first_history_from(rows, market, order, from)].order_id,
            market,
            order,
        ),
        forall|i: int|
            from <= i < first_history_from(rows, market, order, from) ==> !names_order(
                (#[trigger] rows[i]).market_id,
                rows[i].order_id,
                market,
                order,
            ),
        from == 0 ==> (first_history_from(rows, market, order, from) < rows.len() <==> history_has(
            rows,
            market,
            order,
        )),
    decreases rows.len() - from,
{
    if from < rows.len() && !names_order(rows[from].market_id, rows[from].order_id, market, order) {
        lemma_first_history(rows, market, order, from + 1);
    }
}

} // verus!
