//! What holds of every order: laws of the order's life, from placement over
//! fills and changes of size to closing and cancelling.

use crate::basics::OrderStatus;
use crate::basics::OrderType;
use crate::basics::Timestamp;
use crate::decimal::is_integral;
use crate::decimal::truncate;
use crate::decimal::DecimalView;
use crate::decimal::TWO_POW_64;
use crate::events::key_before;
use crate::events::CancelView;
use crate::events::ChangeSizeView;
use crate::events::FillView;
use crate::events::KeyView;
use crate::events::MarketRegistrationView;
use crate::model::both_filled;
use crate::model::cancel_aggregated;
use crate::model::cancelled;
use crate::model::change_applied;
use crate::model::fill_aggregated;
use crate::model::fill_applied;
use crate::model::filled_row;
use crate::model::first_history_from;
use crate::model::history_has;
use crate::model::loses_priority;
use crate::model::marked;
use crate::model::names_order;
use crate::model::stamp_value;
use crate::model::step_applied;
use crate::model::steps_applied;
use crate::model::swap_size;
use crate::model::StateView;
use crate::model::Step;
use crate::pass::pass_steps;
use crate::pass::BatchesView;
use crate::rows::HistoryView;
use vstd::prelude::*;

verus! {

/// A fill whose size is exactly what is left of a limit order closes the
/// order, with nothing left.
pub proof fn lemma_exact_fill_closes_limit_order(
    row: HistoryView,
    size: DecimalView,
    time: Timestamp,
)
    requires
        row.order_type == OrderType::Limit,
        size.value == row.remaining_size.value,
    ensures
        filled_row(row, size, time).order_status == OrderStatus::Closed,
        filled_row(row, size, time).remaining_size.value == 0real,
        filled_row(row, size, time).total_filled.value == row.total_filled.value + size.value,
{
}

/// A fill moves size from what is left to what was filled: the two together
/// stay what they were.
pub proof fn lemma_fill_moves_size(row: HistoryView, size: DecimalView, time: Timestamp)
    ensures
        filled_row(row, size, time).remaining_size.value + filled_row(
            row,
            size,
            time,
        ).total_filled.value == row.remaining_size.value + row.total_filled.value,
        filled_row(row, size, time).last_updated_at == Some(time),
        filled_row(row, size, time).order_type == row.order_type,
{
}

/// A fill that leaves something of a limit order leaves its status alone.
pub proof fn lemma_partial_fill_keeps_limit_order_status(
    row: HistoryView,
    size: DecimalView,
    time: Timestamp,
)
    requires
        row.order_type == OrderType::Limit,
        size.value != row.remaining_size.value,
    ensures
        filled_row(row, size, time).order_status == row.order_status,
{
}

/// Any fill closes an order that is not a limit order.
pub proof fn lemma_fill_closes_market_and_swap_orders(
    row: HistoryView,
    size: DecimalView,
    time: Timestamp,
)
    requires
        row.order_type != OrderType::Limit,
    ensures
        filled_row(row, size, time).order_status == OrderStatus::Closed,
{
}

/// How often a fill names the order of a row: once as maker, once as taker.
pub open spec fn times_named(row: HistoryView, fill: FillView) -> int {
    (if names_order(row.market_id, row.order_id, fill.market_id.value, fill.maker_order_id.value) {
        1int
    } else {
        0int
    }) + (if names_order(
        row.market_id,
        row.order_id,
        fill.market_id.value,
        fill.taker_order_id.value,
    ) {
        1int
    } else {
        0int
    })
}

/// How much a fill that counts takes from the order of a row: its size once
/// for each time it names the order.
pub open spec fn taken_by(row: HistoryView, fill: FillView) -> real {
    (if names_order(row.market_id, row.order_id, fill.market_id.value, fill.maker_order_id.value) {
        fill.size.value
    } else {
        0real
    }) + (if names_order(
        row.market_id,
        row.order_id,
        fill.market_id.value,
        fill.taker_order_id.value,
    ) {
        fill.size.value
    } else {
        0real
    })
}

/// What a fill that counts does to each row: a row of the maker's or the
/// taker's order is filled, a row of both twice, any other row is left
/// alone; and no row comes or goes.
pub proof fn lemma_fill_row_by_row(rows: Seq<HistoryView>, fill: FillView)
    ensures
        both_filled(rows, fill).len() == rows.len(),
        forall|i: int|
            0 <= i < rows.len() ==> (#[trigger] both_filled(rows, fill)[i]) == (if times_named(
                rows[i],
                fill,
            ) == 0 {
                rows[i]
            } else if times_named(rows[i], fill) == 1 {
                filled_row(rows[i], fill.size, fill.time)
            } else {
                filled_row(filled_row(rows[i], fill.size, fill.time), fill.size, fill.time)
            }),
{
    let once = fill_applied(
        rows,
        fill.size,
        fill.market_id.value,
        fill.maker_order_id.value,
        fill.time,
    );
    assert forall|i: int| 0 <= i < rows.len() implies (#[trigger] both_filled(rows, fill)[i]) == (
    if times_named(rows[i], fill) == 0 {
        rows[i]
    } else if times_named(rows[i], fill) == 1 {
        filled_row(rows[i], fill.size, fill.time)
    } else {
        filled_row(filled_row(rows[i], fill.size, fill.time), fill.size, fill.time)
    }) by {
        assert(once[i].market_id == rows[i].market_id);
        assert(once[i].order_id == rows[i].order_id);
    }
}

/// The closing policy. After a fill that counts, every market order and
/// every swap that the fill names is closed.
pub proof fn lemma_fill_closes_the_orders_it_names(state: StateView, fill: FillView)
    requires
        fill.maker_address == fill.emit_address,
        fill_aggregated(state, fill) is Ok,
    ensures
        fill_aggregated(state, fill)->Ok_0.history.len() == state.history.len(),
        forall|i: int|
            0 <= i < state.history.len() && times_named(#[trigger] state.history[i], fill) > 0
                && state.history[i].order_type != OrderType::Limit ==> fill_aggregated(
                state,
                fill,
            )->Ok_0.history[i].order_status == OrderStatus::Closed,
{
    lemma_fill_row_by_row(state.history, fill);
    let next = fill_aggregated(state, fill)->Ok_0;
    assert(next.history == both_filled(state.history, fill));
    assert forall|i: int|
        0 <= i < state.history.len() && times_named(#[trigger] state.history[i], fill) > 0
            && state.history[i].order_type != OrderType::Limit implies next.history[i].order_status
        == OrderStatus::Closed by {
        assert(both_filled(state.history, fill)[i] == next.history[i]);
    }
}

/// A fill that counts and whose size is exactly what is left of a limit
/// order that it names once closes that order, with nothing left.
pub proof fn lemma_exact_fill_closes_limit_order_in_tables(
    state: StateView,
    fill: FillView,
    i: int,
)
    requires
        fill.maker_address == fill.emit_address,
        fill_aggregated(state, fill) is Ok,
        0 <= i < state.history.len(),
        times_named(state.history[i], fill) == 1,
        state.history[i].order_type == OrderType::Limit,
        state.history[i].remaining_size.value == fill.size.value,
    ensures
        fill_aggregated(state, fill)->Ok_0.history[i].order_status == OrderStatus::Closed,
        fill_aggregated(state, fill)->Ok_0.history[i].remaining_size.value == 0real,
        fill_aggregated(state, fill)->Ok_0.history[i].total_filled.value
            == state.history[i].total_filled.value + fill.size.value,
        fill_aggregated(state, fill)->Ok_0.history[i].last_updated_at == Some(fill.time),
{
    lemma_fill_row_by_row(state.history, fill);
    assert(both_filled(state.history, fill)[i] == filled_row(
        state.history[i],
        fill.size,
        fill.time,
    ));
}

/// A cancel rewrites the status of the order it names, whatever it was, and
/// touches no other order.
pub proof fn lemma_cancel_rewrites_status(state: StateView, cancel: CancelView)
    requires
        cancel_aggregated(state, cancel) is Ok,
    ensures
        cancel_aggregated(state, cancel)->Ok_0.history.len() == state.history.len(),
        forall|i: int|
            0 <= i < state.history.len() ==> (#[trigger] cancel_aggregated(
                state,
                cancel,
            )->Ok_0.history[i]) == (if names_order(
                state.history[i].market_id,
                state.history[i].order_id,
                cancel.market_id.value,
                cancel.order_id.value,
            ) {
                HistoryView {
                    order_status: OrderStatus::Cancelled,
                    last_updated_at: Some(cancel.time),
                    ..state.history[i]
                }
            } else {
                state.history[i]
            }),
{
}

/// Within one pass every placement is folded before every fill and change,
/// and every cancel after them.
pub proof fn lemma_pass_order(batches: BatchesView, first: int, second: int)
    requires
        0 <= first < second < pass_steps(batches).len(),
    ensures
        pass_steps(batches)[first] is Cancel ==> pass_steps(batches)[second] is Cancel,
        pass_steps(batches)[second] is PlaceLimit || pass_steps(batches)[second] is PlaceMarket
            || pass_steps(batches)[second] is PlaceSwap ==> pass_steps(batches)[first]
            is PlaceLimit || pass_steps(batches)[first] is PlaceMarket || pass_steps(
            batches,
        )[first] is PlaceSwap,
{
}

/// A copy of a fill that was emitted to another handle than the maker's is
/// entered in the ledger and changes nothing else.
pub proof fn lemma_foreign_copy_is_ledgered_only(state: StateView, fill: FillView)
    requires
        fill.maker_address != fill.emit_address,
    ensures
        fill_aggregated(state, fill) == marked(state, fill.key),
        fill_aggregated(state, fill) matches Ok(next) ==> next == (StateView {
            ledger: state.ledger.push(fill.key),
            ..state
        }),
{
}

/// A cancel for an order that was never placed changes no row and is
/// entered in the ledger all the same.
pub proof fn lemma_cancel_of_unknown_order_is_ledgered_only(state: StateView, cancel: CancelView)
    requires
        !history_has(state.history, cancel.market_id.value, cancel.order_id.value),
    ensures
        cancel_aggregated(state, cancel) == marked(state, cancel.key),
        cancel_aggregated(state, cancel) matches Ok(next) ==> next == (StateView {
            ledger: state.ledger.push(cancel.key),
            ..state
        }),
{
    assert(cancelled(
        state.history,
        cancel.market_id.value,
        cancel.order_id.value,
        cancel.time,
    ) =~= state.history);
}

/// A change of size that does not make a limit order larger leaves every
/// stamp alone: the order keeps its place in the queue.
pub proof fn lemma_no_increase_keeps_stamps(state: StateView, change: ChangeSizeView)
    requires
        change_applied(state, change) is Ok,
        !loses_priority(
            state.history[first_history_from(
                state.history,
                change.market_id.value,
                change.order_id.value,
                0,
            )],
            change.new_size,
        ),
    ensures
        change_applied(state, change)->Ok_0.limits == state.limits,
{
}

/// A change of a limit order to the size that is left of it does not make it
/// larger, and so leaves every stamp alone.
pub proof fn lemma_change_to_same_size_keeps_stamps(state: StateView, change: ChangeSizeView)
    requires
        change_applied(state, change) is Ok,
        change.new_size.value == state.history[first_history_from(
            state.history,
            change.market_id.value,
            change.order_id.value,
            0,
        )].remaining_size.value,
    ensures
        change_applied(state, change)->Ok_0.limits == state.limits,
{
}

/// Whether a position can be encoded without loss: both parts are whole
/// numbers, the transaction version is not negative, and the event index
/// fits in 64 bits.
pub open spec fn key_in_range(key: KeyView) -> bool {
    &&& is_integral(key.txn_version.value)
    &&& is_integral(key.event_idx.value)
    &&& key.txn_version.value >= 0real
    &&& 0real <= key.event_idx.value < TWO_POW_64 as real
}

/// The stamp of a position in range is the transaction version times two to
/// the 64, plus the event index.
pub proof fn lemma_stamp_of_key_in_range(key: KeyView)
    requires
        key_in_range(key),
    ensures
        stamp_value(key) == truncate(key.txn_version.value) * TWO_POW_64 + truncate(
            key.event_idx.value,
        ),
        truncate(key.txn_version.value) as real == key.txn_version.value,
        truncate(key.event_idx.value) as real == key.event_idx.value,
{
}

/// Stamps order events as the chain does: of two positions in range, the
/// one that stands later in the chain has the strictly larger stamp.
pub proof fn lemma_later_event_has_larger_stamp(earlier: KeyView, later: KeyView)
    requires
        key_in_range(earlier),
        key_in_range(later),
        key_before(earlier, later),
    ensures
        stamp_value(earlier) < stamp_value(later),
{
    lemma_stamp_of_key_in_range(earlier);
    lemma_stamp_of_key_in_range(later);
    let t1 = truncate(earlier.txn_version.value);
    let t2 = truncate(later.txn_version.value);
    let i1 = truncate(earlier.event_idx.value);
    let i2 = truncate(later.event_idx.value);
    if t1 < t2 {
        assert(t1 + 1 <= t2);
        assert((t1 + 1) * TWO_POW_64 <= t2 * TWO_POW_64) by (nonlinear_arith)
            requires
                t1 + 1 <= t2,
        ;
        assert((t1 + 1) * TWO_POW_64 == t1 * TWO_POW_64 + TWO_POW_64) by (nonlinear_arith);
    } else {
        assert(t1 == t2);
        assert(i1 < i2);
    }
}

/// Priority is monotone. Of two changes that each make the same limit order
/// larger, the later one leaves the order with a strictly larger stamp than
/// the earlier one did.
pub proof fn lemma_size_increases_raise_stamp(
    state: StateView,
    first: ChangeSizeView,
    second: ChangeSizeView,
    i: int,
)
    requires
        key_in_range(first.key),
        key_in_range(second.key),
        key_before(first.key, second.key),
        first.market_id.value == second.market_id.value,
        first.order_id.value == second.order_id.value,
        change_applied(state, first) is Ok,
        change_applied(change_applied(state, first)->Ok_0, second) is Ok,
        loses_priority(
            state.history[first_history_from(
                state.history,
                first.market_id.value,
                first.order_id.value,
                0,
            )],
            first.new_size,
        ),
        loses_priority(
            change_applied(state, first)->Ok_0.history[first_history_from(
                change_applied(state, first)->Ok_0.history,
                second.market_id.value,
                second.order_id.value,
                0,
            )],
            second.new_size,
        ),
        0 <= i < state.limits.len(),
        names_order(
            state.limits[i].market_id,
            state.limits[i].order_id,
            first.market_id.value,
            first.order_id.value,
        ),
    ensures
        change_applied(state, first)->Ok_0.limits[i].last_increase_stamp.value == stamp_value(
            first.key,
        ) as real,
        change_applied(
            change_applied(state, first)->Ok_0,
            second,
        )->Ok_0.limits[i].last_increase_stamp.value == stamp_value(second.key) as real,
        change_applied(state, first)->Ok_0.limits[i].last_increase_stamp.value < change_applied(
            change_applied(state, first)->Ok_0,
            second,
        )->Ok_0.limits[i].last_increase_stamp.value,
{
    lemma_later_event_has_larger_stamp(first.key, second.key);
}

/// Whether nothing is left negative.
pub open spec fn sizes_nonnegative(rows: Seq<HistoryView>) -> bool {
    forall|i: int| 0 <= i < rows.len() ==> (#[trigger] rows[i]).remaining_size.value >= 0real
}

/// Whether an event asks of no order more than the order has: a placement
/// opens with a size that is not negative, a change sets one, and a fill that
/// counts takes from each order it names no more than is left of it.
pub open spec fn step_is_covered(
    state: StateView,
    registrations: Seq<MarketRegistrationView>,
    step: Step,
) -> bool {
    match step {
        Step::PlaceLimit(event) => event.initial_size.value >= 0real,
        Step::PlaceMarket(event) => event.size.value >= 0real,
        Step::PlaceSwap(event) => swap_size(registrations, event) matches Ok(size) ==> size.value
            >= 0real,
        Step::Fill(fill) => fill.maker_address == fill.emit_address ==> forall|i: int|
            0 <= i < state.history.len() ==> (#[trigger] state.history[i]).remaining_size.value
                >= taken_by(state.history[i], fill),
        Step::Change(change) => change.new_size.value >= 0real,
        Step::Cancel(_) => true,
    }
}

/// Whether every event of a run is covered at the moment it is folded.
pub open spec fn run_is_covered(
    state: StateView,
    registrations: Seq<MarketRegistrationView>,
    steps: Seq<Step>,
) -> bool
    decreases steps.len(),
{
    steps.len() == 0 || (run_is_covered(state, registrations, steps.drop_last()) && (
    steps_applied(state, registrations, steps.drop_last()) matches Ok(before)
        ==> step_is_covered(before, registrations, steps.last())))
}

/// A covered event leaves nothing negative.
pub proof fn lemma_covered_step_keeps_sizes_nonnegative(
    state: StateView,
    registrations: Seq<MarketRegistrationView>,
    step: Step,
)
    requires
        sizes_nonnegative(state.history),
        step_is_covered(state, registrations, step),
        step_applied(state, registrations, step) is Ok,
    ensures
        sizes_nonnegative(step_applied(state, registrations, step)->Ok_0.history),
{
    let next = step_applied(state, registrations, step)->Ok_0;
    match step {
        Step::Fill(fill) => {
            if fill.maker_address == fill.emit_address {
                lemma_fill_row_by_row(state.history, fill);
                assert forall|i: int| 0 <= i < next.history.len() implies (
                #[trigger] next.history[i]).remaining_size.value >= 0real by {
                    assert(both_filled(state.history, fill)[i] == next.history[i]);
                    assert(state.history[i].remaining_size.value >= taken_by(
                        state.history[i],
                        fill,
                    ));
                }
            }
        },
        Step::PlaceLimit(event) => {
            assert forall|i: int| 0 <= i < next.history.len() implies (
            #[trigger] next.history[i]).remaining_size.value >= 0real by {
                if i < state.history.len() {
                    assert(next.history[i] == state.history[i]);
                }
            }
        },
        Step::PlaceMarket(event) => {
            assert forall|i: int| 0 <= i < next.history.len() implies (
            #[trigger] next.history[i]).remaining_size.value >= 0real by {
                if i < state.history.len() {
                    assert(next.history[i] == state.history[i]);
                }
            }
        },
        Step::PlaceSwap(event) => {
            assert forall|i: int| 0 <= i < next.history.len() implies (
            #[trigger] next.history[i]).remaining_size.value >= 0real by {
                if i < state.history.len() {
                    assert(next.history[i] == state.history[i]);
                }
            }
        },
        Step::Change(change) => {
            assert forall|i: int| 0 <= i < next.history.len() implies (
            #[trigger] next.history[i]).remaining_size.value >= 0real by {
                assert(state.history[i].remaining_size.value >= 0real);
            }
        },
        Step::Cancel(cancel) => {
            assert forall|i: int| 0 <= i < next.history.len() implies (
            #[trigger] next.history[i]).remaining_size.value >= 0real by {
                assert(state.history[i].remaining_size.value >= 0real);
            }
        },
    }
}

/// What is left of an order is never negative: a run of covered events that
/// starts with nothing negative ends with nothing negative.
pub proof fn lemma_covered_run_keeps_sizes_nonnegative(
    state: StateView,
    registrations: Seq<MarketRegistrationView>,
    steps: Seq<Step>,
)
    requires
        sizes_nonnegative(state.history),
        run_is_covered(state, registrations, steps),
        steps_applied(state, registrations, steps) is Ok,
    ensures
        sizes_nonnegative(steps_applied(state, registrations, steps)->Ok_0.history),
    decreases steps.len(),
{
    if steps.len() > 0 {
        lemma_covered_run_keeps_sizes_nonnegative(state, registrations, steps.drop_last());
        lemma_covered_step_keeps_sizes_nonnegative(
            steps_applied(state, registrations, steps.drop_last())->Ok_0,
            registrations,
            steps.last(),
        );
    }
}

} // verus!
