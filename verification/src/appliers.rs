//! The appliers: what a fill, a change of size and a cancel do to the orders
//! they name.

use crate::basics::OrderStatus;
use crate::basics::OrderType;
use crate::basics::Timestamp;
use crate::decimal::Decimal;
use crate::decimal::DecimalView;
use crate::engine::find_history;
use crate::engine::mark_as_aggregated;
use crate::engine::priority_stamp;
use crate::engine::DerivedState;
use crate::error::AggregationError;
use crate::events::Cancel;
use crate::events::ChangeSize;
use crate::events::ChangeSizeView;
use crate::events::Fill;
use crate::events::KeyView;
use crate::model::cancel_aggregated;
use crate::model::cancelled;
use crate::model::change_aggregated;
use crate::model::change_applied;
use crate::model::fill_aggregated;
use crate::model::fill_applied;
use crate::model::filled_row;
use crate::model::resized;
use crate::model::restamped;
use crate::model::StateView;
use crate::rows::HistoryView;
use crate::rows::LimitView;
use crate::rows::UserHistoryLimit;
use crate::rows::UserHistoryRow;
use vstd::prelude::*;

verus! {

/// Takes `size` from what is left of the order `(market_id, order_id)`, adds
/// it to what was filled, and closes the order if it is not a limit order or
/// if nothing is left. An order that is not known is passed over.
pub fn aggregate_fill(
    tx: &mut DerivedState,
    size: &Decimal,
    order_id: &Decimal,
    market_id: &Decimal,
    time: Timestamp,
)
    ensures
        final(tx)@ == (StateView {
            history: fill_applied(
                old(tx)@.history,
                size@,
                market_id@.value,
                order_id@.value,
                time,
            ),
            ..old(tx)@
        }),
{
    let ghost start = tx@;
    let count = tx.history.len();
    let mut i: usize = 0;
    while i < count
        invariant
            i <= count,
            tx.history.len() == count,
            start.history.len() == count,
            tx@.limits == start.limits,
            tx@.markets == start.markets,
            tx@.swaps == start.swaps,
            tx@.ledger == start.ledger,
            forall|j: int|
                0 <= j < i ==> (#[trigger] tx.history@[j])@ == fill_applied(
                    start.history,
                    size@,
                    market_id@.value,
                    order_id@.value,
                    time,
                )[j],
            forall|j: int|
                i <= j < count ==> (#[trigger] tx.history@[j])@ == start.history[j],
        decreases count - i,
    {
        let row = &tx.history[i];
        if row.market_id.same_number(market_id) && row.order_id.same_number(order_id) {
            let left = row.remaining_size.minus(size);
            let status = match row.order_type {
                OrderType::Limit => if left.is_zero() {
                    OrderStatus::Closed
                } else {
                    row.order_status
                },
                _ => OrderStatus::Closed,
            };
            let next = UserHistoryRow {
                market_id: row.market_id.clone(),
                order_id: row.order_id.clone(),
                created_at: row.created_at,
                last_updated_at: Some(time),
                integrator: row.integrator,
                total_filled: row.total_filled.plus(size),
                remaining_size: left,
                order_status: status,
                order_type: row.order_type,
            };
            assert(next@ == filled_row(start.history[i as int], size@, time));
            tx.history.set(i, next);
        }
        i += 1;
    }
    assert(tx@.history =~= fill_applied(
        start.history,
        size@,
        market_id@.value,
        order_id@.value,
        time,
    ));
}

/// Applies one fill to the maker's order and then to the taker's.
pub fn aggregate_fill_for_maker_and_taker(
    tx: &mut DerivedState,
    size: &Decimal,
    maker_order_id: &Decimal,
    taker_order_id: &Decimal,
    market_id: &Decimal,
    time: Timestamp,
)
    ensures
        final(tx)@ == (StateView {
            history: fill_applied(
                fill_applied(
                    old(tx)@.history,
                    size@,
                    market_id@.value,
                    maker_order_id@.value,
                    time,
                ),
                size@,
                market_id@.value,
                taker_order_id@.value,
                time,
            ),
            ..old(tx)@
        }),
{
    aggregate_fill(tx, size, maker_order_id, market_id, time);
    aggregate_fill(tx, size, taker_order_id, market_id, time);
}

/// Folds one fill in. Only the copy emitted to the maker's own handle changes
/// the orders; every copy is entered in the ledger. Where the ledger holds
/// the fill already, nothing changes.
pub fn aggregate_fill_event(tx: &mut DerivedState, fill: &Fill) -> (r: Result<
    (),
    AggregationError,
>)
    ensures
        match fill_aggregated(old(tx)@, fill@) {
            Ok(next) => r is Ok && final(tx)@ == next,
            Err(e) => r == Err::<(), AggregationError>(e) && final(tx)@ == old(tx)@,
        },
{
    match mark_as_aggregated(tx, &fill.key.txn_version, &fill.key.event_idx) {
        Ok(()) => {},
        Err(e) => {
            return Err(e);
        },
    }
    if fill.maker_address == fill.emit_address {
        aggregate_fill_for_maker_and_taker(
            tx,
            &fill.size,
            &fill.maker_order_id,
            &fill.taker_order_id,
            &fill.market_id,
            fill.time,
        );
    }
    Ok(())
}

/// Gives the limit order `(market_id, order_id)` a new stamp.
fn restamp(tx: &mut DerivedState, market_id: &Decimal, order_id: &Decimal, stamp: &Decimal)
    ensures
        final(tx)@ == (StateView {
            limits: restamped(old(tx)@.limits, market_id@.value, order_id@.value, stamp@),
            ..old(tx)@
        }),
{
    let ghost start = tx@;
    let count = tx.limits.len();
    let mut i: usize = 0;
    while i < count
        invariant
            i <= count,
            tx.limits.len() == count,
            start.limits.len() == count,
            tx@.history == start.history,
            tx@.markets == start.markets,
            tx@.swaps == start.swaps,
            tx@.ledger == start.ledger,
            forall|j: int|
                0 <= j < i ==> (#[trigger] tx.limits@[j])@ == restamped(
                    start.limits,
                    market_id@.value,
                    order_id@.value,
                    stamp@,
                )[j],
            forall|j: int|
                i <= j < count ==> (#[trigger] tx.limits@[j])@ == start.limits[j],
        decreases count - i,
    {
        let row = &tx.limits[i];
        if row.market_id.same_number(market_id) && row.order_id.same_number(order_id) {
            let next = UserHistoryLimit {
                market_id: row.market_id.clone(),
                order_id: row.order_id.clone(),
                user: row.user,
                custodian_id: row.custodian_id.clone(),
                side: row.side,
                self_match_behavior: row.self_match_behavior,
                restriction: row.restriction,
                price: row.price.clone(),
                last_increase_stamp: stamp.clone(),
            };
            assert(next@ == (LimitView { last_increase_stamp: stamp@, ..start.limits[i as int] }));
            tx.limits.set(i, next);
        }
        i += 1;
    }
    assert(tx@.limits =~= restamped(start.limits, market_id@.value, order_id@.value, stamp@));
}

/// Sets what is left of the order `(market_id, order_id)` to `new_size`.
fn resize(
    tx: &mut DerivedState,
    new_size: &Decimal,
    market_id: &Decimal,
    order_id: &Decimal,
    time: Timestamp,
)
    ensures
        final(tx)@ == (StateView {
            history: resized(
                old(tx)@.history,
                new_size@,
                market_id@.value,
                order_id@.value,
                time,
            ),
            ..old(tx)@
        }),
{
    let ghost start = tx@;
    let count = tx.history.len();
    let mut i: usize = 0;
    while i < count
        invariant
            i <= count,
            tx.history.len() == count,
            start.history.len() == count,
            tx@.limits == start.limits,
            tx@.markets == start.markets,
            tx@.swaps == start.swaps,
            tx@.ledger == start.ledger,
            forall|j: int|
                0 <= j < i ==> (#[trigger] tx.history@[j])@ == resized(
                    start.history,
                    new_size@,
                    market_id@.value,
                    order_id@.value,
                    time,
                )[j],
            forall|j: int|
                i <= j < count ==> (#[trigger] tx.history@[j])@ == start.history[j],
        decreases count - i,
    {
        let row = &tx.history[i];
        if row.market_id.same_number(market_id) && row.order_id.same_number(order_id) {
            let next = UserHistoryRow {
                market_id: row.market_id.clone(),
                order_id: row.order_id.clone(),
                created_at: row.created_at,
                last_updated_at: Some(time),
                integrator: row.integrator,
                total_filled: row.total_filled.clone(),
                remaining_size: new_size.clone(),
                order_status: row.order_status,
                order_type: row.order_type,
            };
            assert(next@ == (HistoryView {
                remaining_size: new_size@,
                last_updated_at: Some(time),
                ..start.history[i as int]
            }));
            tx.history.set(i, next);
        }
        i += 1;
    }
    assert(tx@.history =~= resized(
        start.history,
        new_size@,
        market_id@.value,
        order_id@.value,
        time,
    ));
}

/// The tables after a change of size that gives the order this stamp, if
/// any.
pub open spec fn changed_with(
    state: StateView,
    stamp: Option<DecimalView>,
    new_size: DecimalView,
    market: real,
    order: real,
    time: Timestamp,
) -> StateView {
    match stamp {
        Some(stamp) => StateView {
            limits: restamped(state.limits, market, order, stamp),
            history: resized(state.history, new_size, market, order, time),
            ..state
        },
        None => StateView {
            history: resized(state.history, new_size, market, order, time),
            ..state
        },
    }
}

/// Looks a change of size over before anything is touched: the order has to
/// be known, and where a limit order grows, the stamp it takes has to be
/// made. Gives the stamp, if the order takes one.
fn stamp_for_change(
    tx: &DerivedState,
    new_size: &Decimal,
    order_id: &Decimal,
    market_id: &Decimal,
    time: Timestamp,
    txn_version: &Decimal,
    event_idx: &Decimal,
) -> (r: Result<Option<Decimal>, AggregationError>)
    ensures
        match change_applied(
            tx@,
            ChangeSizeView {
                key: KeyView { txn_version: txn_version@, event_idx: event_idx@ },
                market_id: market_id@,
                order_id: order_id@,
                new_size: new_size@,
                time,
            },
        ) {
            Ok(next) => r is Ok && next == changed_with(
                tx@,
                match r->Ok_0 {
                    Some(stamp) => Some(stamp@),
                    None => None,
                },
                new_size@,
                market_id@.value,
                order_id@.value,
                time,
            ),
            Err(e) => r matches Err(f) && f == e,
        },
{
    let at = match find_history(&tx.history, market_id, order_id) {
        Some(at) => at,
        None => {
            return Err(AggregationError::UnknownOrder);
        },
    };
    let grows = match tx.history[at].order_type {
        OrderType::Limit => tx.history[at].remaining_size.less_than(new_size),
        _ => false,
    };
    if grows {
        match priority_stamp(txn_version, event_idx) {
            Ok(stamp) => Ok(Some(stamp)),
            Err(e) => Err(e),
        }
    } else {
        Ok(None)
    }
}

/// Sets the order's open size, and its stamp if it takes one.
fn apply_change(
    tx: &mut DerivedState,
    stamp: Option<Decimal>,
    new_size: &Decimal,
    order_id: &Decimal,
    market_id: &Decimal,
    time: Timestamp,
)
    ensures
        final(tx)@ == changed_with(
            old(tx)@,
            match stamp {
                Some(stamp) => Some(stamp@),
                None => None,
            },
            new_size@,
            market_id@.value,
            order_id@.value,
            time,
        ),
{
    match stamp {
        Some(stamp) => {
            restamp(tx, market_id, order_id, &stamp);
        },
        None => {},
    }
    resize(tx, new_size, market_id, order_id, time);
}

/// Sets an order's open size. A limit order whose size grows loses its place
/// in the queue: it takes the stamp of this event. The order has to be
/// known; where it is not, or where the stamp cannot be made, nothing
/// changes.
pub fn aggregate_change(
    tx: &mut DerivedState,
    new_size: &Decimal,
    order_id: &Decimal,
    market_id: &Decimal,
    time: Timestamp,
    txn_version: &Decimal,
    event_idx: &Decimal,
) -> (r: Result<(), AggregationError>)
    ensures
        match change_applied(
            old(tx)@,
            ChangeSizeView {
                key: KeyView { txn_version: txn_version@, event_idx: event_idx@ },
                market_id: market_id@,
                order_id: order_id@,
                new_size: new_size@,
                time,
            },
        ) {
            Ok(next) => r is Ok && final(tx)@ == next,
            Err(e) => r == Err::<(), AggregationError>(e) && final(tx)@ == old(tx)@,
        },
{
    match stamp_for_change(tx, new_size, order_id, market_id, time, txn_version, event_idx) {
        Ok(stamp) => {
            apply_change(tx, stamp, new_size, order_id, market_id, time);
            Ok(())
        },
        Err(e) => Err(e),
    }
}

/// Folds one change of size in and enters it in the ledger. Where it fails
/// nothing changes.
pub fn aggregate_change_event(tx: &mut DerivedState, change: &ChangeSize) -> (r: Result<
    (),
    AggregationError,
>)
    ensures
        match change_aggregated(old(tx)@, change@) {
            Ok(next) => r is Ok && final(tx)@ == next,
            Err(e) => r == Err::<(), AggregationError>(e) && final(tx)@ == old(tx)@,
        },
{
    let stamp = match stamp_for_change(
        tx,
        &change.new_size,
        &change.order_id,
        &change.market_id,
        change.time,
        &change.key.txn_version,
        &change.key.event_idx,
    ) {
        Ok(stamp) => stamp,
        Err(e) => {
            return Err(e);
        },
    };
    match mark_as_aggregated(tx, &change.key.txn_version, &change.key.event_idx) {
        Ok(()) => {},
        Err(e) => {
            return Err(e);
        },
    }
    apply_change(
        tx,
        stamp,
        &change.new_size,
        &change.order_id,
        &change.market_id,
        change.time,
    );
    Ok(())
}

/// Folds one cancel in: the order, if it is known, is cancelled as of the
/// cancel's time, and the cancel is entered in the ledger either way. Where
/// the ledger holds the cancel already, nothing changes.
pub fn aggregate_cancel_event(tx: &mut DerivedState, cancel: &Cancel) -> (r: Result<
    (),
    AggregationError,
>)
    ensures
        match cancel_aggregated(old(tx)@, cancel@) {
            Ok(next) => r is Ok && final(tx)@ == next,
            Err(e) => r == Err::<(), AggregationError>(e) && final(tx)@ == old(tx)@,
        },
{
    match mark_as_aggregated(tx, &cancel.key.txn_version, &cancel.key.event_idx) {
        Ok(()) => {},
        Err(e) => {
            return Err(e);
        },
    }
    let ghost start = tx@;
    let count = tx.history.len();
    let mut i: usize = 0;
    while i < count
        invariant
            i <= count,
            tx.history.len() == count,
            start.history.len() == count,
            tx@.limits == start.limits,
            tx@.markets == start.markets,
            tx@.swaps == start.swaps,
            tx@.ledger == start.ledger,
            forall|j: int|
                0 <= j < i ==> (#[trigger] tx.history@[j])@ == cancelled(
                    start.history,
                    cancel@.market_id.value,
                    cancel@.order_id.value,
                    cancel@.time,
                )[j],
            forall|j: int|
                i <= j < count ==> (#[trigger] tx.history@[j])@ == start.history[j],
        decreases count - i,
    {
        let row = &tx.history[i];
        if row.market_id.same_number(&cancel.market_id) && row.order_id.same_number(
            &cancel.order_id,
        ) {
            let next = UserHistoryRow {
                market_id: row.market_id.clone(),
                order_id: row.order_id.clone(),
                created_at: row.created_at,
                last_updated_at: Some(cancel.time),
                integrator: row.integrator,
                total_filled: row.total_filled.clone(),
                remaining_size: row.remaining_size.clone(),
                order_status: OrderStatus::Cancelled,
                order_type: row.order_type,
            };
            assert(next@ == (HistoryView {
                order_status: OrderStatus::Cancelled,
                last_updated_at: Some(cancel.time),
                ..start.history[i as int]
            }));
            tx.history.set(i, next);
        }
        i += 1;
    }
    assert(tx@.history =~= cancelled(
        start.history,
        cancel@.market_id.value,
        cancel@.order_id.value,
        cancel@.time,
    ));
    Ok(())
}

} // verus!
