//! The placement recorder: what a newly placed order adds to the derived
//! tables.

use crate::basics::Address;
use crate::basics::OrderStatus;
use crate::basics::OrderType;
use crate::basics::Timestamp;
use crate::decimal::Decimal;
use crate::engine::find_registration;
use crate::engine::history_contains;
use crate::engine::limits_contain;
use crate::engine::mark_as_aggregated;
use crate::engine::markets_contain;
use crate::engine::priority_stamp;
use crate::engine::swaps_contain;
use crate::engine::DerivedState;
use crate::error::AggregationError;
use crate::events::registration_views;
use crate::events::MarketRegistration;
use crate::events::PlaceLimit;
use crate::events::PlaceMarket;
use crate::events::PlaceSwap;
use crate::model::limit_placed;
use crate::model::limit_row;
use crate::model::market_placed;
use crate::model::market_row;
use crate::model::opened_row;
use crate::model::swap_placed;
use crate::model::swap_row;
use crate::model::swap_size;
use crate::rows::history_views;
use crate::rows::limit_views;
use crate::rows::market_views;
use crate::rows::swap_views;
use crate::rows::UserHistoryLimit;
use crate::rows::UserHistoryMarket;
use crate::rows::UserHistoryRow;
use crate::rows::UserHistorySwap;
use vstd::prelude::*;

verus! {

/// The history row that every placement starts an order with: nothing
/// filled, the whole size remaining, open.
fn open_row(
    market_id: &Decimal,
    order_id: &Decimal,
    time: Timestamp,
    integrator: Address,
    size: Decimal,
    order_type: OrderType,
) -> (r: UserHistoryRow)
    ensures
        r@ == opened_row(market_id@, order_id@, time, integrator, size@, order_type),
{
    UserHistoryRow {
        market_id: market_id.clone(),
        order_id: order_id.clone(),
        created_at: time,
        last_updated_at: None,
        integrator,
        total_filled: Decimal::zero(),
        remaining_size: size,
        order_status: OrderStatus::Open,
        order_type,
    }
}

/// Records a limit order: an extension row that carries the placement's
/// stamp, a history row, and the ledger entry. Where it fails nothing is
/// recorded.
pub fn record_limit_order(tx: &mut DerivedState, event: &PlaceLimit) -> (r: Result<
    (),
    AggregationError,
>)
    ensures
        match limit_placed(old(tx)@, event@) {
            Ok(next) => r is Ok && final(tx)@ == next,
            Err(e) => r == Err::<(), AggregationError>(e) && final(tx)@ == old(tx)@,
        },
{
    let stamp = match priority_stamp(&event.key.txn_version, &event.key.event_idx) {
        Ok(stamp) => stamp,
        Err(e) => {
            return Err(e);
        },
    };
    if limits_contain(&tx.limits, &event.market_id, &event.order_id) {
        return Err(AggregationError::DuplicateOrder);
    }
    if history_contains(&tx.history, &event.market_id, &event.order_id) {
        return Err(AggregationError::DuplicateOrder);
    }
    match mark_as_aggregated(tx, &event.key.txn_version, &event.key.event_idx) {
        Ok(()) => {},
        Err(e) => {
            return Err(e);
        },
    }
    let extension = UserHistoryLimit {
        market_id: event.market_id.clone(),
        order_id: event.order_id.clone(),
        user: event.user,
        custodian_id: event.custodian_id.clone(),
        side: event.side,
        self_match_behavior: event.self_match_behavior,
        restriction: event.restriction,
        price: event.price.clone(),
        last_increase_stamp: stamp,
    };
    let row = open_row(
        &event.market_id,
        &event.order_id,
        event.time,
        event.integrator,
        event.initial_size.clone(),
        OrderType::Limit,
    );
    proof {
        assert(extension@ == limit_row(event@, stamp@));
        assert(limit_views(tx.limits@.push(extension)) =~= limit_views(tx.limits@).push(
            extension@,
        ));
        assert(history_views(tx.history@.push(row)) =~= history_views(tx.history@).push(row@));
    }
    tx.limits.push(extension);
    tx.history.push(row);
    Ok(())
}

/// Records a market order: an extension row, a history row, and the ledger
/// entry. Where it fails nothing is recorded.
pub fn record_market_order(tx: &mut DerivedState, event: &PlaceMarket) -> (r: Result<
    (),
    AggregationError,
>)
    ensures
        match market_placed(old(tx)@, event@) {
            Ok(next) => r is Ok && final(tx)@ == next,
            Err(e) => r == Err::<(), AggregationError>(e) && final(tx)@ == old(tx)@,
        },
{
    if markets_contain(&tx.markets, &event.market_id, &event.order_id) {
        return Err(AggregationError::DuplicateOrder);
    }
    if history_contains(&tx.history, &event.market_id, &event.order_id) {
        return Err(AggregationError::DuplicateOrder);
    }
    match mark_as_aggregated(tx, &event.key.txn_version, &event.key.event_idx) {
        Ok(()) => {},
        Err(e) => {
            return Err(e);
        },
    }
    let extension = UserHistoryMarket {
        market_id: event.market_id.clone(),
        order_id: event.order_id.clone(),
        user: event.user,
        custodian_id: event.custodian_id.clone(),
        direction: event.direction,
        self_match_behavior: event.self_match_behavior,
    };
    let row = open_row(
        &event.market_id,
        &event.order_id,
        event.time,
        event.integrator,
        event.size.clone(),
        OrderType::Market,
    );
    proof {
        assert(extension@ == market_row(event@));
        assert(market_views(tx.markets@.push(extension)) =~= market_views(tx.markets@).push(
            extension@,
        ));
        assert(history_views(tx.history@.push(row)) =~= history_views(tx.history@).push(row@));
    }
    tx.markets.push(extension);
    tx.history.push(row);
    Ok(())
}

/// The size in lots that a swap opens with: its largest base amount divided
/// by the lot size of its market's first registration.
pub fn swap_size_in_lots(registrations: &Vec<MarketRegistration>, event: &PlaceSwap) -> (r: Result<
    Decimal,
    AggregationError,
>)
    ensures
        match swap_size(registration_views(registrations@), event@) {
            Ok(size) => r matches Ok(d) && d@ == size,
            Err(e) => r matches Err(f) && f == e,
        },
{
    match find_registration(registrations, &event.market_id) {
        None => Err(AggregationError::MissingMarketRegistration),
        Some(at) => {
            let lot_size = &registrations[at].lot_size;
            if lot_size.is_zero() {
                Err(AggregationError::ZeroLotSize)
            } else {
                match event.max_base.divided_by(lot_size) {
                    Some(size) => Ok(size),
                    None => Err(AggregationError::SizeOutOfRange),
                }
            }
        },
    }
}

/// Records a swap: an extension row, a history row that opens with the
/// swap's size in lots, and the ledger entry. Where it fails nothing is
/// recorded.
pub fn record_swap_order(
    tx: &mut DerivedState,
    registrations: &Vec<MarketRegistration>,
    event: &PlaceSwap,
) -> (r: Result<(), AggregationError>)
    ensures
        match swap_placed(old(tx)@, registration_views(registrations@), event@) {
            Ok(next) => r is Ok && final(tx)@ == next,
            Err(e) => r == Err::<(), AggregationError>(e) && final(tx)@ == old(tx)@,
        },
{
    if swaps_contain(&tx.swaps, &event.market_id, &event.order_id) {
        return Err(AggregationError::DuplicateOrder);
    }
    let size = match swap_size_in_lots(registrations, event) {
        Ok(size) => size,
        Err(e) => {
            return Err(e);
        },
    };
    if history_contains(&tx.history, &event.market_id, &event.order_id) {
        return Err(AggregationError::DuplicateOrder);
    }
    match mark_as_aggregated(tx, &event.key.txn_version, &event.key.event_idx) {
        Ok(()) => {},
        Err(e) => {
            return Err(e);
        },
    }
    let extension = UserHistorySwap {
        market_id: event.market_id.clone(),
        order_id: event.order_id.clone(),
        direction: event.direction,
        limit_price: event.limit_price.clone(),
        signing_account: event.signing_account,
        min_base: event.min_base.clone(),
        max_base: event.max_base.clone(),
        min_quote: event.min_quote.clone(),
        max_quote: event.max_quote.clone(),
    };
    let row = open_row(
        &event.market_id,
        &event.order_id,
        event.time,
        event.integrator,
        size,
        OrderType::Swap,
    );
    proof {
        assert(extension@ == swap_row(event@));
        assert(swap_views(tx.swaps@.push(extension)) =~= swap_views(tx.swaps@).push(extension@));
        assert(history_views(tx.history@.push(row)) =~= history_views(tx.history@).push(row@));
    }
    tx.swaps.push(extension);
    tx.history.push(row);
    Ok(())
}

} // verus!
