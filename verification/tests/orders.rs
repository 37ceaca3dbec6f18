use aggregator::basics::{Address, OrderStatus, OrderType, Side, Timestamp};
use aggregator::decimal::Decimal;
use aggregator::engine::DerivedState;
use aggregator::error::AggregationError;
use aggregator::events::{
    Cancel, ChangeSize, EventKey, Fill, MarketRegistration, PlaceLimit, PlaceMarket, PlaceSwap,
};
use aggregator::loader::EventTables;
use aggregator::pass::{aggregate, Batches};
use aggregator::sequencer::{merge_order, Turn};
use aggregator::user_history::UserHistory;
use bigdecimal::BigDecimal;
use std::str::FromStr;

const T0: Timestamp = Timestamp { micros: 1_000_000 };
const T1: Timestamp = Timestamp { micros: 2_000_000 };
const T2: Timestamp = Timestamp { micros: 3_000_000 };
const A: Address = Address { high: 0, low: 0xA };
const B: Address = Address { high: 0, low: 0xB };

fn dec(text: &str) -> Decimal {
    Decimal::from_big(BigDecimal::from_str(text).unwrap()).unwrap()
}

fn big(text: &str) -> BigDecimal {
    BigDecimal::from_str(text).unwrap()
}

fn key(txn: &str, idx: &str) -> EventKey {
    EventKey { txn_version: dec(txn), event_idx: dec(idx) }
}

fn limit(txn: &str, idx: &str, market: &str, order: &str, size: &str, time: Timestamp) -> PlaceLimit {
    PlaceLimit {
        key: key(txn, idx),
        market_id: dec(market),
        order_id: dec(order),
        user: A,
        custodian_id: dec("0"),
        side: Side::Bid,
        self_match_behavior: 0,
        restriction: 0,
        price: dec("10"),
        initial_size: dec(size),
        integrator: B,
        time,
    }
}

fn market(txn: &str, idx: &str, market: &str, order: &str, size: &str, time: Timestamp) -> PlaceMarket {
    PlaceMarket {
        key: key(txn, idx),
        market_id: dec(market),
        order_id: dec(order),
        user: A,
        custodian_id: dec("0"),
        direction: 1,
        self_match_behavior: 0,
        integrator: B,
        size: dec(size),
        time,
    }
}

fn swap(txn: &str, idx: &str, market: &str, order: &str, max_base: &str, time: Timestamp) -> PlaceSwap {
    PlaceSwap {
        key: key(txn, idx),
        market_id: dec(market),
        order_id: dec(order),
        direction: 0,
        limit_price: dec("7"),
        signing_account: A,
        min_base: dec("1"),
        max_base: dec(max_base),
        min_quote: dec("2"),
        max_quote: dec("3"),
        integrator: B,
        time,
    }
}

fn fill(
    txn: &str,
    idx: &str,
    market: &str,
    maker: &str,
    taker: &str,
    size: &str,
    emit: Address,
    time: Timestamp,
) -> Fill {
    Fill {
        key: key(txn, idx),
        market_id: dec(market),
        maker_order_id: dec(maker),
        taker_order_id: dec(taker),
        size: dec(size),
        maker_address: A,
        emit_address: emit,
        time,
    }
}

fn change(txn: &str, idx: &str, market: &str, order: &str, new_size: &str, time: Timestamp) -> ChangeSize {
    ChangeSize {
        key: key(txn, idx),
        market_id: dec(market),
        order_id: dec(order),
        new_size: dec(new_size),
        time,
    }
}

fn cancel(txn: &str, idx: &str, market: &str, order: &str, time: Timestamp) -> Cancel {
    Cancel { key: key(txn, idx), market_id: dec(market), order_id: dec(order), time }
}

fn no_tables() -> EventTables {
    EventTables {
        place_limit_order_events: vec![],
        place_market_order_events: vec![],
        place_swap_order_events: vec![],
        fill_events: vec![],
        change_order_size_events: vec![],
        cancel_order_events: vec![],
        market_registration_events: vec![],
    }
}

fn no_batches() -> Batches {
    Batches {
        place_limits: vec![],
        place_markets: vec![],
        place_swaps: vec![],
        fills: vec![],
        changes: vec![],
        cancels: vec![],
    }
}

fn stamp_of(state: &DerivedState, market: &str, order: &str) -> BigDecimal {
    let row = state
        .limits
        .iter()
        .find(|row| row.market_id.to_big() == big(market) && row.order_id.to_big() == big(order))
        .unwrap();
    row.last_increase_stamp.to_big()
}

#[test]
fn limit_fully_filled() {
    let mut tables = no_tables();
    tables.place_limit_order_events.push(limit("1", "0", "1", "100", "5", T0));
    tables.fill_events.push(fill("2", "0", "1", "100", "200", "5", A, T1));
    let mut aggregator = UserHistory::new(DerivedState::new());
    assert_eq!(aggregator.tick_at(&tables, T2), Ok(()));
    let row = aggregator.store().history_of(&dec("1"), &dec("100")).unwrap();
    assert_eq!(row.remaining_size.to_big(), big("0"));
    assert_eq!(row.total_filled.to_big(), big("5"));
    assert_eq!(row.order_status, OrderStatus::Closed);
    assert_eq!(row.order_type, OrderType::Limit);
    assert_eq!(row.last_updated_at, Some(T1));
    assert_eq!(row.created_at, T0);
    assert_eq!(aggregator.store().ledger.len(), 2);
}

#[test]
fn dedup_of_cross_handle_fill() {
    let mut tables = no_tables();
    tables.place_limit_order_events.push(limit("1", "0", "1", "100", "5", T0));
    tables.fill_events.push(fill("2", "0", "1", "100", "200", "2", A, T1));
    tables.fill_events.push(fill("2", "1", "1", "100", "200", "2", B, T1));
    let mut aggregator = UserHistory::new(DerivedState::new());
    assert_eq!(aggregator.tick_at(&tables, T2), Ok(()));
    let row = aggregator.store().history_of(&dec("1"), &dec("100")).unwrap();
    assert_eq!(row.remaining_size.to_big(), big("3"));
    assert_eq!(row.total_filled.to_big(), big("2"));
    assert_eq!(row.order_status, OrderStatus::Open);
    assert!(aggregator.store().is_aggregated(&key("2", "0")));
    assert!(aggregator.store().is_aggregated(&key("2", "1")));
    assert_eq!(aggregator.store().ledger.len(), 3);
}

#[test]
fn size_increase_reprioritizes() {
    let mut tables = no_tables();
    tables.place_limit_order_events.push(limit("1", "0", "1", "100", "5", T0));
    let mut aggregator = UserHistory::new(DerivedState::new());
    assert_eq!(aggregator.tick_at(&tables, T0), Ok(()));
    assert_eq!(stamp_of(aggregator.store(), "1", "100"), big("18446744073709551616"));

    tables.change_order_size_events.push(change("5", "3", "1", "100", "6", T1));
    assert_eq!(aggregator.tick_at(&tables, T1), Ok(()));
    assert_eq!(stamp_of(aggregator.store(), "1", "100"), big("92233720368547758083"));

    tables.change_order_size_events.push(change("7", "0", "1", "100", "4", T2));
    assert_eq!(aggregator.tick_at(&tables, T2), Ok(()));
    assert_eq!(stamp_of(aggregator.store(), "1", "100"), big("92233720368547758083"));
    let row = aggregator.store().history_of(&dec("1"), &dec("100")).unwrap();
    assert_eq!(row.remaining_size.to_big(), big("4"));
    assert_eq!(row.total_filled.to_big(), big("0"));
    assert_eq!(row.last_updated_at, Some(T2));
}

#[test]
fn market_order_fill_then_cancel_in_same_txn() {
    let mut tables = no_tables();
    tables.place_market_order_events.push(market("1", "0", "1", "100", "4", T0));
    tables.fill_events.push(fill("2", "0", "1", "300", "100", "3", A, T1));
    tables.cancel_order_events.push(cancel("2", "1", "1", "100", T2));
    let mut aggregator = UserHistory::new(DerivedState::new());
    assert_eq!(aggregator.tick_at(&tables, T2), Ok(()));
    let row = aggregator.store().history_of(&dec("1"), &dec("100")).unwrap();
    assert_eq!(row.order_status, OrderStatus::Cancelled);
    assert_eq!(row.total_filled.to_big(), big("3"));
    assert_eq!(row.remaining_size.to_big(), big("1"));
    assert_eq!(row.last_updated_at, Some(T2));
    assert_eq!(row.order_type, OrderType::Market);
}

#[test]
fn replay_safety() {
    let mut tables = no_tables();
    tables.place_limit_order_events.push(limit("1", "0", "1", "100", "5", T0));
    tables.fill_events.push(fill("2", "0", "1", "100", "200", "5", A, T1));
    let mut aggregator = UserHistory::new(DerivedState::new());
    assert_eq!(aggregator.tick_at(&tables, T1), Ok(()));
    assert_eq!(aggregator.tick_at(&tables, T2), Ok(()));
    assert_eq!(aggregator.store().history.len(), 1);
    assert_eq!(aggregator.store().limits.len(), 1);
    assert_eq!(aggregator.store().ledger.len(), 2);
    let row = aggregator.store().history_of(&dec("1"), &dec("100")).unwrap();
    assert_eq!(row.remaining_size.to_big(), big("0"));
    assert_eq!(row.total_filled.to_big(), big("5"));
    assert_eq!(row.order_status, OrderStatus::Closed);
    assert_eq!(row.last_updated_at, Some(T1));
    assert_eq!(aggregator.last_indexed_timestamp(), Some(T2));
}

#[test]
fn merge_ordering() {
    let fills = vec![
        fill("1", "2", "1", "100", "200", "1", A, T0),
        fill("3", "0", "1", "100", "200", "1", A, T0),
    ];
    let changes = vec![change("1", "5", "1", "100", "9", T0), change("2", "0", "1", "100", "9", T0)];
    assert_eq!(
        merge_order(&fills, &changes),
        vec![Turn::Fill(0), Turn::Change(0), Turn::Change(1), Turn::Fill(1)]
    );
}

#[test]
fn merge_takes_what_is_left_of_either_batch() {
    let fills = vec![fill("1", "0", "1", "100", "200", "1", A, T0)];
    let none: Vec<ChangeSize> = vec![];
    assert_eq!(merge_order(&fills, &none), vec![Turn::Fill(0)]);
    let changes = vec![change("1", "5", "1", "100", "9", T0)];
    let no_fills: Vec<Fill> = vec![];
    assert_eq!(merge_order(&no_fills, &changes), vec![Turn::Change(0)]);
    assert_eq!(merge_order(&no_fills, &none), vec![]);
}

#[test]
fn merge_compares_index_within_one_transaction() {
    let fills = vec![fill("4", "7", "1", "100", "200", "1", A, T0)];
    let changes = vec![change("4", "6", "1", "100", "9", T0)];
    assert_eq!(merge_order(&fills, &changes), vec![Turn::Change(0), Turn::Fill(0)]);
}

#[test]
fn fill_equal_to_remaining_closes_limit_order() {
    let mut state = DerivedState::new();
    let mut batches = no_batches();
    batches.place_limits.push(limit("1", "0", "1", "100", "2.50", T0));
    batches.fills.push(fill("2", "0", "1", "100", "200", "2.5", A, T1));
    assert_eq!(aggregate(&mut state, &batches, &vec![]), Ok(()));
    let row = state.history_of(&dec("1"), &dec("100")).unwrap();
    assert_eq!(row.order_status, OrderStatus::Closed);
    assert!(row.remaining_size.is_zero());
}

#[test]
fn partial_fill_leaves_limit_order_open() {
    let mut state = DerivedState::new();
    let mut batches = no_batches();
    batches.place_limits.push(limit("1", "0", "1", "100", "5", T0));
    batches.fills.push(fill("2", "0", "1", "100", "200", "4", A, T1));
    assert_eq!(aggregate(&mut state, &batches, &vec![]), Ok(()));
    let row = state.history_of(&dec("1"), &dec("100")).unwrap();
    assert_eq!(row.order_status, OrderStatus::Open);
    assert_eq!(row.remaining_size.to_big(), big("1"));
    assert_eq!(row.total_filled.to_big(), big("4"));
}

#[test]
fn fill_touches_maker_and_taker() {
    let mut state = DerivedState::new();
    let mut batches = no_batches();
    batches.place_limits.push(limit("1", "0", "1", "100", "5", T0));
    batches.place_markets.push(market("1", "1", "1", "200", "3", T0));
    batches.fills.push(fill("2", "0", "1", "100", "200", "3", A, T1));
    assert_eq!(aggregate(&mut state, &batches, &vec![]), Ok(()));
    let maker = state.history_of(&dec("1"), &dec("100")).unwrap();
    assert_eq!(maker.remaining_size.to_big(), big("2"));
    assert_eq!(maker.total_filled.to_big(), big("3"));
    assert_eq!(maker.order_status, OrderStatus::Open);
    let taker = state.history_of(&dec("1"), &dec("200")).unwrap();
    assert_eq!(taker.remaining_size.to_big(), big("0"));
    assert_eq!(taker.total_filled.to_big(), big("3"));
    assert_eq!(taker.order_status, OrderStatus::Closed);
    assert_eq!(taker.last_updated_at, Some(T1));
}

#[test]
fn market_order_closes_at_first_fill() {
    let mut state = DerivedState::new();
    let mut batches = no_batches();
    batches.place_markets.push(market("1", "0", "1", "100", "4", T0));
    batches.fills.push(fill("2", "0", "1", "300", "100", "1", A, T1));
    assert_eq!(aggregate(&mut state, &batches, &vec![]), Ok(()));
    let row = state.history_of(&dec("1"), &dec("100")).unwrap();
    assert_eq!(row.order_status, OrderStatus::Closed);
    assert_eq!(row.remaining_size.to_big(), big("3"));
}

#[test]
fn swap_opens_with_size_in_lots_and_closes_at_first_fill() {
    let mut state = DerivedState::new();
    let mut batches = no_batches();
    batches.place_swaps.push(swap("1", "0", "1", "100", "10", T0));
    let registrations = vec![
        MarketRegistration { market_id: dec("2"), lot_size: dec("5") },
        MarketRegistration { market_id: dec("1"), lot_size: dec("4") },
    ];
    assert_eq!(aggregate(&mut state, &batches, &registrations), Ok(()));
    let row = state.history_of(&dec("1"), &dec("100")).unwrap();
    assert_eq!(row.remaining_size.to_big(), big("2.5"));
    assert_eq!(row.order_type, OrderType::Swap);
    assert_eq!(row.order_status, OrderStatus::Open);
    assert_eq!(state.swaps.len(), 1);
    assert_eq!(state.swaps[0].max_base.to_big(), big("10"));

    let mut next = no_batches();
    next.fills.push(fill("2", "0", "1", "300", "100", "1", A, T1));
    assert_eq!(aggregate(&mut state, &next, &registrations), Ok(()));
    let row = state.history_of(&dec("1"), &dec("100")).unwrap();
    assert_eq!(row.order_status, OrderStatus::Closed);
    assert_eq!(row.remaining_size.to_big(), big("1.5"));
}

#[test]
fn change_to_equal_size_keeps_stamp() {
    let mut state = DerivedState::new();
    let mut batches = no_batches();
    batches.place_limits.push(limit("1", "0", "1", "100", "5", T0));
    batches.changes.push(change("5", "3", "1", "100", "5.0", T1));
    assert_eq!(aggregate(&mut state, &batches, &vec![]), Ok(()));
    assert_eq!(stamp_of(&state, "1", "100"), big("18446744073709551616"));
    let row = state.history_of(&dec("1"), &dec("100")).unwrap();
    assert_eq!(row.remaining_size.to_big(), big("5"));
    assert_eq!(row.last_updated_at, Some(T1));
}

#[test]
fn change_of_market_order_sets_size_only() {
    let mut state = DerivedState::new();
    let mut batches = no_batches();
    batches.place_markets.push(market("1", "0", "1", "100", "4", T0));
    batches.changes.push(change("5.5", "3", "1", "100", "9", T1));
    assert_eq!(aggregate(&mut state, &batches, &vec![]), Ok(()));
    let row = state.history_of(&dec("1"), &dec("100")).unwrap();
    assert_eq!(row.remaining_size.to_big(), big("9"));
    assert_eq!(row.order_status, OrderStatus::Open);
}

#[test]
fn fill_from_other_handle_is_ledgered_only() {
    let mut state = DerivedState::new();
    let mut batches = no_batches();
    batches.place_limits.push(limit("1", "0", "1", "100", "5", T0));
    batches.fills.push(fill("2", "0", "1", "100", "200", "2", B, T1));
    assert_eq!(aggregate(&mut state, &batches, &vec![]), Ok(()));
    let row = state.history_of(&dec("1"), &dec("100")).unwrap();
    assert_eq!(row.remaining_size.to_big(), big("5"));
    assert_eq!(row.total_filled.to_big(), big("0"));
    assert_eq!(row.last_updated_at, None);
    assert!(state.is_aggregated(&key("2", "0")));
}

#[test]
fn cancel_of_unknown_order_is_ledgered_only() {
    let mut state = DerivedState::new();
    let mut batches = no_batches();
    batches.cancels.push(cancel("3", "0", "1", "100", T1));
    assert_eq!(aggregate(&mut state, &batches, &vec![]), Ok(()));
    assert_eq!(state.history.len(), 0);
    assert!(state.is_aggregated(&key("3", "0")));
    assert!(!state.is_aggregated(&key("3", "1")));
}

#[test]
fn cancel_marks_order_cancelled() {
    let mut state = DerivedState::new();
    let mut batches = no_batches();
    batches.place_limits.push(limit("1", "0", "1", "100", "5", T0));
    batches.place_limits.push(limit("1", "1", "1", "101", "5", T0));
    batches.cancels.push(cancel("3", "0", "1", "100", T1));
    assert_eq!(aggregate(&mut state, &batches, &vec![]), Ok(()));
    let row = state.history_of(&dec("1"), &dec("100")).unwrap();
    assert_eq!(row.order_status, OrderStatus::Cancelled);
    assert_eq!(row.last_updated_at, Some(T1));
    let other = state.history_of(&dec("1"), &dec("101")).unwrap();
    assert_eq!(other.order_status, OrderStatus::Open);
    assert_eq!(other.last_updated_at, None);
}

#[test]
fn failure_leaves_tables_untouched() {
    let mut state = DerivedState::new();
    let mut first = no_batches();
    first.place_limits.push(limit("1", "0", "1", "100", "5", T0));
    assert_eq!(aggregate(&mut state, &first, &vec![]), Ok(()));

    let mut second = no_batches();
    second.place_limits.push(limit("2", "0", "1", "101", "5", T0));
    second.fills.push(fill("3", "0", "1", "100", "200", "1", A, T1));
    second.changes.push(change("4", "0", "1", "999", "1", T1));
    assert_eq!(aggregate(&mut state, &second, &vec![]), Err(AggregationError::UnknownOrder));
    assert_eq!(state.history.len(), 1);
    assert_eq!(state.ledger.len(), 1);
    let row = state.history_of(&dec("1"), &dec("100")).unwrap();
    assert_eq!(row.remaining_size.to_big(), big("5"));
    assert_eq!(row.last_updated_at, None);
}

#[test]
fn failed_tick_records_no_run() {
    let mut tables = no_tables();
    tables.change_order_size_events.push(change("4", "0", "1", "999", "1", T1));
    let mut aggregator = UserHistory::new(DerivedState::new());
    assert_eq!(aggregator.tick_at(&tables, T1), Err(AggregationError::UnknownOrder));
    assert_eq!(aggregator.last_indexed_timestamp(), None);
    assert!(aggregator.ready_at(T1));
    assert_eq!(aggregator.store().ledger.len(), 0);
}

#[test]
fn errors_of_a_pass() {
    let mut state = DerivedState::new();
    let mut batches = no_batches();
    batches.place_limits.push(limit("1.5", "0", "1", "100", "5", T0));
    assert_eq!(aggregate(&mut state, &batches, &vec![]), Err(AggregationError::TxnVersionNotInteger));

    let mut batches = no_batches();
    batches.place_limits.push(limit("1", "0.25", "1", "100", "5", T0));
    assert_eq!(aggregate(&mut state, &batches, &vec![]), Err(AggregationError::EventIdxNotInteger));

    let mut batches = no_batches();
    batches.place_swaps.push(swap("1", "0", "1", "100", "10", T0));
    assert_eq!(
        aggregate(&mut state, &batches, &vec![]),
        Err(AggregationError::MissingMarketRegistration)
    );
    let zero_lot = vec![MarketRegistration { market_id: dec("1"), lot_size: dec("0.00") }];
    assert_eq!(aggregate(&mut state, &batches, &zero_lot), Err(AggregationError::ZeroLotSize));

    let mut batches = no_batches();
    batches.place_limits.push(limit("1", "0", "1", "100", "5", T0));
    batches.place_limits.push(limit("1", "1", "1.0", "100", "6", T0));
    assert_eq!(aggregate(&mut state, &batches, &vec![]), Err(AggregationError::DuplicateOrder));

    let mut batches = no_batches();
    batches.place_limits.push(limit("1", "0", "1", "100", "5", T0));
    batches.place_markets.push(market("1", "1", "1", "100", "6", T0));
    assert_eq!(aggregate(&mut state, &batches, &vec![]), Err(AggregationError::DuplicateOrder));

    let mut batches = no_batches();
    batches.changes.push(change("1", "0", "1", "100", "5", T0));
    assert_eq!(aggregate(&mut state, &batches, &vec![]), Err(AggregationError::UnknownOrder));

    let mut batches = no_batches();
    batches.cancels.push(cancel("1", "0", "1", "100", T0));
    batches.cancels.push(cancel("1.0", "0", "1", "101", T0));
    assert_eq!(aggregate(&mut state, &batches, &vec![]), Err(AggregationError::LedgerCollision));

    assert_eq!(state.history.len(), 0);
    assert_eq!(state.ledger.len(), 0);
}

#[test]
fn swap_size_out_of_range() {
    let mut state = DerivedState::new();
    let mut batches = no_batches();
    let mut event = swap("1", "0", "1", "100", "10", T0);
    event.max_base = Decimal::from_big(BigDecimal::new(1.into(), 1_000_000)).unwrap();
    batches.place_swaps.push(event);
    let registrations = vec![MarketRegistration {
        market_id: dec("1"),
        lot_size: Decimal::from_big(BigDecimal::new(1.into(), -1_000_000)).unwrap(),
    }];
    assert_eq!(
        aggregate(&mut state, &batches, &registrations),
        Err(AggregationError::SizeOutOfRange)
    );
}

#[test]
fn size_increase_with_fractional_position_fails() {
    let mut state = DerivedState::new();
    let mut batches = no_batches();
    batches.place_limits.push(limit("1", "0", "1", "100", "5", T0));
    batches.changes.push(change("5", "3.5", "1", "100", "6", T1));
    assert_eq!(aggregate(&mut state, &batches, &vec![]), Err(AggregationError::EventIdxNotInteger));
    let mut batches = no_batches();
    batches.place_limits.push(limit("1", "0", "1", "100", "5", T0));
    batches.changes.push(change("5", "3.5", "1", "100", "4", T1));
    assert_eq!(aggregate(&mut state, &batches, &vec![]), Ok(()));
}
