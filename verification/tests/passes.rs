use aggregator::basics::{Address, OrderStatus, Side, Timestamp};
use aggregator::decimal::Decimal;
use aggregator::engine::{mark_as_aggregated, DerivedState};
use aggregator::error::AggregationError;
use aggregator::events::{Cancel, ChangeSize, EventKey, Fill, PlaceLimit, PlaceMarket};
use aggregator::loader::{load_order, load_unaggregated, EventTables};
use aggregator::pass::{aggregate, Batches};
use aggregator::user_history::UserHistory;
use bigdecimal::BigDecimal;
use std::str::FromStr;

const T0: Timestamp = Timestamp { micros: 1_000_000 };
const T1: Timestamp = Timestamp { micros: 2_000_000 };
const T2: Timestamp = Timestamp { micros: 3_000_000 };
const A: Address = Address { high: 0, low: 0xA };

fn dec(text: &str) -> Decimal {
    Decimal::from_big(BigDecimal::from_str(text).unwrap()).unwrap()
}

fn big(text: &str) -> BigDecimal {
    BigDecimal::from_str(text).unwrap()
}

fn key(txn: &str, idx: &str) -> EventKey {
    EventKey { txn_version: dec(txn), event_idx: dec(idx) }
}

fn limit(txn: &str, idx: &str, order: &str, size: &str) -> PlaceLimit {
    PlaceLimit {
        key: key(txn, idx),
        market_id: dec("1"),
        order_id: dec(order),
        user: A,
        custodian_id: dec("0"),
        side: Side::Ask,
        self_match_behavior: 0,
        restriction: 0,
        price: dec("10"),
        initial_size: dec(size),
        integrator: A,
        time: T0,
    }
}

fn market(txn: &str, idx: &str, order: &str, size: &str) -> PlaceMarket {
    PlaceMarket {
        key: key(txn, idx),
        market_id: dec("1"),
        order_id: dec(order),
        user: A,
        custodian_id: dec("0"),
        direction: 0,
        self_match_behavior: 0,
        integrator: A,
        size: dec(size),
        time: T0,
    }
}

fn fill(txn: &str, idx: &str, maker: &str, taker: &str, size: &str) -> Fill {
    Fill {
        key: key(txn, idx),
        market_id: dec("1"),
        maker_order_id: dec(maker),
        taker_order_id: dec(taker),
        size: dec(size),
        maker_address: A,
        emit_address: A,
        time: T1,
    }
}

fn change(txn: &str, idx: &str, order: &str, new_size: &str) -> ChangeSize {
    ChangeSize {
        key: key(txn, idx),
        market_id: dec("1"),
        order_id: dec(order),
        new_size: dec(new_size),
        time: T1,
    }
}

fn cancel(txn: &str, idx: &str, order: &str) -> Cancel {
    Cancel { key: key(txn, idx), market_id: dec("1"), order_id: dec(order), time: T2 }
}

fn no_tables() -> EventTables {
    EventTables {
        place_limit_order_events: vec![],
        place_market_order_events: vec![],
        place_swap_order_events: vec![],
        fill_events: vec![],
        change_order_size_events: vec![],
        cancel_order_events: vec![],
        market_registration_events: vec![],
    }
}

fn busy_tables() -> EventTables {
    let mut tables = no_tables();
    tables.place_limit_order_events.push(limit("1", "0", "100", "5"));
    tables.place_limit_order_events.push(limit("1", "1", "101", "8"));
    tables.place_market_order_events.push(market("2", "0", "200", "3"));
    tables.fill_events.push(fill("2", "1", "100", "200", "3"));
    tables.change_order_size_events.push(change("3", "0", "101", "9"));
    tables.fill_events.push(fill("4", "0", "101", "300", "2"));
    tables.cancel_order_events.push(cancel("5", "0", "101"));
    tables
}

fn summary(state: &DerivedState) -> Vec<(BigDecimal, BigDecimal, BigDecimal, OrderStatus, Option<Timestamp>)> {
    let mut rows: Vec<_> = state
        .history
        .iter()
        .map(|row| {
            (
                row.order_id.to_big(),
                row.remaining_size.to_big(),
                row.total_filled.to_big(),
                row.order_status,
                row.last_updated_at,
            )
        })
        .collect();
    rows.sort_by(|one, other| one.0.cmp(&other.0));
    rows
}

fn stamps(state: &DerivedState) -> Vec<(BigDecimal, BigDecimal)> {
    let mut rows: Vec<_> = state
        .limits
        .iter()
        .map(|row| (row.order_id.to_big(), row.last_increase_stamp.to_big()))
        .collect();
    rows.sort_by(|one, other| one.0.cmp(&other.0));
    rows
}

#[test]
fn a_pass_folds_every_kind_of_event() {
    let mut aggregator = UserHistory::new(DerivedState::new());
    assert_eq!(aggregator.tick_at(&busy_tables(), T2), Ok(()));
    assert_eq!(
        summary(aggregator.store()),
        vec![
            (big("100"), big("2"), big("3"), OrderStatus::Open, Some(T1)),
            (big("101"), big("7"), big("2"), OrderStatus::Cancelled, Some(T2)),
            (big("200"), big("0"), big("3"), OrderStatus::Closed, Some(T1)),
        ]
    );
    assert_eq!(
        stamps(aggregator.store()),
        vec![(big("100"), big("18446744073709551616")), (big("101"), big("55340232221128654848"))]
    );
    assert_eq!(aggregator.store().ledger.len(), 7);
}

#[test]
fn second_pass_without_new_events_changes_nothing() {
    let tables = busy_tables();
    let mut aggregator = UserHistory::new(DerivedState::new());
    assert_eq!(aggregator.tick_at(&tables, T1), Ok(()));
    let rows = summary(aggregator.store());
    let stamped = stamps(aggregator.store());
    assert_eq!(aggregator.tick_at(&tables, T2), Ok(()));
    assert_eq!(summary(aggregator.store()), rows);
    assert_eq!(stamps(aggregator.store()), stamped);
    assert_eq!(aggregator.store().ledger.len(), 7);
    assert_eq!(aggregator.store().history.len(), 3);
}

#[test]
fn replaying_the_log_counts_every_event_once() {
    let tables = busy_tables();
    let mut once = UserHistory::new(DerivedState::new());
    assert_eq!(once.tick_at(&tables, T1), Ok(()));
    let mut often = UserHistory::new(DerivedState::new());
    for _ in 0..4 {
        assert_eq!(often.tick_at(&tables, T1), Ok(()));
    }
    assert_eq!(summary(often.store()), summary(once.store()));
    assert_eq!(stamps(often.store()), stamps(once.store()));
    assert_eq!(often.store().ledger.len(), once.store().ledger.len());
}

#[test]
fn ledger_holds_every_event_after_a_pass() {
    let tables = busy_tables();
    let mut aggregator = UserHistory::new(DerivedState::new());
    assert!(!aggregator.store().is_aggregated(&key("2", "1")));
    assert_eq!(aggregator.tick_at(&tables, T1), Ok(()));
    for position in [("1", "0"), ("1", "1"), ("2", "0"), ("2", "1"), ("3", "0"), ("4", "0"), ("5", "0")] {
        assert!(aggregator.store().is_aggregated(&key(position.0, position.1)));
    }
    assert!(!aggregator.store().is_aggregated(&key("6", "0")));
    let left = load_unaggregated(&tables, &aggregator.store().ledger);
    assert!(left.place_limits.is_empty() && left.place_markets.is_empty());
    assert!(left.fills.is_empty() && left.changes.is_empty() && left.cancels.is_empty());
}

#[test]
fn two_passes_over_a_growing_log_fold_as_one() {
    let whole = busy_tables();
    let mut first_part = no_tables();
    first_part.place_limit_order_events.push(limit("1", "0", "100", "5"));
    first_part.place_limit_order_events.push(limit("1", "1", "101", "8"));
    first_part.place_market_order_events.push(market("2", "0", "200", "3"));
    first_part.fill_events.push(fill("2", "1", "100", "200", "3"));

    let mut split = UserHistory::new(DerivedState::new());
    assert_eq!(split.tick_at(&first_part, T1), Ok(()));
    assert_eq!(split.store().ledger.len(), 4);
    assert_eq!(split.tick_at(&whole, T2), Ok(()));

    let mut at_once = UserHistory::new(DerivedState::new());
    assert_eq!(at_once.tick_at(&whole, T2), Ok(()));

    assert_eq!(summary(split.store()), summary(at_once.store()));
    assert_eq!(stamps(split.store()), stamps(at_once.store()));
    assert_eq!(split.store().ledger.len(), at_once.store().ledger.len());
}

#[test]
fn a_cut_through_an_orders_life_shows() {
    let mut first_part = no_tables();
    first_part.place_limit_order_events.push(limit("1", "0", "100", "5"));
    first_part.cancel_order_events.push(cancel("2", "0", "100"));
    let mut whole = no_tables();
    whole.place_limit_order_events.push(limit("1", "0", "100", "5"));
    whole.cancel_order_events.push(cancel("2", "0", "100"));
    whole.fill_events.push(fill("3", "0", "100", "300", "5"));

    let mut split = UserHistory::new(DerivedState::new());
    assert_eq!(split.tick_at(&first_part, T1), Ok(()));
    assert_eq!(split.tick_at(&whole, T2), Ok(()));
    let mut at_once = UserHistory::new(DerivedState::new());
    assert_eq!(at_once.tick_at(&whole, T2), Ok(()));

    let split_row = split.store().history_of(&dec("1"), &dec("100")).unwrap();
    let whole_row = at_once.store().history_of(&dec("1"), &dec("100")).unwrap();
    assert_eq!(split_row.order_status, OrderStatus::Closed);
    assert_eq!(whole_row.order_status, OrderStatus::Cancelled);
}

#[test]
fn sizes_stay_nonnegative_where_fills_are_covered() {
    let mut aggregator = UserHistory::new(DerivedState::new());
    assert_eq!(aggregator.tick_at(&busy_tables(), T2), Ok(()));
    for row in &aggregator.store().history {
        assert!(!row.remaining_size.less_than(&Decimal::zero()));
    }
}

#[test]
fn an_uncovered_fill_leaves_a_negative_size() {
    let mut state = DerivedState::new();
    let batches = Batches {
        place_limits: vec![limit("1", "0", "100", "5")],
        place_markets: vec![],
        place_swaps: vec![],
        fills: vec![fill("2", "0", "100", "300", "6")],
        changes: vec![],
        cancels: vec![],
    };
    assert_eq!(aggregate(&mut state, &batches, &vec![]), Ok(()));
    let row = state.history_of(&dec("1"), &dec("100")).unwrap();
    assert_eq!(row.remaining_size.to_big(), big("-1"));
    assert_eq!(row.order_status, OrderStatus::Open);
}

#[test]
fn a_fill_of_one_order_against_itself_counts_twice() {
    let mut state = DerivedState::new();
    let batches = Batches {
        place_limits: vec![limit("1", "0", "100", "5")],
        place_markets: vec![],
        place_swaps: vec![],
        fills: vec![fill("2", "0", "100", "100", "2")],
        changes: vec![],
        cancels: vec![],
    };
    assert_eq!(aggregate(&mut state, &batches, &vec![]), Ok(()));
    let row = state.history_of(&dec("1"), &dec("100")).unwrap();
    assert_eq!(row.remaining_size.to_big(), big("1"));
    assert_eq!(row.total_filled.to_big(), big("4"));
}

#[test]
fn successive_size_increases_raise_the_stamp() {
    let mut tables = no_tables();
    tables.place_limit_order_events.push(limit("1", "0", "100", "5"));
    tables.change_order_size_events.push(change("2", "7", "100", "6"));
    tables.change_order_size_events.push(change("2", "8", "100", "7"));
    tables.change_order_size_events.push(change("3", "0", "100", "8"));
    let mut aggregator = UserHistory::new(DerivedState::new());
    let mut last = Decimal::zero();
    for rows in 1..=3 {
        let mut seen = no_tables();
        seen.place_limit_order_events.push(limit("1", "0", "100", "5"));
        for event in tables.change_order_size_events.iter().take(rows) {
            seen.change_order_size_events.push(event.clone());
        }
        assert_eq!(aggregator.tick_at(&seen, T1), Ok(()));
        let stamp = aggregator.store().limits[0].last_increase_stamp.clone();
        assert!(last.less_than(&stamp));
        last = stamp;
    }
    assert_eq!(last.to_big(), big("55340232221128654848"));
}

#[test]
fn placements_go_first_and_cancels_last() {
    let mut state = DerivedState::new();
    let batches = Batches {
        place_limits: vec![limit("9", "0", "100", "5")],
        place_markets: vec![],
        place_swaps: vec![],
        fills: vec![fill("2", "0", "100", "300", "5")],
        changes: vec![],
        cancels: vec![cancel("1", "0", "100")],
    };
    assert_eq!(aggregate(&mut state, &batches, &vec![]), Ok(()));
    let row = state.history_of(&dec("1"), &dec("100")).unwrap();
    assert_eq!(row.order_status, OrderStatus::Cancelled);
    assert_eq!(row.remaining_size.to_big(), big("0"));
    assert_eq!(row.last_updated_at, Some(T2));
}

#[test]
fn a_copy_of_the_tables_holds_the_same_rows() {
    let batches = Batches {
        place_limits: vec![limit("1", "0", "100", "5")],
        place_markets: vec![market("1", "1", "200", "5")],
        place_swaps: vec![],
        fills: vec![fill("2", "0", "100", "200", "5")],
        changes: vec![],
        cancels: vec![],
    };
    let mut one = DerivedState::new();
    assert_eq!(aggregate(&mut one, &batches, &vec![]), Ok(()));
    let copy = one.clone();
    assert_eq!(summary(&copy), summary(&one));
    assert_eq!(stamps(&copy), stamps(&one));
    assert_eq!(copy.markets.len(), 1);
    assert_eq!(copy.ledger.len(), 3);
}

#[test]
fn a_failing_event_changes_nothing() {
    let mut state = DerivedState::new();
    let first = Batches {
        place_limits: vec![limit("1", "0", "100", "5")],
        place_markets: vec![],
        place_swaps: vec![],
        fills: vec![],
        changes: vec![],
        cancels: vec![],
    };
    assert_eq!(aggregate(&mut state, &first, &vec![]), Ok(()));
    let before = summary(&state);

    let again = fill("1", "0", "100", "300", "2");
    assert_eq!(
        aggregator::appliers::aggregate_fill_event(&mut state, &again),
        Err(AggregationError::LedgerCollision)
    );
    assert_eq!(summary(&state), before);
    assert_eq!(
        aggregator::appliers::aggregate_change_event(&mut state, &change("1", "0", "100", "9")),
        Err(AggregationError::LedgerCollision)
    );
    assert_eq!(
        aggregator::appliers::aggregate_change_event(&mut state, &change("1", "0", "999", "9")),
        Err(AggregationError::UnknownOrder)
    );
    assert_eq!(
        aggregator::appliers::aggregate_cancel_event(&mut state, &cancel("1", "0", "100")),
        Err(AggregationError::LedgerCollision)
    );
    assert_eq!(
        aggregator::placement::record_limit_order(&mut state, &limit("1", "0", "101", "5")),
        Err(AggregationError::LedgerCollision)
    );
    assert_eq!(
        aggregator::placement::record_market_order(&mut state, &market("2", "0", "100", "5")),
        Err(AggregationError::DuplicateOrder)
    );
    assert_eq!(summary(&state), before);
    assert_eq!(stamps(&state), vec![(big("100"), big("18446744073709551616"))]);
    assert_eq!(state.history.len(), 1);
    assert_eq!(state.limits.len(), 1);
    assert_eq!(state.markets.len(), 0);
    assert_eq!(state.ledger.len(), 1);

    assert_eq!(
        aggregator::appliers::aggregate_change(
            &mut state,
            &dec("9"),
            &dec("100"),
            &dec("1"),
            T1,
            &dec("7"),
            &dec("1"),
        ),
        Ok(())
    );
    assert_eq!(stamps(&state), vec![(big("100"), big("129127208515966861313"))]);
    aggregator::appliers::aggregate_fill(&mut state, &dec("4"), &dec("100"), &dec("1"), T2);
    aggregator::appliers::aggregate_fill_for_maker_and_taker(
        &mut state,
        &dec("1"),
        &dec("100"),
        &dec("300"),
        &dec("1"),
        T2,
    );
    assert_eq!(summary(&state), vec![(big("100"), big("4"), big("5"), OrderStatus::Open, Some(T2))]);
    assert_eq!(state.ledger.len(), 1);
}

#[test]
fn mark_as_aggregated_refuses_a_second_entry() {
    let mut state = DerivedState::new();
    assert_eq!(mark_as_aggregated(&mut state, &dec("4"), &dec("2")), Ok(()));
    assert_eq!(mark_as_aggregated(&mut state, &dec("4"), &dec("3")), Ok(()));
    assert_eq!(
        mark_as_aggregated(&mut state, &dec("4.0"), &dec("2.00")),
        Err(AggregationError::LedgerCollision)
    );
    assert_eq!(state.ledger.len(), 2);
    assert!(state.is_aggregated(&key("4", "2")));
    assert!(!state.is_aggregated(&key("2", "4")));
}

#[test]
fn loader_puts_rows_in_chain_order() {
    let table = vec![
        cancel("3", "0", "100"),
        cancel("1", "5", "101"),
        cancel("2", "0", "102"),
        cancel("1", "2", "103"),
        cancel("1", "5", "104"),
    ];
    assert_eq!(load_order(&table, &vec![]), vec![3, 1, 4, 2, 0]);
    assert_eq!(load_order(&table, &vec![key("2", "0"), key("1", "5")]), vec![3, 0]);
    let none: Vec<Cancel> = vec![];
    assert_eq!(load_order(&none, &vec![key("2", "0")]), Vec::<usize>::new());
}

#[test]
fn loader_copies_the_rows_it_lists() {
    let mut tables = no_tables();
    tables.cancel_order_events =
        vec![cancel("3", "0", "100"), cancel("1", "5", "101"), cancel("2", "0", "102")];
    let batches = load_unaggregated(&tables, &vec![key("1", "5")]);
    assert_eq!(batches.cancels.len(), 2);
    assert_eq!(batches.cancels[0].order_id.to_big(), big("102"));
    assert_eq!(batches.cancels[0].key.txn_version.to_big(), big("2"));
    assert_eq!(batches.cancels[0].market_id.to_big(), big("1"));
    assert_eq!(batches.cancels[1].order_id.to_big(), big("100"));
    assert_eq!(batches.cancels[1].key.event_idx.to_big(), big("0"));
    assert_eq!(batches.cancels[1].time, T2);
    assert_eq!(tables.cancel_order_events.len(), 3);
}

#[test]
fn loader_skips_what_the_ledger_holds() {
    let mut tables = busy_tables();
    tables.fill_events.reverse();
    let ledger = vec![key("1", "0"), key("3", "0")];
    let batches = load_unaggregated(&tables, &ledger);
    assert_eq!(batches.place_limits.len(), 1);
    assert_eq!(batches.place_limits[0].order_id.to_big(), big("101"));
    assert_eq!(batches.place_markets.len(), 1);
    assert_eq!(batches.changes.len(), 0);
    assert_eq!(batches.fills.len(), 2);
    assert_eq!(batches.fills[0].key.txn_version.to_big(), big("2"));
    assert_eq!(batches.fills[1].key.txn_version.to_big(), big("4"));
    assert_eq!(batches.cancels.len(), 1);
}
