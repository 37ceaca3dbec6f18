use aggregator::basics::Timestamp;
use aggregator::clock::{is_due, now, seconds};
use aggregator::engine::DerivedState;
use aggregator::error::ApiError;
use aggregator::prices::Prices;
use aggregator::user_history::UserHistory;
use std::time::Duration;

#[test]
fn user_history_names_itself() {
    let aggregator = UserHistory::new(DerivedState::new());
    assert_eq!(aggregator.model_name(), "UserHistory");
}

#[test]
fn user_history_polls_every_five_seconds() {
    let aggregator = UserHistory::new(DerivedState::new());
    assert_eq!(aggregator.poll_interval(), Some(Duration::from_secs(5)));
}

#[test]
fn user_history_is_ready_before_its_first_pass() {
    let aggregator = UserHistory::new(DerivedState::new());
    assert_eq!(aggregator.last_indexed_timestamp(), None);
    assert!(aggregator.ready());
    assert!(aggregator.ready_at(Timestamp { micros: i64::MIN }));
}

#[test]
fn user_history_is_ready_five_seconds_after_a_pass() {
    let tables = aggregator::loader::EventTables {
        place_limit_order_events: vec![],
        place_market_order_events: vec![],
        place_swap_order_events: vec![],
        fill_events: vec![],
        change_order_size_events: vec![],
        cancel_order_events: vec![],
        market_registration_events: vec![],
    };
    let mut aggregator = UserHistory::new(DerivedState::new());
    assert_eq!(aggregator.tick_at(&tables, Timestamp { micros: 10_000_000 }), Ok(()));
    assert_eq!(aggregator.last_indexed_timestamp(), Some(Timestamp { micros: 10_000_000 }));
    assert!(!aggregator.ready_at(Timestamp { micros: 10_000_000 }));
    assert!(!aggregator.ready_at(Timestamp { micros: 14_999_999 }));
    assert!(!aggregator.ready_at(Timestamp { micros: 15_000_000 }));
    assert!(aggregator.ready_at(Timestamp { micros: 15_000_001 }));
    assert!(!aggregator.ready_at(Timestamp { micros: 0 }));
}

#[test]
fn user_history_records_the_present_after_a_pass() {
    let tables = aggregator::loader::EventTables {
        place_limit_order_events: vec![],
        place_market_order_events: vec![],
        place_swap_order_events: vec![],
        fill_events: vec![],
        change_order_size_events: vec![],
        cancel_order_events: vec![],
        market_registration_events: vec![],
    };
    let before = now();
    let mut aggregator = UserHistory::new(DerivedState::new());
    assert_eq!(aggregator.process_and_save_historical_data(&tables), Ok(()));
    let recorded = aggregator.last_indexed_timestamp().unwrap();
    assert!(recorded.micros >= before.micros);
    assert!(!aggregator.ready());
}

#[test]
fn is_due_does_not_overflow() {
    assert!(is_due(None, Timestamp { micros: 0 }, 5));
    assert!(!is_due(Some(Timestamp { micros: i64::MAX }), Timestamp { micros: i64::MAX }, 5));
    assert!(is_due(Some(Timestamp { micros: i64::MIN }), Timestamp { micros: i64::MAX }, u32::MAX));
    assert!(!is_due(Some(Timestamp { micros: 0 }), Timestamp { micros: 60_000_000 }, 60));
    assert!(is_due(Some(Timestamp { micros: 0 }), Timestamp { micros: 60_000_001 }, 60));
}

#[test]
fn now_is_after_2020() {
    assert!(now().micros > 1_577_836_800_000_000);
}

#[test]
fn seconds_are_seconds() {
    assert_eq!(seconds(60), Duration::from_secs(60));
    assert_eq!(seconds(0), Duration::ZERO);
}

#[test]
fn prices_schedule() {
    let mut prices = Prices::new();
    assert_eq!(prices.model_name(), "Prices");
    assert_eq!(prices.poll_interval(), Some(Duration::from_secs(60)));
    assert!(prices.ready());
    assert!(prices.ready_at(Timestamp { micros: 0 }));
    prices.record_run(Timestamp { micros: 1_000_000 });
    assert!(!prices.ready_at(Timestamp { micros: 61_000_000 }));
    assert!(prices.ready_at(Timestamp { micros: 61_000_001 }));
    prices.record_run(now());
    assert!(!prices.ready());
}

#[test]
fn api_errors_answer_with_status_and_text() {
    assert_eq!(ApiError::NotFound.status_code(), 404);
    assert_eq!(ApiError::NotFound.message(), "404 Not Found");
    assert_eq!(ApiError::NotFound.into_response(), (404, "404 Not Found".to_string()));
    let database = ApiError::SqlxError("connection refused".to_string());
    assert_eq!(database.status_code(), 500);
    assert_eq!(database.message(), "connection refused");
    assert_eq!(database.into_response(), (500, "connection refused".to_string()));
    let typed = ApiError::TypeError("not a side".to_string());
    assert_eq!(typed.into_response(), (500, "not a side".to_string()));
}

fn empty_tables() -> aggregator::loader::EventTables {
    aggregator::loader::EventTables {
        place_limit_order_events: vec![],
        place_market_order_events: vec![],
        place_swap_order_events: vec![],
        fill_events: vec![],
        change_order_size_events: vec![],
        cancel_order_events: vec![],
        market_registration_events: vec![],
    }
}

#[test]
fn ready_answers_for_the_present_moment() {
    let mut aggregator = UserHistory::new(DerivedState::new());
    assert_eq!(aggregator.tick_at(&empty_tables(), Timestamp { micros: i64::MAX }), Ok(()));
    assert!(!aggregator.ready());
    assert_eq!(aggregator.tick_at(&empty_tables(), Timestamp { micros: -5_000_001 }), Ok(()));
    assert!(aggregator.ready());
    assert_eq!(aggregator.tick_at(&empty_tables(), Timestamp { micros: 0 }), Ok(()));
    assert_eq!(aggregator.ready(), aggregator.ready_at(now()));

    let mut prices = Prices::new();
    prices.record_run(Timestamp { micros: i64::MAX });
    assert!(!prices.ready());
    prices.record_run(Timestamp { micros: -60_000_001 });
    assert!(prices.ready());
    prices.record_run(Timestamp { micros: 0 });
    assert_eq!(prices.ready(), prices.ready_at(now()));
}

#[test]
fn now_is_not_before_1970_and_does_not_run_backwards_by_much() {
    let first = now();
    let second = now();
    assert!(first.micros >= 0);
    assert!(second.micros + 1_000_000 > first.micros);
}
