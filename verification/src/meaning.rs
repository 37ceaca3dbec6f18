//! What each event does to the book, and the proof that the tables follow:
//! folding an event into well-formed tables and then reading the book gives
//! what the event does to the book of the tables before.

use crate::basics::OrderStatus;
use crate::basics::OrderType;
use crate::basics::Timestamp;
use crate::book::Book;
use crate::book::OrderKey;
use crate::book::OrderRow;
use crate::book::book;
use crate::book::book_of;
use crate::book::book_with;
use crate::book::has_row;
use crate::book::ledger_set;
use crate::book::lemma_book_holds_rows;
use crate::book::lemma_book_of_changed;
use crate::book::lemma_book_of_pushed;
use crate::book::place_of;
use crate::book::well_formed;
use crate::decimal::DecimalView;
use crate::error::AggregationError;
use crate::events::CancelView;
use crate::events::ChangeSizeView;
use crate::events::FillView;
use crate::events::KeyView;
use crate::events::MarketRegistrationView;
use crate::events::PlaceLimitView;
use crate::events::PlaceMarketView;
use crate::events::PlaceSwapView;
use crate::events::same_key;
use crate::model::StateView;
use crate::model::Step;
use crate::model::cancelled;
use crate::model::empty_state;
use crate::model::fill_applied;
use crate::model::filled_row;
use crate::model::first_history_from;
use crate::model::history_has;
use crate::model::ledger_has;
use crate::model::lemma_first_history;
use crate::model::limit_row;
use crate::model::limits_have;
use crate::model::loses_priority;
use crate::model::market_row;
use crate::model::markets_have;
use crate::model::names_order;
use crate::model::opened_row;
use crate::model::priority_stamp_of;
use crate::model::resized;
use crate::model::restamped;
use crate::model::step_applied;
use crate::model::steps_applied;
use crate::model::swap_row;
use crate::model::swap_size;
use crate::model::swaps_have;
use crate::rows::HistoryView;
use crate::rows::LimitView;
use vstd::prelude::*;

verus! {

/// A position in the chain as a pair of numbers.
pub open spec fn position(key: KeyView) -> (real, real) {
    (key.txn_version.value, key.event_idx.value)
}

/// What a fill of `size` at `time` does to a row.
pub open spec fn fill_change(size: DecimalView, time: Timestamp) -> spec_fn(HistoryView) -> HistoryView {
    |row: HistoryView| filled_row(row, size, time)
}

/// What a change of size to `new_size` at `time` does to a row.
pub open spec fn size_change(new_size: DecimalView, time: Timestamp) -> spec_fn(
    HistoryView,
) -> HistoryView {
    |row: HistoryView| HistoryView { remaining_size: new_size, last_updated_at: Some(time), ..row }
}

/// What a cancel at `time` does to a row.
pub open spec fn cancel_change(time: Timestamp) -> spec_fn(HistoryView) -> HistoryView {
    |row: HistoryView|
        HistoryView { order_status: OrderStatus::Cancelled, last_updated_at: Some(time), ..row }
}

/// What taking a new stamp does to a limit row.
pub open spec fn stamp_change(stamp: DecimalView) -> spec_fn(LimitView) -> LimitView {
    |row: LimitView| LimitView { last_increase_stamp: stamp, ..row }
}

/// The book with an event's position entered, which it must not hold yet.
pub open spec fn entered(before: Book, key: KeyView) -> Result<Book, AggregationError> {
    if before.ledger.contains(position(key)) {
        Err(AggregationError::LedgerCollision)
    } else {
        Ok(Book { ledger: before.ledger.insert(position(key)), ..before })
    }
}

/// What a limit placement makes of a book.
pub open spec fn limit_entered(before: Book, event: PlaceLimitView) -> Result<
    Book,
    AggregationError,
> {
    let key = (event.market_id.value, event.order_id.value);
    match priority_stamp_of(event.key) {
        Err(e) => Err(e),
        Ok(stamp) => if before.limits.dom().contains(key) || before.history.dom().contains(key) {
            Err(AggregationError::DuplicateOrder)
        } else {
            entered(
                Book {
                    limits: before.limits.insert(key, limit_row(event, stamp)),
                    history: before.history.insert(
                        key,
                        opened_row(
                            event.market_id,
                            event.order_id,
                            event.time,
                            event.integrator,
                            event.initial_size,
                            OrderType::Limit,
                        ),
                    ),
                    ..before
                },
                event.key,
            )
        },
    }
}

/// What a market placement makes of a book.
pub open spec fn market_entered(before: Book, event: PlaceMarketView) -> Result<
    Book,
    AggregationError,
> {
    let key = (event.market_id.value, event.order_id.value);
    if before.markets.dom().contains(key) || before.history.dom().contains(key) {
        Err(AggregationError::DuplicateOrder)
    } else {
        entered(
            Book {
                markets: before.markets.insert(key, market_row(event)),
                history: before.history.insert(
                    key,
                    opened_row(
                        event.market_id,
                        event.order_id,
                        event.time,
                        event.integrator,
                        event.size,
                        OrderType::Market,
                    ),
                ),
                ..before
            },
            event.key,
        )
    }
}

/// What a swap placement makes of a book.
pub open spec fn swap_entered(
    before: Book,
    registrations: Seq<MarketRegistrationView>,
    event: PlaceSwapView,
) -> Result<Book, AggregationError> {
    let key = (event.market_id.value, event.order_id.value);
    if before.swaps.dom().contains(key) {
        Err(AggregationError::DuplicateOrder)
    } else {
        match swap_size(registrations, event) {
            Err(e) => Err(e),
            Ok(size) => if before.history.dom().contains(key) {
                Err(AggregationError::DuplicateOrder)
            } else {
                entered(
                    Book {
                        swaps: before.swaps.insert(key, swap_row(event)),
                        history: before.history.insert(
                            key,
                            opened_row(
                                event.market_id,
                                event.order_id,
                                event.time,
                                event.integrator,
                                size,
                                OrderType::Swap,
                            ),
                        ),
                        ..before
                    },
                    event.key,
                )
            },
        }
    }
}

/// What a fill makes of a book.
pub open spec fn fill_entered(before: Book, fill: FillView) -> Result<Book, AggregationError> {
    if fill.maker_address == fill.emit_address {
        entered(
            Book {
                history: book_with(
                    book_with(
                        before.history,
                        (fill.market_id.value, fill.maker_order_id.value),
                        fill_change(fill.size, fill.time),
                    ),
                    (fill.market_id.value, fill.taker_order_id.value),
                    fill_change(fill.size, fill.time),
                ),
                ..before
            },
            fill.key,
        )
    } else {
        entered(before, fill.key)
    }
}

/// What a change of size makes of a book.
pub open spec fn change_entered(before: Book, change: ChangeSizeView) -> Result<
    Book,
    AggregationError,
> {
    let key = (change.market_id.value, change.order_id.value);
    if !before.history.dom().contains(key) {
        Err(AggregationError::UnknownOrder)
    } else if loses_priority(before.history[key], change.new_size) {
        match priority_stamp_of(change.key) {
            Err(e) => Err(e),
            Ok(stamp) => entered(
                Book {
                    limits: book_with(before.limits, key, stamp_change(stamp)),
                    history: book_with(
                        before.history,
                        key,
                        size_change(change.new_size, change.time),
                    ),
                    ..before
                },
                change.key,
            ),
        }
    } else {
        entered(
            Book {
                history: book_with(before.history, key, size_change(change.new_size, change.time)),
                ..before
            },
            change.key,
        )
    }
}

/// What a cancel makes of a book.
pub open spec fn cancel_entered(before: Book, cancel: CancelView) -> Result<
    Book,
    AggregationError,
> {
    entered(
        Book {
            history: book_with(
                before.history,
                (cancel.market_id.value, cancel.order_id.value),
                cancel_change(cancel.time),
            ),
            ..before
        },
        cancel.key,
    )
}

/// What one event makes of a book.
#[verifier::opaque]
pub open spec fn book_step(
    before: Book,
    registrations: Seq<MarketRegistrationView>,
    step: Step,
) -> Result<Book, AggregationError> {
    match step {
        Step::PlaceLimit(event) => limit_entered(before, event),
        Step::PlaceMarket(event) => market_entered(before, event),
        Step::PlaceSwap(event) => swap_entered(before, registrations, event),
        Step::Fill(fill) => fill_entered(before, fill),
        Step::Change(change) => change_entered(before, change),
        Step::Cancel(cancel) => cancel_entered(before, cancel),
    }
}

/// What a run of events makes of a book.
pub open spec fn book_run(
    before: Book,
    registrations: Seq<MarketRegistrationView>,
    steps: Seq<Step>,
) -> Result<Book, AggregationError>
    decreases steps.len(),
{
    if steps.len() == 0 {
        Ok(before)
    } else {
        match book_run(before, registrations, steps.drop_last()) {
            Err(e) => Err(e),
            Ok(between) => book_step(between, registrations, steps.last()),
        }
    }
}

/// An outcome on tables, read as an outcome on books.
pub open spec fn meant(outcome: Result<StateView, AggregationError>) -> Result<
    Book,
    AggregationError,
> {
    match outcome {
        Ok(state) => Ok(book(state)),
        Err(e) => Err(e),
    }
}

proof fn lemma_ledger_means(ledger: Seq<KeyView>, key: KeyView)
    ensures
        ledger_has(ledger, key) == ledger_set(ledger).contains(position(key)),
        ledger_set(ledger.push(key)) == ledger_set(ledger).insert(position(key)),
{
    if ledger_has(ledger, key) {
        let i = choose|i: int| 0 <= i < ledger.len() && same_key(ledger[i], key);
        assert(ledger[i].txn_version.value == position(key).0);
    }
    let more = ledger.push(key);
    assert forall|p: (real, real)| #[trigger]
        ledger_set(more).contains(p) == ledger_set(ledger).insert(position(key)).contains(p) by {
        if ledger_set(ledger).contains(p) {
            let i = choose|i: int|
                0 <= i < ledger.len() && (#[trigger] ledger[i]).txn_version.value == p.0
                    && ledger[i].event_idx.value == p.1;
            assert(more[i].txn_version.value == p.0);
        }
        if p == position(key) {
            assert(more[ledger.len() as int].txn_version.value == p.0);
        }
        if ledger_set(more).contains(p) {
            let i = choose|i: int|
                0 <= i < more.len() && (#[trigger] more[i]).txn_version.value == p.0
                    && more[i].event_idx.value == p.1;
            if i < ledger.len() {
                assert(ledger[i].txn_version.value == p.0);
            }
        }
    }
    assert(ledger_set(more) =~= ledger_set(ledger).insert(position(key)));
}

proof fn lemma_tables_mean(state: StateView, market: real, order: real)
    ensures
        history_has(state.history, market, order) == book_of(state.history).dom().contains(
            (market, order),
        ),
        limits_have(state.limits, market, order) == book_of(state.limits).dom().contains(
            (market, order),
        ),
        markets_have(state.markets, market, order) == book_of(state.markets).dom().contains(
            (market, order),
        ),
        swaps_have(state.swaps, market, order) == book_of(state.swaps).dom().contains(
            (market, order),
        ),
{
    let key = (market, order);
    if history_has(state.history, market, order) {
        let i = choose|i: int|
            0 <= i < state.history.len() && names_order(
                (#[trigger] state.history[i]).market_id,
                state.history[i].order_id,
                market,
                order,
            );
        assert(state.history[i].order_key() == key);
    }
    if has_row(state.history, key) {
        let i = place_of(state.history, key);
        assert(names_order(
            state.history[i].market_id,
            state.history[i].order_id,
            market,
            order,
        ));
    }
    if limits_have(state.limits, market, order) {
        let i = choose|i: int|
            0 <= i < state.limits.len() && names_order(
                (#[trigger] state.limits[i]).market_id,
                state.limits[i].order_id,
                market,
                order,
            );
        assert(state.limits[i].order_key() == key);
    }
    if has_row(state.limits, key) {
        let i = place_of(state.limits, key);
        assert(names_order(
            state.limits[i].market_id,
            state.limits[i].order_id,
            market,
            order,
        ));
    }
    if markets_have(state.markets, market, order) {
        let i = choose|i: int|
            0 <= i < state.markets.len() && names_order(
                (#[trigger] state.markets[i]).market_id,
                state.markets[i].order_id,
                market,
                order,
            );
        assert(state.markets[i].order_key() == key);
    }
    if has_row(state.markets, key) {
        let i = place_of(state.markets, key);
        assert(names_order(
            state.markets[i].market_id,
            state.markets[i].order_id,
            market,
            order,
        ));
    }
    if swaps_have(state.swaps, market, order) {
        let i = choose|i: int|
            0 <= i < state.swaps.len() && names_order(
                (#[trigger] state.swaps[i]).market_id,
                state.swaps[i].order_id,
                market,
                order,
            );
        assert(state.swaps[i].order_key() == key);
    }
    if has_row(state.swaps, key) {
        let i = place_of(state.swaps, key);
        assert(names_order(
            state.swaps[i].market_id,
            state.swaps[i].order_id,
            market,
            order,
        ));
    }
}

/// The tables follow the book, event by event: folding an event into
/// well-formed tables leaves them well-formed, and the book of the outcome is
/// what the event makes of the book of the tables before. Where the one
/// fails, the other fails in the same way.
pub proof fn lemma_step_means(
    state: StateView,
    registrations: Seq<MarketRegistrationView>,
    step: Step,
)
    requires
        well_formed(state),
    ensures
        book_step(book(state), registrations, step) == meant(
            step_applied(state, registrations, step),
        ),
        step_applied(state, registrations, step) matches Ok(next) ==> well_formed(next),
{
    reveal(book_step);
    match step {
        Step::PlaceLimit(event) => {
            let market = event.market_id.value;
            let order = event.order_id.value;
            lemma_tables_mean(state, market, order);
            lemma_ledger_means(state.ledger, event.key);
            if let Ok(stamp) = priority_stamp_of(event.key) {
                if !limits_have(state.limits, market, order) && !history_has(
                    state.history,
                    market,
                    order,
                ) {
                    lemma_book_of_pushed(state.limits, limit_row(event, stamp));
                    lemma_book_of_pushed(
                        state.history,
                        opened_row(
                            event.market_id,
                            event.order_id,
                            event.time,
                            event.integrator,
                            event.initial_size,
                            OrderType::Limit,
                        ),
                    );
                }
            }
        },
        Step::PlaceMarket(event) => {
            let market = event.market_id.value;
            let order = event.order_id.value;
            lemma_tables_mean(state, market, order);
            lemma_ledger_means(state.ledger, event.key);
            if !markets_have(state.markets, market, order) && !history_has(
                state.history,
                market,
                order,
            ) {
                lemma_book_of_pushed(state.markets, market_row(event));
                lemma_book_of_pushed(
                    state.history,
                    opened_row(
                        event.market_id,
                        event.order_id,
                        event.time,
                        event.integrator,
                        event.size,
                        OrderType::Market,
                    ),
                );
            }
        },
        Step::PlaceSwap(event) => {
            let market = event.market_id.value;
            let order = event.order_id.value;
            lemma_tables_mean(state, market, order);
            lemma_ledger_means(state.ledger, event.key);
            if let Ok(size) = swap_size(registrations, event) {
                if !swaps_have(state.swaps, market, order) && !history_has(
                    state.history,
                    market,
                    order,
                ) {
                    lemma_book_of_pushed(state.swaps, swap_row(event));
                    lemma_book_of_pushed(
                        state.history,
                        opened_row(
                            event.market_id,
                            event.order_id,
                            event.time,
                            event.integrator,
                            size,
                            OrderType::Swap,
                        ),
                    );
                }
            }
        },
        Step::Fill(fill) => {
            lemma_ledger_means(state.ledger, fill.key);
            if fill.maker_address == fill.emit_address {
                let once = fill_applied(
                    state.history,
                    fill.size,
                    fill.market_id.value,
                    fill.maker_order_id.value,
                    fill.time,
                );
                let twice = fill_applied(
                    once,
                    fill.size,
                    fill.market_id.value,
                    fill.taker_order_id.value,
                    fill.time,
                );
                lemma_book_of_changed(
                    state.history,
                    once,
                    (fill.market_id.value, fill.maker_order_id.value),
                    fill_change(fill.size, fill.time),
                );
                lemma_book_of_changed(
                    once,
                    twice,
                    (fill.market_id.value, fill.taker_order_id.value),
                    fill_change(fill.size, fill.time),
                );
            }
        },
        Step::Change(change) => {
            let market = change.market_id.value;
            let order = change.order_id.value;
            let key = (market, order);
            lemma_tables_mean(state, market, order);
            lemma_ledger_means(state.ledger, change.key);
            lemma_first_history(state.history, market, order, 0);
            let at = first_history_from(state.history, market, order, 0);
            if at < state.history.len() {
                lemma_book_holds_rows(state.history, at);
                assert(state.history[at].order_key() == key);
                let sized = resized(state.history, change.new_size, market, order, change.time);
                lemma_book_of_changed(
                    state.history,
                    sized,
                    key,
                    size_change(change.new_size, change.time),
                );
                if loses_priority(state.history[at], change.new_size) {
                    if let Ok(stamp) = priority_stamp_of(change.key) {
                        lemma_book_of_changed(
                            state.limits,
                            restamped(state.limits, market, order, stamp),
                            key,
                            stamp_change(stamp),
                        );
                        lemma_ledger_means(state.ledger, change.key);
                    }
                }
            }
        },
        Step::Cancel(cancel) => {
            lemma_ledger_means(state.ledger, cancel.key);
            lemma_book_of_changed(
                state.history,
                cancelled(
                    state.history,
                    cancel.market_id.value,
                    cancel.order_id.value,
                    cancel.time,
                ),
                (cancel.market_id.value, cancel.order_id.value),
                cancel_change(cancel.time),
            );
        },
    }
}

/// The tables follow the book over a whole run.
pub proof fn lemma_run_means(
    state: StateView,
    registrations: Seq<MarketRegistrationView>,
    steps: Seq<Step>,
)
    requires
        well_formed(state),
    ensures
        book_run(book(state), registrations, steps) == meant(
            steps_applied(state, registrations, steps),
        ),
        steps_applied(state, registrations, steps) matches Ok(next) ==> well_formed(next),
    decreases steps.len(),
{
    if steps.len() > 0 {
        lemma_run_means(state, registrations, steps.drop_last());
        if let Ok(between) = steps_applied(state, registrations, steps.drop_last()) {
            lemma_step_means(between, registrations, steps.last());
        }
    }
}

/// Whether the book has for this order number, if it has a history row for
/// it, an extension row in the table of the order's type and in no other;
/// and no extension row without a history row.
pub open spec fn extension_matches(book: Book, key: OrderKey) -> bool {
    &&& book.limits.dom().contains(key) == (book.history.dom().contains(key)
        && book.history[key].order_type == OrderType::Limit)
    &&& book.markets.dom().contains(key) == (book.history.dom().contains(key)
        && book.history[key].order_type == OrderType::Market)
    &&& book.swaps.dom().contains(key) == (book.history.dom().contains(key)
        && book.history[key].order_type == OrderType::Swap)
}

/// Whether every history row has exactly one extension row, in the table of
/// its order's type.
pub open spec fn extensions_match(book: Book) -> bool {
    forall|key: OrderKey| #[trigger] extension_matches(book, key)
}

/// Whether the tables are sound: each has one row for each order, and every
/// history row has exactly one extension row, in the table of its order's
/// type.
pub open spec fn tables_sound(state: StateView) -> bool {
    well_formed(state) && extensions_match(book(state))
}

/// Before any event the tables are sound: they are empty.
pub proof fn lemma_empty_tables_are_sound()
    ensures
        well_formed(empty_state()),
        extensions_match(book(empty_state())),
{
    assert forall|key: OrderKey| #[trigger] extension_matches(book(empty_state()), key) by {
        assert(!has_row(empty_state().history, key));
        assert(!has_row(empty_state().limits, key));
        assert(!has_row(empty_state().markets, key));
        assert(!has_row(empty_state().swaps, key));
    }
}

/// No event parts a history row from its extension row.
pub proof fn lemma_step_keeps_extensions(
    before: Book,
    registrations: Seq<MarketRegistrationView>,
    step: Step,
)
    requires
        extensions_match(before),
        book_step(before, registrations, step) is Ok,
    ensures
        extensions_match(book_step(before, registrations, step)->Ok_0),
{
    reveal(book_step);
    let after = book_step(before, registrations, step)->Ok_0;
    assert forall|key: OrderKey| #[trigger] extension_matches(after, key) by {
        assert(extension_matches(before, key));
        match step {
            Step::Fill(fill) => {
                assert(extension_matches(
                    before,
                    (fill.market_id.value, fill.maker_order_id.value),
                ));
                assert(extension_matches(
                    before,
                    (fill.market_id.value, fill.taker_order_id.value),
                ));
            },
            _ => {},
        }
    }
}

/// The tables stay sound over every run that succeeds: each table has one
/// row for each order, and every history row has exactly one extension row,
/// in the table of its order's type.
pub proof fn lemma_run_keeps_tables_sound(
    state: StateView,
    registrations: Seq<MarketRegistrationView>,
    steps: Seq<Step>,
)
    requires
        well_formed(state),
        extensions_match(book(state)),
        steps_applied(state, registrations, steps) is Ok,
    ensures
        well_formed(steps_applied(state, registrations, steps)->Ok_0),
        extensions_match(book(steps_applied(state, registrations, steps)->Ok_0)),
    decreases steps.len(),
{
    if steps.len() > 0 {
        let between = steps_applied(state, registrations, steps.drop_last())->Ok_0;
        lemma_run_keeps_tables_sound(state, registrations, steps.drop_last());
        lemma_step_means(between, registrations, steps.last());
        lemma_step_keeps_extensions(book(between), registrations, steps.last());
    }
}

} // verus!
