//! The derived tables as what they mean: each order once, found by its
//! market and order number, whatever the order of the rows. Two states whose
//! tables hold the same rows have the same book.

use crate::events::KeyView;
use crate::model::StateView;
use crate::rows::HistoryView;
use crate::rows::LimitView;
use crate::rows::MarketView;
use crate::rows::SwapView;
use vstd::prelude::*;

verus! {

/// A market and an order number, as numbers.
pub type OrderKey = (real, real);

/// A row that belongs to one order.
pub trait OrderRow: Sized {
    spec fn order_key(self) -> OrderKey;
}

impl OrderRow for HistoryView {
    open spec fn order_key(self) -> OrderKey {
        (self.market_id.value, self.order_id.value)
    }
}

impl OrderRow for LimitView {
    open spec fn order_key(self) -> OrderKey {
        (self.market_id.value, self.order_id.value)
    }
}

impl OrderRow for MarketView {
    open spec fn order_key(self) -> OrderKey {
        (self.market_id.value, self.order_id.value)
    }
}

impl OrderRow for SwapView {
    open spec fn order_key(self) -> OrderKey {
        (self.market_id.value, self.order_id.value)
    }
}

/// Whether a table has a row of this order.
pub open spec fn has_row<R: OrderRow>(rows: Seq<R>, key: OrderKey) -> bool {
    exists|i: int| 0 <= i < rows.len() && (#[trigger] rows[i]).order_key() == key
}

/// Whether no order has two rows.
pub open spec fn one_row_each<R: OrderRow>(rows: Seq<R>) -> bool {
    forall|i: int, j: int|
        0 <= i < j < rows.len() ==> (#[trigger] rows[i]).order_key() != (
        #[trigger] rows[j]).order_key()
}

/// The place of a row of this order.
pub open spec fn place_of<R: OrderRow>(rows: Seq<R>, key: OrderKey) -> int {
    choose|i: int| 0 <= i < rows.len() && (#[trigger] rows[i]).order_key() == key
}

/// A table by order.
pub open spec fn book_of<R: OrderRow>(rows: Seq<R>) -> Map<OrderKey, R> {
    Map::new(|key: OrderKey| has_row(rows, key), |key: OrderKey| rows[place_of(rows, key)])
}

/// In a table that has one row for each order, the book holds each row under
/// its order.
pub proof fn lemma_book_holds_rows<R: OrderRow>(rows: Seq<R>, i: int)
    requires
        one_row_each(rows),
        0 <= i < rows.len(),
    ensures
        book_of(rows).dom().contains(rows[i].order_key()),
        book_of(rows)[rows[i].order_key()] == rows[i],
        place_of(rows, rows[i].order_key()) == i,
{
    let key = rows[i].order_key();
    let at = place_of(rows, key);
    assert(0 <= at < rows.len() && rows[at].order_key() == key);
    if at < i {
        assert(rows[at].order_key() != rows[i].order_key());
    } else if i < at {
        assert(rows[i].order_key() != rows[at].order_key());
    }
}

/// A new row for an order that had none enters the book under its order.
pub proof fn lemma_book_of_pushed<R: OrderRow>(rows: Seq<R>, row: R)
    requires
        one_row_each(rows),
        !has_row(rows, row.order_key()),
    ensures
        one_row_each(rows.push(row)),
        book_of(rows.push(row)) == book_of(rows).insert(row.order_key(), row),
{
    let more = rows.push(row);
    assert forall|i: int, j: int| 0 <= i < j < more.len() implies (#[trigger] more[i]).order_key()
        != (#[trigger] more[j]).order_key() by {
        if j < rows.len() {
            assert(more[i] == rows[i] && more[j] == rows[j]);
        } else {
            assert(more[i] == rows[i]);
        }
    }
    assert forall|key: OrderKey| #[trigger]
        book_of(more).dom().contains(key) == book_of(rows).insert(
            row.order_key(),
            row,
        ).dom().contains(key) by {
        if has_row(rows, key) {
            let i = place_of(rows, key);
            assert(more[i].order_key() == key);
        }
        if key == row.order_key() {
            assert(more[rows.len() as int].order_key() == key);
        }
        if has_row(more, key) {
            let i = place_of(more, key);
            if i < rows.len() {
                assert(rows[i].order_key() == key);
            }
        }
    }
    assert forall|key: OrderKey| #[trigger]
        book_of(more).dom().contains(key) implies book_of(more)[key] == book_of(rows).insert(
        row.order_key(),
        row,
    )[key] by {
        let i = place_of(more, key);
        lemma_book_holds_rows(more, i);
        if i < rows.len() {
            lemma_book_holds_rows(rows, i);
        }
    }
    assert(book_of(more) =~= book_of(rows).insert(row.order_key(), row));
}

/// The book with the row of one order changed, if the order has a row.
pub open spec fn book_with<R>(book: Map<OrderKey, R>, key: OrderKey, change: spec_fn(R) -> R) -> Map<
    OrderKey,
    R,
> {
    if book.dom().contains(key) {
        book.insert(key, change(book[key]))
    } else {
        book
    }
}

/// Changing the rows of one order in a table, without touching their order
/// numbers, changes that order's entry of the book and no other.
pub proof fn lemma_book_of_changed<R: OrderRow>(
    rows: Seq<R>,
    changed: Seq<R>,
    key: OrderKey,
    change: spec_fn(R) -> R,
)
    requires
        one_row_each(rows),
        changed.len() == rows.len(),
        forall|i: int|
            0 <= i < rows.len() ==> (#[trigger] changed[i]) == (if rows[i].order_key() == key {
                change(rows[i])
            } else {
                rows[i]
            }),
        forall|i: int|
            0 <= i < rows.len() && rows[i].order_key() == key ==> change(
                #[trigger] rows[i],
            ).order_key() == key,
    ensures
        one_row_each(changed),
        book_of(changed) == book_with(book_of(rows), key, change),
{
    assert forall|i: int| 0 <= i < rows.len() implies (#[trigger] changed[i]).order_key()
        == rows[i].order_key() by {
        assert(changed[i] == (if rows[i].order_key() == key {
            change(rows[i])
        } else {
            rows[i]
        }));
    }
    assert forall|i: int, j: int| 0 <= i < j < changed.len() implies (
    #[trigger] changed[i]).order_key() != (#[trigger] changed[j]).order_key() by {
        assert(rows[i].order_key() != rows[j].order_key());
    }
    let after = book_with(book_of(rows), key, change);
    assert forall|other: OrderKey| #[trigger]
        book_of(changed).dom().contains(other) == after.dom().contains(other) by {
        if has_row(rows, other) {
            let i = place_of(rows, other);
            assert(changed[i].order_key() == other);
        }
        if has_row(changed, other) {
            let i = place_of(changed, other);
            assert(rows[i].order_key() == other);
        }
    }
    assert forall|other: OrderKey| #[trigger]
        book_of(changed).dom().contains(other) implies book_of(changed)[other]
        == after[other] by {
        let i = place_of(changed, other);
        lemma_book_holds_rows(changed, i);
        lemma_book_holds_rows(rows, i);
    }
    assert(book_of(changed) =~= after);
}

/// The ledger as the set of the positions it holds.
pub open spec fn ledger_set(ledger: Seq<KeyView>) -> Set<(real, real)> {
    Set::new(
        |position: (real, real)|
            exists|i: int|
                0 <= i < ledger.len() && (#[trigger] ledger[i]).txn_version.value == position.0
                    && ledger[i].event_idx.value == position.1,
    )
}

/// The derived tables by order, and the ledger as a set.
pub struct Book {
    pub history: Map<OrderKey, HistoryView>,
    pub limits: Map<OrderKey, LimitView>,
    pub markets: Map<OrderKey, MarketView>,
    pub swaps: Map<OrderKey, SwapView>,
    pub ledger: Set<(real, real)>,
}

/// What a state means.
pub open spec fn book(state: StateView) -> Book {
    Book {
        history: book_of(state.history),
        limits: book_of(state.limits),
        markets: book_of(state.markets),
        swaps: book_of(state.swaps),
        ledger: ledger_set(state.ledger),
    }
}

/// Whether every table of a state has one row for each order.
pub open spec fn well_formed(state: StateView) -> bool {
    &&& one_row_each(state.history)
    &&& one_row_each(state.limits)
    &&& one_row_each(state.markets)
    &&& one_row_each(state.swaps)
}

} // verus!
