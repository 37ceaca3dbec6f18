//! The aggregation engine: the derived tables and the operations that fold
//! one event into them. Each operation is proved to compute the function of
//! the same purpose in [`crate::model`].

use crate::decimal::Decimal;
use crate::error::AggregationError;
use crate::events::EventKey;
use crate::events::KeyView;
use crate::events::MarketRegistration;
use crate::events::key_views;
use crate::events::registration_views;
use crate::events::same_key;
use crate::model::StateView;
use crate::model::empty_state;
use crate::model::first_history_from;
use crate::model::first_registration_from;
use crate::model::history_has;
use crate::model::ledger_has;
use crate::model::lemma_first_history;
use crate::model::limits_have;
use crate::model::marked;
use crate::model::markets_have;
use crate::model::names_order;
use crate::model::priority_stamp_of;
use crate::model::swaps_have;
use crate::rows::UserHistoryLimit;
use crate::rows::UserHistoryMarket;
use crate::rows::UserHistoryRow;
use crate::rows::UserHistorySwap;
use crate::rows::history_views;
use crate::rows::limit_views;
use crate::rows::market_views;
use crate::rows::swap_views;
use vstd::prelude::*;

verus! {

/// The derived tables and the ledger, as one pass sees and changes them.
#[derive(Debug)]
pub struct DerivedState {
    pub history: Vec<UserHistoryRow>,
    pub limits: Vec<UserHistoryLimit>,
    pub markets: Vec<UserHistoryMarket>,
    pub swaps: Vec<UserHistorySwap>,
    pub ledger: Vec<EventKey>,
}

impl View for DerivedState {
    type V = StateView;

    open spec fn view(&self) -> StateView {
        StateView {
            history: history_views(self.history@),
            limits: limit_views(self.limits@),
            markets: market_views(self.markets@),
            swaps: swap_views(self.swaps@),
            ledger: key_views(self.ledger@),
        }
    }
}

pub(crate) fn ledger_contains(ledger: &Vec<EventKey>, key: &EventKey) -> (r: bool)
    ensures
        r == ledger_has(key_views(ledger@), key@),
{
    let mut i: usize = 0;
    while i < ledger.len()
        invariant
            i <= ledger.len(),
            forall|j: int| 0 <= j < i ==> !same_key(key_views(ledger@)[j], key@),
        decreases ledger.len() - i,
    {
        if ledger[i].same_place(key) {
            assert(same_key(key_views(ledger@)[i as int], key@));
            return true;
        }
        i += 1;
    }
    false
}

pub(crate) fn history_contains(rows: &Vec<UserHistoryRow>, market_id: &Decimal, order_id: &Decimal) -> (r:
    bool)
    ensures
        r == history_has(history_views(rows@), market_id@.value, order_id@.value),
{
    let mut i: usize = 0;
    while i < rows.len()
        invariant
            i <= rows.len(),
            forall|j: int|
                0 <= j < i ==> !names_order(
                    history_views(rows@)[j].market_id,
                    history_views(rows@)[j].order_id,
                    market_id@.value,
                    order_id@.value,
                ),
        decreases rows.len() - i,
    {
        if rows[i].market_id.same_number(market_id) && rows[i].order_id.same_number(order_id) {
            assert(names_order(
                history_views(rows@)[i as int].market_id,
                history_views(rows@)[i as int].order_id,
                market_id@.value,
                order_id@.value,
            ));
            return true;
        }
        i += 1;
    }
    false
}

pub(crate) fn limits_contain(rows: &Vec<UserHistoryLimit>, market_id: &Decimal, order_id: &Decimal) -> (r:
    bool)
    ensures
        r == limits_have(limit_views(rows@), market_id@.value, order_id@.value),
{
    let mut i: usize = 0;
    while i < rows.len()
        invariant
            i <= rows.len(),
            forall|j: int|
                0 <= j < i ==> !names_order(
                    limit_views(rows@)[j].market_id,
                    limit_views(rows@)[j].order_id,
                    market_id@.value,
                    order_id@.value,
                ),
        decreases rows.len() - i,
    {
        if rows[i].market_id.same_number(market_id) && rows[i].order_id.same_number(order_id) {
            assert(names_order(
                limit_views(rows@)[i as int].market_id,
                limit_views(rows@)[i as int].order_id,
                market_id@.value,
                order_id@.value,
            ));
            return true;
        }
        i += 1;
    }
    false
}

pub(crate) fn markets_contain(rows: &Vec<UserHistoryMarket>, market_id: &Decimal, order_id: &Decimal) -> (r:
    bool)
    ensures
        r == markets_have(market_views(rows@), market_id@.value, order_id@.value),
{
    let mut i: usize = 0;
    while i < rows.len()
        invariant
            i <= rows.len(),
            forall|j: int|
                0 <= j < i ==> !names_order(
                    market_views(rows@)[j].market_id,
                    market_views(rows@)[j].order_id,
                    market_id@.value,
                    order_id@.value,
                ),
        decreases rows.len() - i,
    {
        if rows[i].market_id.same_number(market_id) && rows[i].order_id.same_number(order_id) {
            assert(names_order(
                market_views(rows@)[i as int].market_id,
                market_views(rows@)[i as int].order_id,
                market_id@.value,
                order_id@.value,
            ));
            return true;
        }
        i += 1;
    }
    false
}

pub(crate) fn swaps_contain(rows: &Vec<UserHistorySwap>, market_id: &Decimal, order_id: &Decimal) -> (r:
    bool)
    ensures
        r == swaps_have(swap_views(rows@), market_id@.value, order_id@.value),
{
    let mut i: usize = 0;
    while i < rows.len()
        invariant
            i <= rows.len(),
            forall|j: int|
                0 <= j < i ==> !names_order(
                    swap_views(rows@)[j].market_id,
                    swap_views(rows@)[j].order_id,
                    market_id@.value,
                    order_id@.value,
                ),
        decreases rows.len() - i,
    {
        if rows[i].market_id.same_number(market_id) && rows[i].order_id.same_number(order_id) {
            assert(names_order(
                swap_views(rows@)[i as int].market_id,
                swap_views(rows@)[i as int].order_id,
                market_id@.value,
                order_id@.value,
            ));
            return true;
        }
        i += 1;
    }
    false
}

/// The place of the first history row of the order, if it has one.
pub(crate) fn find_history(rows: &Vec<UserHistoryRow>, market_id: &Decimal, order_id: &Decimal) -> (r: Option<
    usize,
>)
    ensures
        match r {
            Some(at) => at < rows.len() && at == first_history_from(
                history_views(rows@),
                market_id@.value,
                order_id@.value,
                0,
            ),
            None => first_history_from(history_views(rows@), market_id@.value, order_id@.value, 0)
                >= rows.len(),
        },
{
    let mut i: usize = 0;
    while i < rows.len()
        invariant
            i <= rows.len(),
            first_history_from(history_views(rows@), market_id@.value, order_id@.value, 0)
                == first_history_from(
                history_views(rows@),
                market_id@.value,
                order_id@.value,
                i as int,
            ),
        decreases rows.len() - i,
    {
        if rows[i].market_id.same_number(market_id) && rows[i].order_id.same_number(order_id) {
            return Some(i);
        }
        i += 1;
    }
    None
}

/// The place of the first registration of the market, if it has one.
pub(crate) fn find_registration(registrations: &Vec<MarketRegistration>, market_id: &Decimal) -> (r: Option<
    usize,
>)
    ensures
        match r {
            Some(at) => at < registrations.len() && at == first_registration_from(
                registration_views(registrations@),
                market_id@.value,
                0,
            ),
            None => first_registration_from(
                registration_views(registrations@),
                market_id@.value,
                0,
            ) >= registrations.len(),
        },
{
    let mut i: usize = 0;
    while i < registrations.len()
        invariant
            i <= registrations.len(),
            first_registration_from(registration_views(registrations@), market_id@.value, 0)
                == first_registration_from(
                registration_views(registrations@),
                market_id@.value,
                i as int,
            ),
        decreases registrations.len() - i,
    {
        if registrations[i].market_id.same_number(market_id) {
            return Some(i);
        }
        i += 1;
    }
    None
}

/// Encodes an event's position as one sortable number: the transaction
/// version shifted left by 64 bits, or-ed with the event index. Both have to
/// be whole numbers.
pub fn priority_stamp(txn_version: &Decimal, event_idx: &Decimal) -> (r: Result<
    Decimal,
    AggregationError,
>)
    ensures
        match priority_stamp_of(KeyView { txn_version: txn_version@, event_idx: event_idx@ }) {
            Ok(stamp) => r matches Ok(d) && d@ == stamp,
            Err(e) => r matches Err(f) && f == e,
        },
{
    if !txn_version.is_integer() {
        return Err(AggregationError::TxnVersionNotInteger);
    }
    if !event_idx.is_integer() {
        return Err(AggregationError::EventIdxNotInteger);
    }
    match txn_version.shifted_or(event_idx) {
        Some(stamp) => Ok(stamp),
        None => Err(AggregationError::TxnVersionNotInteger),
    }
}

/// Enters an event's position in the ledger. A position that is already
/// there makes the pass fail and leaves the ledger as it was.
pub fn mark_as_aggregated(tx: &mut DerivedState, txn_version: &Decimal, event_idx: &Decimal) -> (r:
    Result<(), AggregationError>)
    ensures
        match marked(old(tx)@, KeyView { txn_version: txn_version@, event_idx: event_idx@ }) {
            Ok(next) => r is Ok && final(tx)@ == next,
            Err(e) => r == Err::<(), AggregationError>(e) && final(tx)@ == old(tx)@,
        },
{
    let key = EventKey { txn_version: txn_version.clone(), event_idx: event_idx.clone() };
    if ledger_contains(&tx.ledger, &key) {
        return Err(AggregationError::LedgerCollision);
    }
    tx.ledger.push(key);
    proof {
        assert(key_views(tx.ledger@) =~= key_views(old(tx).ledger@).push(key@));
    }
    Ok(())
}

fn copy_history(rows: &Vec<UserHistoryRow>) -> (r: Vec<UserHistoryRow>)
    ensures
        history_views(r@) == history_views(rows@),
{
    let mut copy: Vec<UserHistoryRow> = Vec::new();
    let mut i: usize = 0;
    while i < rows.len()
        invariant
            i <= rows.len(),
            copy.len() == i,
            forall|j: int| 0 <= j < i ==> (#[trigger] copy@[j])@ == rows@[j]@,
        decreases rows.len() - i,
    {
        copy.push(rows[i].clone());
        i += 1;
    }
    assert(history_views(copy@) =~= history_views(rows@));
    copy
}

fn copy_limits(rows: &Vec<UserHistoryLimit>) -> (r: Vec<UserHistoryLimit>)
    ensures
        limit_views(r@) == limit_views(rows@),
{
    let mut copy: Vec<UserHistoryLimit> = Vec::new();
    let mut i: usize = 0;
    while i < rows.len()
        invariant
            i <= rows.len(),
            copy.len() == i,
            forall|j: int| 0 <= j < i ==> (#[trigger] copy@[j])@ == rows@[j]@,
        decreases rows.len() - i,
    {
        copy.push(rows[i].clone());
        i += 1;
    }
    assert(limit_views(copy@) =~= limit_views(rows@));
    copy
}

fn copy_markets(rows: &Vec<UserHistoryMarket>) -> (r: Vec<UserHistoryMarket>)
    ensures
        market_views(r@) == market_views(rows@),
{
    let mut copy: Vec<UserHistoryMarket> = Vec::new();
    let mut i: usize = 0;
    while i < rows.len()
        invariant
            i <= rows.len(),
            copy.len() == i,
            forall|j: int| 0 <= j < i ==> (#[trigger] copy@[j])@ == rows@[j]@,
        decreases rows.len() - i,
    {
        copy.push(rows[i].clone());
        i += 1;
    }
    assert(market_views(copy@) =~= market_views(rows@));
    copy
}

fn copy_swaps(rows: &Vec<UserHistorySwap>) -> (r: Vec<UserHistorySwap>)
    ensures
        swap_views(r@) == swap_views(rows@),
{
    let mut copy: Vec<UserHistorySwap> = Vec::new();
    let mut i: usize = 0;
    while i < rows.len()
        invariant
            i <= rows.len(),
            copy.len() == i,
            forall|j: int| 0 <= j < i ==> (#[trigger] copy@[j])@ == rows@[j]@,
        decreases rows.len() - i,
    {
        copy.push(rows[i].clone());
        i += 1;
    }
    assert(swap_views(copy@) =~= swap_views(rows@));
    copy
}

fn copy_ledger(rows: &Vec<EventKey>) -> (r: Vec<EventKey>)
    ensures
        key_views(r@) == key_views(rows@),
{
    let mut copy: Vec<EventKey> = Vec::new();
    let mut i: usize = 0;
    while i < rows.len()
        invariant
            i <= rows.len(),
            copy.len() == i,
            forall|j: int| 0 <= j < i ==> (#[trigger] copy@[j])@ == rows@[j]@,
        decreases rows.len() - i,
    {
        copy.push(rows[i].clone());
        i += 1;
    }
    assert(key_views(copy@) =~= key_views(rows@));
    copy
}

impl Clone for DerivedState {
    fn clone(&self) -> (r: Self)
        ensures
            r@ == self@,
    {
        DerivedState {
            history: copy_history(&self.history),
            limits: copy_limits(&self.limits),
            markets: copy_markets(&self.markets),
            swaps: copy_swaps(&self.swaps),
            ledger: copy_ledger(&self.ledger),
        }
    }
}

impl DerivedState {
    /// The tables before any event: all empty.
    pub fn new() -> (r: DerivedState)
        ensures
            r@ == empty_state(),
    {
        let r = DerivedState {
            history: Vec::new(),
            limits: Vec::new(),
            markets: Vec::new(),
            swaps: Vec::new(),
            ledger: Vec::new(),
        };
        assert(r@.history =~= Seq::empty());
        assert(r@.limits =~= Seq::empty());
        assert(r@.markets =~= Seq::empty());
        assert(r@.swaps =~= Seq::empty());
        assert(r@.ledger =~= Seq::empty());
        r
    }

    /// The history row of an order, if the order is known.
    pub fn history_of(&self, market_id: &Decimal, order_id: &Decimal) -> (r: Option<
        &UserHistoryRow,
    >)
        ensures
            r is Some <==> history_has(self@.history, market_id@.value, order_id@.value),
            r matches Some(row) ==> row@ == self@.history[first_history_from(
                self@.history,
                market_id@.value,
                order_id@.value,
                0,
            )],
    {
        match find_history(&self.history, market_id, order_id) {
            Some(at) => {
                proof {
                    lemma_first_history(
                        self@.history,
                        market_id@.value,
                        order_id@.value,
                        0,
                    );
                }
                Some(&self.history[at])
            },
            None => {
                proof {
                    lemma_first_history(
                        self@.history,
                        market_id@.value,
                        order_id@.value,
                        0,
                    );
                }
                None
            },
        }
    }

    /// Whether the ledger holds this position.
    pub fn is_aggregated(&self, key: &EventKey) -> (r: bool)
        ensures
            r == ledger_has(self@.ledger, key@),
    {
        ledger_contains(&self.ledger, key)
    }
}

} // verus!
