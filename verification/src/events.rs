//! The raw chain events that the aggregator folds, as they stand in the
//! event tables.

use crate::basics::Address;
use crate::basics::Side;
use crate::basics::Timestamp;
use crate::decimal::Decimal;
use crate::decimal::DecimalView;
use vstd::prelude::*;

verus! {

/// Where an event stands in the chain's history: the transaction version and
/// the event's index within that transaction.
#[derive(Debug)]
pub struct EventKey {
    pub txn_version: Decimal,
    pub event_idx: Decimal,
}

/// A position as the contracts see it.
pub struct KeyView {
    pub txn_version: DecimalView,
    pub event_idx: DecimalView,
}

impl View for EventKey {
    type V = KeyView;

    open spec fn view(&self) -> KeyView {
        KeyView { txn_version: self.txn_version@, event_idx: self.event_idx@ }
    }
}

/// Whether `a` stands before `b` in the chain's history.
pub open spec fn key_before(a: KeyView, b: KeyView) -> bool {
    a.txn_version.value < b.txn_version.value || (a.txn_version.value == b.txn_version.value
        && a.event_idx.value < b.event_idx.value)
}

/// Whether `a` and `b` name the same place in the chain's history.
pub open spec fn same_key(a: KeyView, b: KeyView) -> bool {
    a.txn_version.value == b.txn_version.value && a.event_idx.value == b.event_idx.value
}

impl Clone for EventKey {
    fn clone(&self) -> (r: Self)
        ensures
            r@ == self@,
    {
        EventKey { txn_version: self.txn_version.clone(), event_idx: self.event_idx.clone() }
    }
}

impl EventKey {
    /// Whether this position stands strictly before the other in the chain.
    pub fn precedes(&self, other: &EventKey) -> (r: bool)
        ensures
            r == key_before(self@, other@),
    {
        self.txn_version.less_than(&other.txn_version) || (self.txn_version.same_number(
            &other.txn_version,
        ) && self.event_idx.less_than(&other.event_idx))
    }

    /// Whether the two are the same position, whatever the scales.
    pub fn same_place(&self, other: &EventKey) -> (r: bool)
        ensures
            r == same_key(self@, other@),
    {
        self.txn_version.same_number(&other.txn_version) && self.event_idx.same_number(
            &other.event_idx,
        )
    }
}

/// A limit order was placed.
#[derive(Debug)]
pub struct PlaceLimit {
    pub key: EventKey,
    pub market_id: Decimal,
    pub order_id: Decimal,
    pub user: Address,
    pub custodian_id: Decimal,
    pub side: Side,
    pub self_match_behavior: u8,
    pub restriction: u8,
    pub price: Decimal,
    pub initial_size: Decimal,
    pub integrator: Address,
    pub time: Timestamp,
}

/// A limit placement as the contracts see it.
pub struct PlaceLimitView {
    pub key: KeyView,
    pub market_id: DecimalView,
    pub order_id: DecimalView,
    pub user: Address,
    pub custodian_id: DecimalView,
    pub side: Side,
    pub self_match_behavior: u8,
    pub restriction: u8,
    pub price: DecimalView,
    pub initial_size: DecimalView,
    pub integrator: Address,
    pub time: Timestamp,
}

impl View for PlaceLimit {
    type V = PlaceLimitView;

    open spec fn view(&self) -> PlaceLimitView {
        PlaceLimitView {
            key: self.key@,
            market_id: self.market_id@,
            order_id: self.order_id@,
            user: self.user,
            custodian_id: self.custodian_id@,
            side: self.side,
            self_match_behavior: self.self_match_behavior,
            restriction: self.restriction,
            price: self.price@,
            initial_size: self.initial_size@,
            integrator: self.integrator,
            time: self.time,
        }
    }
}

impl Clone for PlaceLimit {
    fn clone(&self) -> (r: Self)
        ensures
            r@ == self@,
    {
        PlaceLimit {
            key: self.key.clone(),
            market_id: self.market_id.clone(),
            order_id: self.order_id.clone(),
            user: self.user,
            custodian_id: self.custodian_id.clone(),
            side: self.side,
            self_match_behavior: self.self_match_behavior,
            restriction: self.restriction,
            price: self.price.clone(),
            initial_size: self.initial_size.clone(),
            integrator: self.integrator,
            time: self.time,
        }
    }
}

/// A market order was placed.
#[derive(Debug)]
pub struct PlaceMarket {
    pub key: EventKey,
    pub market_id: Decimal,
    pub order_id: Decimal,
    pub user: Address,
    pub custodian_id: Decimal,
    pub direction: u8,
    pub self_match_behavior: u8,
    pub integrator: Address,
    pub size: Decimal,
    pub time: Timestamp,
}

/// A market placement as the contracts see it.
pub struct PlaceMarketView {
    pub key: KeyView,
    pub market_id: DecimalView,
    pub order_id: DecimalView,
    pub user: Address,
    pub custodian_id: DecimalView,
    pub direction: u8,
    pub self_match_behavior: u8,
    pub integrator: Address,
    pub size: DecimalView,
    pub time: Timestamp,
}

impl View for PlaceMarket {
    type V = PlaceMarketView;

    open spec fn view(&self) -> PlaceMarketView {
        PlaceMarketView {
            key: self.key@,
            market_id: self.market_id@,
            order_id: self.order_id@,
            user: self.user,
            custodian_id: self.custodian_id@,
            direction: self.direction,
            self_match_behavior: self.self_match_behavior,
            integrator: self.integrator,
            size: self.size@,
            time: self.time,
        }
    }
}

impl Clone for PlaceMarket {
    fn clone(&self) -> (r: Self)
        ensures
            r@ == self@,
    {
        PlaceMarket {
            key: self.key.clone(),
            market_id: self.market_id.clone(),
            order_id: self.order_id.clone(),
            user: self.user,
            custodian_id: self.custodian_id.clone(),
            direction: self.direction,
            self_match_behavior: self.self_match_behavior,
            integrator: self.integrator,
            size: self.size.clone(),
            time: self.time,
        }
    }
}

/// A swap was placed.
#[derive(Debug)]
pub struct PlaceSwap {
    pub key: EventKey,
    pub market_id: Decimal,
    pub order_id: Decimal,
    pub direction: u8,
    pub limit_price: Decimal,
    pub signing_account: Address,
    pub min_base: Decimal,
    pub max_base: Decimal,
    pub min_quote: Decimal,
    pub max_quote: Decimal,
    pub integrator: Address,
    pub time: Timestamp,
}

/// A swap placement as the contracts see it.
pub struct PlaceSwapView {
    pub key: KeyView,
    pub market_id: DecimalView,
    pub order_id: DecimalView,
    pub direction: u8,
    pub limit_price: DecimalView,
    pub signing_account: Address,
    pub min_base: DecimalView,
    pub max_base: DecimalView,
    pub min_quote: DecimalView,
    pub max_quote: DecimalView,
    pub integrator: Address,
    pub time: Timestamp,
}

impl View for PlaceSwap {
    type V = PlaceSwapView;

    open spec fn view(&self) -> PlaceSwapView {
        PlaceSwapView {
            key: self.key@,
            market_id: self.market_id@,
            order_id: self.order_id@,
            direction: self.direction,
            limit_price: self.limit_price@,
            signing_account: self.signing_account,
            min_base: self.min_base@,
            max_base: self.max_base@,
            min_quote: self.min_quote@,
            max_quote: self.max_quote@,
            integrator: self.integrator,
            time: self.time,
        }
    }
}

impl Clone for PlaceSwap {
    fn clone(&self) -> (r: Self)
        ensures
            r@ == self@,
    {
        PlaceSwap {
            key: self.key.clone(),
            market_id: self.market_id.clone(),
            order_id: self.order_id.clone(),
            direction: self.direction,
            limit_price: self.limit_price.clone(),
            signing_account: self.signing_account,
            min_base: self.min_base.clone(),
            max_base: self.max_base.clone(),
            min_quote: self.min_quote.clone(),
            max_quote: self.max_quote.clone(),
            integrator: self.integrator,
            time: self.time,
        }
    }
}

/// A maker order and a taker order traded `size` against each other. The
/// chain may emit the same fill twice, once to each party's handle;
/// `emit_address` says to whose.
#[derive(Debug)]
pub struct Fill {
    pub key: EventKey,
    pub market_id: Decimal,
    pub maker_order_id: Decimal,
    pub taker_order_id: Decimal,
    pub size: Decimal,
    pub maker_address: Address,
    pub emit_address: Address,
    pub time: Timestamp,
}

/// A fill as the contracts see it.
pub struct FillView {
    pub key: KeyView,
    pub market_id: DecimalView,
    pub maker_order_id: DecimalView,
    pub taker_order_id: DecimalView,
    pub size: DecimalView,
    pub maker_address: Address,
    pub emit_address: Address,
    pub time: Timestamp,
}

impl View for Fill {
    type V = FillView;

    open spec fn view(&self) -> FillView {
        FillView {
            key: self.key@,
            market_id: self.market_id@,
            maker_order_id: self.maker_order_id@,
            taker_order_id: self.taker_order_id@,
            size: self.size@,
            maker_address: self.maker_address,
            emit_address: self.emit_address,
            time: self.time,
        }
    }
}

impl Clone for Fill {
    fn clone(&self) -> (r: Self)
        ensures
            r@ == self@,
    {
        Fill {
            key: self.key.clone(),
            market_id: self.market_id.clone(),
            maker_order_id: self.maker_order_id.clone(),
            taker_order_id: self.taker_order_id.clone(),
            size: self.size.clone(),
            maker_address: self.maker_address,
            emit_address: self.emit_address,
            time: self.time,
        }
    }
}

/// An order's open size was set to `new_size` from outside.
#[derive(Debug)]
pub struct ChangeSize {
    pub key: EventKey,
    pub market_id: Decimal,
    pub order_id: Decimal,
    pub new_size: Decimal,
    pub time: Timestamp,
}

/// A change of size as the contracts see it.
pub struct ChangeSizeView {
    pub key: KeyView,
    pub market_id: DecimalView,
    pub order_id: DecimalView,
    pub new_size: DecimalView,
    pub time: Timestamp,
}

impl View for ChangeSize {
    type V = ChangeSizeView;

    open spec fn view(&self) -> ChangeSizeView {
        ChangeSizeView {
            key: self.key@,
            market_id: self.market_id@,
            order_id: self.order_id@,
            new_size: self.new_size@,
            time: self.time,
        }
    }
}

impl Clone for ChangeSize {
    fn clone(&self) -> (r: Self)
        ensures
            r@ == self@,
    {
        ChangeSize {
            key: self.key.clone(),
            market_id: self.market_id.clone(),
            order_id: self.order_id.clone(),
            new_size: self.new_size.clone(),
            time: self.time,
        }
    }
}

/// An order was cancelled.
#[derive(Debug)]
pub struct Cancel {
    pub key: EventKey,
    pub market_id: Decimal,
    pub order_id: Decimal,
    pub time: Timestamp,
}

/// A cancel as the contracts see it.
pub struct CancelView {
    pub key: KeyView,
    pub market_id: DecimalView,
    pub order_id: DecimalView,
    pub time: Timestamp,
}

impl View for Cancel {
    type V = CancelView;

    open spec fn view(&self) -> CancelView {
        CancelView {
            key: self.key@,
            market_id: self.market_id@,
            order_id: self.order_id@,
            time: self.time,
        }
    }
}

impl Clone for Cancel {
    fn clone(&self) -> (r: Self)
        ensures
            r@ == self@,
    {
        Cancel {
            key: self.key.clone(),
            market_id: self.market_id.clone(),
            order_id: self.order_id.clone(),
            time: self.time,
        }
    }
}

/// A market's registration: reference data, of which the aggregator reads
/// the lot size.
#[derive(Debug)]
pub struct MarketRegistration {
    pub market_id: Decimal,
    pub lot_size: Decimal,
}

/// A registration as the contracts see it.
pub struct MarketRegistrationView {
    pub market_id: DecimalView,
    pub lot_size: DecimalView,
}

impl View for MarketRegistration {
    type V = MarketRegistrationView;

    open spec fn view(&self) -> MarketRegistrationView {
        MarketRegistrationView { market_id: self.market_id@, lot_size: self.lot_size@ }
    }
}

/// Positions as the contracts see them, one by one.
pub open spec fn key_views(keys: Seq<EventKey>) -> Seq<KeyView> {
    keys.map_values(|key: EventKey| key@)
}

/// Registrations as the contracts see them, row by row.
pub open spec fn registration_views(rows: Seq<MarketRegistration>) -> Seq<MarketRegistrationView> {
    rows.map_values(|row: MarketRegistration| row@)
}

/// Limit placements as the contracts see them, row by row.
pub open spec fn place_limit_views(events: Seq<PlaceLimit>) -> Seq<PlaceLimitView> {
    events.map_values(|event: PlaceLimit| event@)
}

/// Market placements as the contracts see them, row by row.
pub open spec fn place_market_views(events: Seq<PlaceMarket>) -> Seq<PlaceMarketView> {
    events.map_values(|event: PlaceMarket| event@)
}

/// Swap placements as the contracts see them, row by row.
pub open spec fn place_swap_views(events: Seq<PlaceSwap>) -> Seq<PlaceSwapView> {
    events.map_values(|event: PlaceSwap| event@)
}

/// Fills as the contracts see them, row by row.
pub open spec fn fill_views(events: Seq<Fill>) -> Seq<FillView> {
    events.map_values(|event: Fill| event@)
}

/// Changes of size as the contracts see them, row by row.
pub open spec fn change_views(events: Seq<ChangeSize>) -> Seq<ChangeSizeView> {
    events.map_values(|event: ChangeSize| event@)
}

/// Cancels as the contracts see them, row by row.
pub open spec fn cancel_views(events: Seq<Cancel>) -> Seq<CancelView> {
    events.map_values(|event: Cancel| event@)
}

} // verus!
