//! The rows of the derived tables: one history row per order, and one
//! extension row in the table of the order's type.

use crate::basics::Address;
use crate::basics::OrderStatus;
use crate::basics::OrderType;
use crate::basics::Side;
use crate::basics::Timestamp;
use crate::decimal::Decimal;
use crate::decimal::DecimalView;
use vstd::prelude::*;

verus! {

/// What is known of one order: when it was placed and last touched, how much
/// of it was filled, how much is left, and how it stands.
#[derive(Debug)]
pub struct UserHistoryRow {
    pub market_id: Decimal,
    pub order_id: Decimal,
    pub created_at: Timestamp,
    pub last_updated_at: Option<Timestamp>,
    pub integrator: Address,
    pub total_filled: Decimal,
    pub remaining_size: Decimal,
    pub order_status: OrderStatus,
    pub order_type: OrderType,
}

/// A history row as the contracts see it.
pub struct HistoryView {
    pub market_id: DecimalView,
    pub order_id: DecimalView,
    pub created_at: Timestamp,
    pub last_updated_at: Option<Timestamp>,
    pub integrator: Address,
    pub total_filled: DecimalView,
    pub remaining_size: DecimalView,
    pub order_status: OrderStatus,
    pub order_type: OrderType,
}

impl View for UserHistoryRow {
    type V = HistoryView;

    open spec fn view(&self) -> HistoryView {
        HistoryView {
            market_id: self.market_id@,
            order_id: self.order_id@,
            created_at: self.created_at,
            last_updated_at: self.last_updated_at,
            integrator: self.integrator,
            total_filled: self.total_filled@,
            remaining_size: self.remaining_size@,
            order_status: self.order_status,
            order_type: self.order_type,
        }
    }
}

impl Clone for UserHistoryRow {
    fn clone(&self) -> (r: Self)
        ensures
            r@ == self@,
    {
        UserHistoryRow {
            market_id: self.market_id.clone(),
            order_id: self.order_id.clone(),
            created_at: self.created_at,
            last_updated_at: self.last_updated_at,
            integrator: self.integrator,
            total_filled: self.total_filled.clone(),
            remaining_size: self.remaining_size.clone(),
            order_status: self.order_status,
            order_type: self.order_type,
        }
    }
}

/// What a limit order adds to its history row. `last_increase_stamp` is the
/// position of the event that last gave the order its place in the queue.
#[derive(Debug)]
pub struct UserHistoryLimit {
    pub market_id: Decimal,
    pub order_id: Decimal,
    pub user: Address,
    pub custodian_id: Decimal,
    pub side: Side,
    pub self_match_behavior: u8,
    pub restriction: u8,
    pub price: Decimal,
    pub last_increase_stamp: Decimal,
}

/// A limit row as the contracts see it.
pub struct LimitView {
    pub market_id: DecimalView,
    pub order_id: DecimalView,
    pub user: Address,
    pub custodian_id: DecimalView,
    pub side: Side,
    pub self_match_behavior: u8,
    pub restriction: u8,
    pub price: DecimalView,
    pub last_increase_stamp: DecimalView,
}

impl View for UserHistoryLimit {
    type V = LimitView;

    open spec fn view(&self) -> LimitView {
        LimitView {
            market_id: self.market_id@,
            order_id: self.order_id@,
            user: self.user,
            custodian_id: self.custodian_id@,
            side: self.side,
            self_match_behavior: self.self_match_behavior,
            restriction: self.restriction,
            price: self.price@,
            last_increase_stamp: self.last_increase_stamp@,
        }
    }
}

impl Clone for UserHistoryLimit {
    fn clone(&self) -> (r: Self)
        ensures
            r@ == self@,
    {
        UserHistoryLimit {
            market_id: self.market_id.clone(),
            order_id: self.order_id.clone(),
            user: self.user,
            custodian_id: self.custodian_id.clone(),
            side: self.side,
            self_match_behavior: self.self_match_behavior,
            restriction: self.restriction,
            price: self.price.clone(),
            last_increase_stamp: self.last_increase_stamp.clone(),
        }
    }
}

/// What a market order adds to its history row.
#[derive(Debug)]
pub struct UserHistoryMarket {
    pub market_id: Decimal,
    pub order_id: Decimal,
    pub user: Address,
    pub custodian_id: Decimal,
    pub direction: u8,
    pub self_match_behavior: u8,
}

/// A market row as the contracts see it.
pub struct MarketView {
    pub market_id: DecimalView,
    pub order_id: DecimalView,
    pub user: Address,
    pub custodian_id: DecimalView,
    pub direction: u8,
    pub self_match_behavior: u8,
}

impl View for UserHistoryMarket {
    type V = MarketView;

    open spec fn view(&self) -> MarketView {
        MarketView {
            market_id: self.market_id@,
            order_id: self.order_id@,
            user: self.user,
            custodian_id: self.custodian_id@,
            direction: self.direction,
            self_match_behavior: self.self_match_behavior,
        }
    }
}

impl Clone for UserHistoryMarket {
    fn clone(&self) -> (r: Self)
        ensures
            r@ == self@,
    {
        UserHistoryMarket {
            market_id: self.market_id.clone(),
            order_id: self.order_id.clone(),
            user: self.user,
            custodian_id: self.custodian_id.clone(),
            direction: self.direction,
            self_match_behavior: self.self_match_behavior,
        }
    }
}

/// What a swap adds to its history row.
#[derive(Debug)]
pub struct UserHistorySwap {
    pub market_id: Decimal,
    pub order_id: Decimal,
    pub direction: u8,
    pub limit_price: Decimal,
    pub signing_account: Address,
    pub min_base: Decimal,
    pub max_base: Decimal,
    pub min_quote: Decimal,
    pub max_quote: Decimal,
}

/// A swap row as the contracts see it.
pub struct SwapView {
    pub market_id: DecimalView,
    pub order_id: DecimalView,
    pub direction: u8,
    pub limit_price: DecimalView,
    pub signing_account: Address,
    pub min_base: DecimalView,
    pub max_base: DecimalView,
    pub min_quote: DecimalView,
    pub max_quote: DecimalView,
}

impl View for UserHistorySwap {
    type V = SwapView;

    open spec fn view(&self) -> SwapView {
        SwapView {
            market_id: self.market_id@,
            order_id: self.order_id@,
            direction: self.direction,
            limit_price: self.limit_price@,
            signing_account: self.signing_account,
            min_base: self.min_base@,
            max_base: self.max_base@,
            min_quote: self.min_quote@,
            max_quote: self.max_quote@,
        }
    }
}

impl Clone for UserHistorySwap {
    fn clone(&self) -> (r: Self)
        ensures
            r@ == self@,
    {
        UserHistorySwap {
            market_id: self.market_id.clone(),
            order_id: self.order_id.clone(),
            direction: self.direction,
            limit_price: self.limit_price.clone(),
            signing_account: self.signing_account,
            min_base: self.min_base.clone(),
            max_base: self.max_base.clone(),
            min_quote: self.min_quote.clone(),
            max_quote: self.max_quote.clone(),
        }
    }
}

/// A history table as the contracts see it, row by row.
pub open spec fn history_views(rows: Seq<UserHistoryRow>) -> Seq<HistoryView> {
    rows.map_values(|row: UserHistoryRow| row@)
}

/// A limit table as the contracts see it, row by row.
pub open spec fn limit_views(rows: Seq<UserHistoryLimit>) -> Seq<LimitView> {
    rows.map_values(|row: UserHistoryLimit| row@)
}

/// A market table as the contracts see it, row by row.
pub open spec fn market_views(rows: Seq<UserHistoryMarket>) -> Seq<MarketView> {
    rows.map_values(|row: UserHistoryMarket| row@)
}

/// A swap table as the contracts see it, row by row.
pub open spec fn swap_views(rows: Seq<UserHistorySwap>) -> Seq<SwapView> {
    rows.map_values(|row: UserHistorySwap| row@)
}

} // verus!
