//! Orders, the requests that change them, and what the book reads in them.

use vstd::prelude::*;

use pricelevel::{OrderId, PegReferenceType};

verus! {

/// The identifier of an order. The book compares identifiers and passes them
/// on; it never looks inside one.
#[verifier::external_type_specification]
#[verifier::external_body]
pub struct ExOrderId(pricelevel::OrderId);

/// The price that a pegged order follows. The book only carries it.
#[verifier::external_type_specification]
#[verifier::external_body]
pub struct ExPegReferenceType(pricelevel::PegReferenceType);

/// The side of an order.
#[derive(Clone, Copy, Debug, PartialEq, Eq, Structural)]
pub enum Side {
    /// A bid.
    Buy,
    /// An ask.
    Sell,
}

impl Side {
    /// The side that an order on this side trades with.
    pub open spec fn other(self) -> Side {
        match self {
            Side::Buy => Side::Sell,
            Side::Sell => Side::Buy,
        }
    }

    /// The side that an order on this side trades with.
    pub fn opposite(&self) -> (side: Side)
        ensures
            side == self.other(),
    {
        match self {
            Side::Buy => Side::Sell,
            Side::Sell => Side::Buy,
        }
    }
}

/// How long an order stays active.
#[derive(Clone, Copy, Debug, PartialEq, Eq, Structural)]
pub enum TimeInForce {
    /// Good until cancelled.
    Gtc,
    /// Immediate or cancel: what does not trade at once is dropped.
    Ioc,
    /// Fill or kill: trades at once and entirely, or not at all.
    Fok,
    /// Good until the given time.
    Gtd(u64),
    /// Good until the market closes.
    Day,
}

impl TimeInForce {
    /// Whether an order with this policy never rests in the book.
    pub open spec fn immediate(self) -> bool {
        self is Ioc || self is Fok
    }

    /// Whether an order with this policy is over at time `now`, on a day on
    /// which the market closes at `close`.
    pub open spec fn expired(self, now: u64, close: Option<u64>) -> bool {
        match self {
            TimeInForce::Gtd(expiry) => now >= expiry,
            TimeInForce::Day => match close {
                Some(time) => now >= time,
                None => false,
            },
            _ => false,
        }
    }

    /// Whether an order with this policy never rests in the book.
    pub fn is_immediate(&self) -> (b: bool)
        ensures
            b == self.immediate(),
    {
        match self {
            TimeInForce::Ioc | TimeInForce::Fok => true,
            _ => false,
        }
    }

    /// Whether an order with this policy is over at time `now`, on a day on
    /// which the market closes at `close`.
    pub fn is_expired(&self, now: u64, close: Option<u64>) -> (b: bool)
        ensures
            b == self.expired(now, close),
    {
        match self {
            TimeInForce::Gtd(expiry) => now >= *expiry,
            TimeInForce::Day => match close {
                Some(time) => now >= time,
                None => false,
            },
            _ => false,
        }
    }
}

/// What an order does, with its quantities.
#[derive(Clone, Copy, Debug, PartialEq, Eq)]
pub enum OrderKind {
    /// Trades at the prices that it finds, up to its own.
    Market { quantity: u64 },
    /// A limit order.
    Standard { quantity: u64 },
    /// Shows a part of its quantity and keeps the rest hidden.
    IcebergOrder { visible_quantity: u64, hidden_quantity: u64 },
    /// Must not trade on arrival.
    PostOnly { quantity: u64 },
    /// Follows the market at a distance.
    TrailingStop { quantity: u64, trail_amount: u64, last_reference_price: u64 },
    /// Follows a reference price.
    PeggedOrder {
        quantity: u64,
        reference_price_offset: i64,
        reference_price_type: PegReferenceType,
    },
    /// Trades on arrival, then rests as a limit order.
    MarketToLimit { quantity: u64 },
    /// Shows a part of its quantity and refills it from the rest by its own rules.
    ReserveOrder {
        visible_quantity: u64,
        hidden_quantity: u64,
        replenish_threshold: u64,
        replenish_amount: Option<u64>,
        auto_replenish: bool,
    },
}

impl OrderKind {
    /// The quantity that the order shows.
    pub open spec fn visible(self) -> u64 {
        match self {
            OrderKind::Market { quantity } => quantity,
            OrderKind::Standard { quantity } => quantity,
            OrderKind::IcebergOrder { visible_quantity, .. } => visible_quantity,
            OrderKind::PostOnly { quantity } => quantity,
            OrderKind::TrailingStop { quantity, .. } => quantity,
            OrderKind::PeggedOrder { quantity, .. } => quantity,
            OrderKind::MarketToLimit { quantity } => quantity,
            OrderKind::ReserveOrder { visible_quantity, .. } => visible_quantity,
        }
    }

    /// The quantity that the order holds back.
    pub open spec fn hidden(self) -> u64 {
        match self {
            OrderKind::IcebergOrder { hidden_quantity, .. } => hidden_quantity,
            OrderKind::ReserveOrder { hidden_quantity, .. } => hidden_quantity,
            _ => 0,
        }
    }

    /// The whole quantity of the order.
    pub open spec fn total(self) -> int {
        self.visible() + self.hidden()
    }

    /// Whether the order is a reserve order that refills itself by the rules of `other`.
    pub open spec fn same_rules(self, other: OrderKind) -> bool {
        match (self, other) {
            (
                OrderKind::ReserveOrder {
                    replenish_threshold,
                    replenish_amount,
                    auto_replenish,
                    ..
                },
                OrderKind::ReserveOrder {
                    replenish_threshold: threshold,
                    replenish_amount: amount,
                    auto_replenish: auto,
                    ..
                },
            ) => threshold == replenish_threshold && amount == replenish_amount && auto == auto_replenish,
            _ => false,
        }
    }

    /// The same kind of order showing `q`, all else unchanged.
    pub open spec fn showing(self, q: u64) -> OrderKind {
        match self {
            OrderKind::Market { .. } => OrderKind::Market { quantity: q },
            OrderKind::Standard { .. } => OrderKind::Standard { quantity: q },
            OrderKind::IcebergOrder { hidden_quantity, .. } => OrderKind::IcebergOrder {
                visible_quantity: q,
                hidden_quantity,
            },
            OrderKind::PostOnly { .. } => OrderKind::PostOnly { quantity: q },
            OrderKind::TrailingStop { trail_amount, last_reference_price, .. } =>
                OrderKind::TrailingStop { quantity: q, trail_amount, last_reference_price },
            OrderKind::PeggedOrder { reference_price_offset, reference_price_type, .. } =>
                OrderKind::PeggedOrder {
                    quantity: q,
                    reference_price_offset,
                    reference_price_type,
                },
            OrderKind::MarketToLimit { .. } => OrderKind::MarketToLimit { quantity: q },
            OrderKind::ReserveOrder {
                hidden_quantity,
                replenish_threshold,
                replenish_amount,
                auto_replenish,
                ..
            } => OrderKind::ReserveOrder {
                visible_quantity: q,
                hidden_quantity,
                replenish_threshold,
                replenish_amount,
                auto_replenish,
            },
        }
    }

    /// The same kind of order showing `q`, all else unchanged.
    pub fn with_visible(&self, q: u64) -> (kind: OrderKind)
        ensures
            kind == self.showing(q),
    {
        match *self {
            OrderKind::Market { .. } => OrderKind::Market { quantity: q },
            OrderKind::Standard { .. } => OrderKind::Standard { quantity: q },
            OrderKind::IcebergOrder { hidden_quantity, .. } => OrderKind::IcebergOrder {
                visible_quantity: q,
                hidden_quantity,
            },
            OrderKind::PostOnly { .. } => OrderKind::PostOnly { quantity: q },
            OrderKind::TrailingStop { trail_amount, last_reference_price, .. } =>
                OrderKind::TrailingStop { quantity: q, trail_amount, last_reference_price },
            OrderKind::PeggedOrder { reference_price_offset, reference_price_type, .. } =>
                OrderKind::PeggedOrder {
                    quantity: q,
                    reference_price_offset,
                    reference_price_type,
                },
            OrderKind::MarketToLimit { .. } => OrderKind::MarketToLimit { quantity: q },
            OrderKind::ReserveOrder {
                hidden_quantity,
                replenish_threshold,
                replenish_amount,
                auto_replenish,
                ..
            } => OrderKind::ReserveOrder {
                visible_quantity: q,
                hidden_quantity,
                replenish_threshold,
                replenish_amount,
                auto_replenish,
            },
        }
    }
}

/// An order with data of the caller's own, which the book never reads.
#[derive(Debug, PartialEq, Eq)]
pub struct Order<T> {
    /// The identifier of the order.
    pub id: OrderId,
    /// The limit price.
    pub price: u64,
    /// The side of the book that the order belongs to.
    pub side: Side,
    /// When the order was made.
    pub timestamp: u64,
    /// How long the order stays active.
    pub time_in_force: TimeInForce,
    /// What the order does, with its quantities.
    pub kind: OrderKind,
    /// The caller's own data.
    pub extra_fields: T,
}

impl<T> Order<T> {
    /// The order without the caller's data: what the book keeps of it.
    pub open spec fn bare(self) -> Order<()> {
        Order {
            id: self.id,
            price: self.price,
            side: self.side,
            timestamp: self.timestamp,
            time_in_force: self.time_in_force,
            kind: self.kind,
            extra_fields: (),
        }
    }

    /// The quantity that the order holds back.
    pub fn hidden_quantity(&self) -> (q: u64)
        ensures
            q == self.kind.hidden(),
    {
        match self.kind {
            OrderKind::IcebergOrder { hidden_quantity, .. } => hidden_quantity,
            OrderKind::ReserveOrder { hidden_quantity, .. } => hidden_quantity,
            _ => 0,
        }
    }

    /// Whether the order never rests in the book.
    pub fn is_immediate(&self) -> (b: bool)
        ensures
            b == self.time_in_force.immediate(),
    {
        self.time_in_force.is_immediate()
    }

    /// Whether the order trades at once and entirely, or not at all.
    pub fn is_fill_or_kill(&self) -> (b: bool)
        ensures
            b == (self.time_in_force is Fok),
    {
        match self.time_in_force {
            TimeInForce::Fok => true,
            _ => false,
        }
    }

    /// Whether the order must not trade on arrival.
    pub fn is_post_only(&self) -> (b: bool)
        ensures
            b == (self.kind is PostOnly),
    {
        match self.kind {
            OrderKind::PostOnly { .. } => true,
            _ => false,
        }
    }
}

impl<T: Clone> Clone for Order<T> {
    fn clone(&self) -> (order: Self)
        ensures
            order.bare() == self.bare(),
            cloned::<T>(self.extra_fields, order.extra_fields),
    {
        Order {
            id: self.id,
            price: self.price,
            side: self.side,
            timestamp: self.timestamp,
            time_in_force: self.time_in_force,
            kind: self.kind,
            extra_fields: self.extra_fields.clone(),
        }
    }
}

impl<T: Copy> Copy for Order<T> {

}

/// A request to change a resting order.
#[derive(Clone, Copy, Debug)]
pub enum OrderUpdate {
    /// Move the order to another price.
    UpdatePrice { order_id: OrderId, new_price: u64 },
    /// Change the quantity that the order shows.
    UpdateQuantity { order_id: OrderId, new_quantity: u64 },
    /// Move the order and change its quantity.
    UpdatePriceAndQuantity { order_id: OrderId, new_price: u64, new_quantity: u64 },
    /// Take the order out of the book.
    Cancel { order_id: OrderId },
    /// Put the order back with another price, quantity and side.
    Replace { order_id: OrderId, price: u64, quantity: u64, side: Side },
}

impl OrderUpdate {
    /// The order that the request is about.
    pub open spec fn target(self) -> OrderId {
        match self {
            OrderUpdate::UpdatePrice { order_id, .. } => order_id,
            OrderUpdate::UpdateQuantity { order_id, .. } => order_id,
            OrderUpdate::UpdatePriceAndQuantity { order_id, .. } => order_id,
            OrderUpdate::Cancel { order_id } => order_id,
            OrderUpdate::Replace { order_id, .. } => order_id,
        }
    }

    /// The order that the request is about.
    pub fn order_id(&self) -> (id: OrderId)
        ensures
            id == self.target(),
    {
        match *self {
            OrderUpdate::UpdatePrice { order_id, .. } => order_id,
            OrderUpdate::UpdateQuantity { order_id, .. } => order_id,
            OrderUpdate::UpdatePriceAndQuantity { order_id, .. } => order_id,
            OrderUpdate::Cancel { order_id } => order_id,
            OrderUpdate::Replace { order_id, .. } => order_id,
        }
    }
}

} // verus!
