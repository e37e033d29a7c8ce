//! The orders that rest at one price.
//!
//! A price level is kept by the `pricelevel` crate. This module says what a level
//! holds and what its operations do to it, and turns the orders of that crate
//! into orders of this one and back.

use crate::order::{Order, OrderKind, Side, TimeInForce};
use crate::quantity::{lesser, OrderQuantity};
use pricelevel::{OrderId, PriceLevel, PriceLevelError, UuidGenerator};
use std::sync::Arc;
use vstd::prelude::*;

verus! {

/// A price level of the `pricelevel` crate.
#[verifier::external_type_specification]
#[verifier::external_body]
pub struct ExPriceLevel(pricelevel::PriceLevel);

/// An order of the `pricelevel` crate.
#[verifier::external_type_specification]
#[verifier::external_body]
#[verifier::reject_recursive_types(T)]
pub struct ExLevelOrder<T>(pricelevel::OrderType<T>);

/// What the `pricelevel` crate reports when an operation on a level fails.
#[verifier::external_type_specification]
#[verifier::external_body]
pub struct ExPriceLevelError(pricelevel::PriceLevelError);

/// The source of transaction identifiers.
#[verifier::external_type_specification]
#[verifier::external_body]
pub struct ExUuidGenerator(pricelevel::UuidGenerator);

/// What a price level holds.
#[verifier::ext_equal]
pub struct LevelState {
    /// The price of the level.
    pub price: u64,
    /// The orders at the level, by identifier.
    pub orders: Map<OrderId, Order<()>>,
    /// The identifiers in the order in which matching comes to them. One that
    /// names no order is passed over.
    pub queue: Seq<OrderId>,
    /// The number of orders that the level counts.
    pub count: usize,
}

/// A part of an incoming order that traded with one resting order.
pub struct Fill {
    /// The resting order.
    pub maker: OrderId,
    /// The quantity that traded.
    pub quantity: u64,
    /// The side of the incoming order.
    pub taker_side: Side,
}

/// What matching does at one level.
pub struct LevelMatch {
    /// What the level holds afterwards.
    pub after: LevelState,
    /// The trades, in the order in which they happened.
    pub fills: Seq<Fill>,
    /// The resting orders that were used up, in the order in which they were.
    pub filled: Seq<OrderId>,
    /// The quantity that found no resting order.
    pub remaining: u64,
}

/// `x` in a machine-sized counter that wraps around.
pub open spec fn wrapped_count(x: int) -> usize {
    (x % (usize::MAX + 1)) as usize
}

/// A count that fits does not wrap around.
pub proof fn lemma_count_fits(x: int)
    requires
        0 <= x <= usize::MAX,
    ensures
        wrapped_count(x) == x,
{
    vstd::arithmetic::div_mod::lemma_small_mod(x as nat, (usize::MAX + 1) as nat);
}

/// What a resting order becomes when its level is told to give it the quantity
/// `q`: the kinds of which the level knows how to do so show `q`, the others do
/// not change.
pub open spec fn requantified(order: Order<()>, q: u64) -> Order<()> {
    match order.kind {
        OrderKind::Standard { .. } | OrderKind::IcebergOrder { .. } | OrderKind::PostOnly {
            ..
        } => Order { kind: order.kind.showing(q), ..order },
        _ => order,
    }
}

/// The quantity with which a reserve order that names none refills itself.
pub open spec fn default_refill() -> u64 {
    80
}

/// The quantity that a resting order brings out of hiding when it refills itself.
pub open spec fn refilled(kind: OrderKind) -> int {
    match kind {
        OrderKind::IcebergOrder { visible_quantity, hidden_quantity } => lesser(
            visible_quantity as int,
            hidden_quantity as int,
        ),
        OrderKind::ReserveOrder {
            hidden_quantity,
            replenish_amount,
            auto_replenish: true,
            ..
        } => lesser(
            match replenish_amount {
                Some(amount) => amount as int,
                None => default_refill() as int,
            },
            hidden_quantity as int,
        ),
        _ => 0,
    }
}

/// Whether a resting order takes what it hides with it once it shows nothing more.
pub open spec fn forfeits(kind: OrderKind) -> bool {
    kind matches OrderKind::ReserveOrder { auto_replenish, .. } && !auto_replenish
}

/// Whether a resting order is never used up: it hides something, and refills itself with
/// nothing.
pub open spec fn stalls(kind: OrderKind) -> bool {
    kind.hidden() > 0 && refilled(kind) == 0 && !forfeits(kind)
}

/// Whether a resting order shows something until it is used up.
pub open spec fn lasting(kind: OrderKind) -> bool {
    kind.visible() > 0 && !stalls(kind)
}

/// The largest quantity that one trade can take from a resting order.
pub open spec fn largest_fill(kind: OrderKind) -> int {
    if refilled(kind) > kind.visible() {
        refilled(kind)
    } else {
        kind.visible() as int
    }
}

/// The quantity that a resting order gives up.
pub open spec fn yielded(kind: OrderKind) -> nat {
    if forfeits(kind) || stalls(kind) {
        kind.visible() as nat
    } else {
        kind.total() as nat
    }
}

/// Whether a resting order of the kind `before` that gave up `quantity` and is still there
/// may be of the kind `after`. An iceberg order brings as much out of hiding as it showed
/// each time that is gone. A reserve order has as much less as it gave up. The kinds of
/// which a level does not know how to change the quantity stay as they were.
pub open spec fn left_as(before: OrderKind, quantity: nat, after: OrderKind) -> bool {
    match before {
        OrderKind::Standard { .. } | OrderKind::PostOnly { .. } => {
            &&& quantity <= before.visible()
            &&& after == before.showing((before.visible() - quantity) as u64)
        },
        OrderKind::IcebergOrder { visible_quantity, hidden_quantity } => {
            let refills = if quantity < visible_quantity || visible_quantity == 0 {
                0
            } else {
                lesser(hidden_quantity as int, quantity - quantity % visible_quantity as nat)
            };
            &&& quantity <= before.total()
            &&& after == (OrderKind::IcebergOrder {
                visible_quantity: (visible_quantity + refills - quantity) as u64,
                hidden_quantity: (hidden_quantity - refills) as u64,
            })
        },
        OrderKind::ReserveOrder { auto_replenish, .. } => {
            &&& after.total() + quantity == before.total()
            &&& after.same_rules(before)
            &&& !auto_replenish ==> after.hidden() == before.hidden()
        },
        _ => after == before,
    }
}

/// Whether the order `a` is before the order `b` in `queue`.
pub open spec fn ahead_in_line(queue: Seq<OrderId>, a: OrderId, b: OrderId) -> bool {
    exists|i: int|
        0 <= i < queue.len() && #[trigger] queue[i] == a && forall|j: int|
            0 <= j <= i ==> queue[j] != b
}

/// The quantity that `orders` give up.
pub open spec fn supply(orders: Map<OrderId, Order<()>>) -> nat
    decreases orders.dom().len(),
    when orders.dom().finite()
{
    if orders.dom().len() == 0 {
        0
    } else {
        let id = orders.dom().choose();
        yielded(orders[id].kind) + supply(orders.remove(id))
    }
}

/// What is left of `quantity` after `supply` of it was met.
pub open spec fn unmet(quantity: u64, supply: nat) -> int {
    if quantity > supply {
        quantity - supply
    } else {
        0
    }
}

/// Whether a resting order can be traded with up to `quantity`: neither the value of a
/// trade nor what a reserve order shows after a refill exceeds a machine word.
pub open spec fn tradable(order: Order<()>, quantity: u64) -> bool {
    &&& lesser(quantity as int, largest_fill(order.kind)) * order.price <= u64::MAX
    &&& order.kind is ReserveOrder && refilled(order.kind) > 0 ==> order.kind.total() <= u64::MAX
}

impl LevelState {
    /// A level at `price` without orders.
    pub open spec fn empty(price: u64) -> LevelState {
        LevelState {
            price,
            orders: Map::empty(),
            queue: Seq::empty(),
            count: 0,
        }
    }

    /// The level after `order` came to rest there.
    pub open spec fn with_order(self, order: Order<()>) -> LevelState {
        LevelState {
            orders: self.orders.insert(order.id, order),
            queue: self.queue.push(order.id),
            count: wrapped_count(self.count + 1),
            ..self
        }
    }

    /// The level after the order `id` was taken out.
    pub open spec fn without_order(self, id: OrderId) -> LevelState {
        if self.orders.contains_key(id) {
            LevelState {
                orders: self.orders.remove(id),
                count: wrapped_count(self.count - 1),
                ..self
            }
        } else {
            self
        }
    }

    /// The level after it was told to give the order `id` the quantity `q`.
    pub open spec fn with_quantity(self, id: OrderId, q: u64) -> LevelState {
        if self.orders.contains_key(id) {
            LevelState {
                orders: self.orders.insert(id, requantified(self.orders[id], q)),
                queue: self.queue.push(id),
                ..self
            }
        } else {
            self
        }
    }

    /// Whether an incoming order of `quantity` can be matched with the orders at the
    /// level: no trade is of too great a value, and there is an end to it.
    pub open spec fn settles(self, quantity: u64) -> bool {
        forall|id: OrderId| #[trigger]
            self.orders.contains_key(id) ==> {
                &&& tradable(self.orders[id], quantity)
                &&& stalls(self.orders[id].kind) ==> quantity <= supply(self.orders)
            }
    }

    /// Whether every order at the level is kept under its identifier, and is at the
    /// price of the level and on `side`.
    pub open spec fn homed(self, side: Side) -> bool {
        forall|id: OrderId| #[trigger]
            self.orders.contains_key(id) ==> {
                &&& self.orders[id].id == id
                &&& self.orders[id].price == self.price
                &&& self.orders[id].side == side
            }
    }

    /// Whether the level counts its orders rightly. It does unless an order came
    /// to rest under the identifier of another.
    pub open spec fn counted(self) -> bool {
        self.orders.dom().finite() && self.count == self.orders.len()
    }
}

/// What `level` holds: the fields of `pricelevel::PriceLevel` but its two counters of
/// quantity and its statistics.
pub uninterp spec fn level_state(level: PriceLevel) -> LevelState;

/// The plain values in an order of the `pricelevel` crate.
pub uninterp spec fn order_held(order: pricelevel::OrderType<()>) -> Order<()>;

/// What `pricelevel::PriceLevel::match_order` does for `quantity` at a level that
/// holds `state`.
pub uninterp spec fn matched(state: LevelState, quantity: u64) -> LevelMatch;

/// A completed trade.
#[derive(Clone, Copy, Debug, PartialEq, Eq)]
pub struct Transaction {
    /// The identifier of the trade.
    pub transaction_id: u128,
    /// The incoming order.
    pub taker_order_id: OrderId,
    /// The resting order.
    pub maker_order_id: OrderId,
    /// The price of the trade.
    pub price: u64,
    /// The quantity that traded.
    pub quantity: u64,
    /// The side of the incoming order.
    pub taker_side: Side,
    /// When the trade happened.
    pub timestamp: u64,
}

/// What two orders exchanged, without the trade's identifier and time.
pub struct Execution {
    pub taker: OrderId,
    pub maker: OrderId,
    pub price: u64,
    pub quantity: u64,
    pub taker_side: Side,
}

impl View for Transaction {
    type V = Execution;

    open spec fn view(&self) -> Execution {
        Execution {
            taker: self.taker_order_id,
            maker: self.maker_order_id,
            price: self.price,
            quantity: self.quantity,
            taker_side: self.taker_side,
        }
    }
}

/// The trades of the incoming order `taker` at a level of `price`.
pub open spec fn executions(taker: OrderId, price: u64, fills: Seq<Fill>) -> Seq<Execution> {
    fills.map_values(
        |fill: Fill|
            Execution {
                taker,
                maker: fill.maker,
                price,
                quantity: fill.quantity,
                taker_side: fill.taker_side,
            },
    )
}

/// The views of `transactions`.
pub open spec fn trades(transactions: Seq<Transaction>) -> Seq<Execution> {
    transactions.map_values(|t: Transaction| t@)
}

/// The quantity that traded in all of `executions`.
pub open spec fn volume(executions: Seq<Execution>) -> int
    decreases executions.len(),
{
    if executions.len() == 0 {
        0
    } else {
        volume(executions.drop_last()) + executions.last().quantity
    }
}

/// The quantity that the order `maker` gave up at `price` in `executions`.
pub open spec fn traded(executions: Seq<Execution>, price: u64, maker: OrderId) -> nat
    decreases executions.len(),
{
    if executions.len() == 0 {
        0
    } else {
        let last = executions.last();
        traded(executions.drop_last(), price, maker) + if last.price == price && last.maker == maker {
            last.quantity as nat
        } else {
            0
        }
    }
}

/// What an order gave up in two runs of trades adds up.
pub proof fn lemma_traded_sum(a: Seq<Execution>, b: Seq<Execution>, price: u64, maker: OrderId)
    ensures
        traded(a + b, price, maker) == traded(a, price, maker) + traded(b, price, maker),
    decreases b.len(),
{
    if b.len() == 0 {
        assert(a + b =~= a);
    } else {
        assert((a + b).drop_last() =~= a + b.drop_last());
        lemma_traded_sum(a, b.drop_last(), price, maker);
    }
}

/// An order gave up nothing at a price at which there was no trade.
pub proof fn lemma_traded_none(executions: Seq<Execution>, price: u64, maker: OrderId)
    requires
        forall|k: int| 0 <= k < executions.len() ==> (#[trigger] executions[k]).price != price,
    ensures
        traded(executions, price, maker) == 0,
    decreases executions.len(),
{
    if executions.len() > 0 {
        assert(executions.last() == executions[executions.len() - 1]);
        assert forall|k: int| 0 <= k < executions.drop_last().len() implies (
        #[trigger] executions.drop_last()[k]).price != price by {
            assert(executions.drop_last()[k] == executions[k]);
        }
        lemma_traded_none(executions.drop_last(), price, maker);
    }
}

/// The quantities of two runs of trades add up.
pub proof fn lemma_volume_sum(a: Seq<Execution>, b: Seq<Execution>)
    ensures
        volume(a + b) == volume(a) + volume(b),
    decreases b.len(),
{
    if b.len() == 0 {
        assert(a + b =~= a);
    } else {
        assert((a + b).drop_last() =~= a + b.drop_last());
        lemma_volume_sum(a, b.drop_last());
    }
}

/// No quantity that traded is negative.
pub proof fn lemma_volume_positive(executions: Seq<Execution>)
    ensures
        volume(executions) >= 0,
    decreases executions.len(),
{
    if executions.len() > 0 {
        lemma_volume_positive(executions.drop_last());
    }
}

/// What orders give up is what one of them gives up, and what the others do.
pub proof fn lemma_supply_remove(orders: Map<OrderId, Order<()>>, id: OrderId)
    requires
        orders.dom().finite(),
        orders.contains_key(id),
    ensures
        supply(orders) == yielded(orders[id].kind) + supply(orders.remove(id)),
    decreases orders.dom().len(),
{
    assert(orders.dom().contains(id));
    let first = orders.dom().choose();
    if first != id {
        lemma_supply_remove(orders.remove(first), id);
        lemma_supply_remove(orders.remove(id), first);
        assert(orders.remove(first).remove(id) =~= orders.remove(id).remove(first));
    }
}

/// Calls `==` of `pricelevel::OrderId`: two identifiers are equal when they have
/// the same format and the same value.
#[verifier::external_body]
pub(crate) fn same_id(a: &OrderId, b: &OrderId) -> (same: bool)
    ensures
        same == (*a == *b),
{
    a == b
}

/// Builds `pricelevel::OrderType::Standard` of the given values.
#[verifier::external_body]
fn standard_order(
    id: OrderId,
    price: u64,
    quantity: u64,
    side: Side,
    timestamp: u64,
    time_in_force: TimeInForce,
) -> (order: pricelevel::OrderType<()>)
    ensures
        order_held(order) == (Order {
            id,
            price,
            side,
            timestamp,
            time_in_force,
            kind: OrderKind::Standard { quantity },
            extra_fields: (),
        }),
{
    let side = match side {
        Side::Buy => pricelevel::Side::Buy,
        Side::Sell => pricelevel::Side::Sell,
    };
    let time_in_force = match time_in_force {
        TimeInForce::Gtc => pricelevel::TimeInForce::Gtc,
        TimeInForce::Ioc => pricelevel::TimeInForce::Ioc,
        TimeInForce::Fok => pricelevel::TimeInForce::Fok,
        TimeInForce::Gtd(expiry) => pricelevel::TimeInForce::Gtd(expiry),
        TimeInForce::Day => pricelevel::TimeInForce::Day,
    };
    pricelevel::OrderType::Standard { id, price, quantity, side, timestamp, time_in_force, extra_fields: () }
}

/// Builds the variant of `pricelevel::OrderType` for `kind`, one of three, with
/// the identifier, price, side, time and policy that the methods of that type
/// read in `order`.
#[verifier::external_body]
fn of_simple_kind(order: pricelevel::OrderType<()>, kind: OrderKind) -> (changed: pricelevel::OrderType<()>)
    requires
        kind is IcebergOrder || kind is PostOnly || kind is MarketToLimit,
    ensures
        order_held(changed) == (Order { kind, ..order_held(order) }),
{
    let (id, price, side) = (order.id(), order.price(), order.side());
    let (timestamp, time_in_force, extra_fields) = (order.timestamp(), order.time_in_force(), ());
    match kind {
        OrderKind::IcebergOrder { visible_quantity, hidden_quantity } =>
            pricelevel::OrderType::IcebergOrder {
                id, price, visible_quantity, hidden_quantity, side, timestamp, time_in_force, extra_fields },
        OrderKind::PostOnly { quantity } =>
            pricelevel::OrderType::PostOnly { id, price, quantity, side, timestamp, time_in_force, extra_fields },
        OrderKind::MarketToLimit { quantity } =>
            pricelevel::OrderType::MarketToLimit { id, price, quantity, side, timestamp, time_in_force, extra_fields },
        _ => order,
    }
}

/// Builds the variant of `pricelevel::OrderType` for `kind`, one of three, with
/// the identifier, price, side, time and policy that the methods of that type
/// read in `order`.
#[verifier::external_body]
fn of_special_kind(order: pricelevel::OrderType<()>, kind: OrderKind) -> (changed: pricelevel::OrderType<()>)
    requires
        kind is TrailingStop || kind is PeggedOrder || kind is ReserveOrder,
    ensures
        order_held(changed) == (Order { kind, ..order_held(order) }),
{
    let (id, price, side) = (order.id(), order.price(), order.side());
    let (timestamp, time_in_force, extra_fields) = (order.timestamp(), order.time_in_force(), ());
    match kind {
        OrderKind::TrailingStop { quantity, trail_amount, last_reference_price } => pricelevel::OrderType::TrailingStop {
            id, price, quantity, side, timestamp, time_in_force, trail_amount, last_reference_price, extra_fields },
        OrderKind::PeggedOrder { quantity, reference_price_offset, reference_price_type } => pricelevel::OrderType::PeggedOrder {
            id, price, quantity, side, timestamp, time_in_force, reference_price_offset, reference_price_type, extra_fields },
        OrderKind::ReserveOrder { visible_quantity, hidden_quantity, replenish_threshold, replenish_amount, auto_replenish } =>
            pricelevel::OrderType::ReserveOrder {
                id, price, visible_quantity, hidden_quantity, side, timestamp, time_in_force,
                replenish_threshold, replenish_amount, auto_replenish, extra_fields },
        _ => order,
    }
}

/// Reads an order with `id`, `price`, `side`, `timestamp` and `time_in_force` of
/// `pricelevel::OrderType`.
#[verifier::external_body]
fn order_terms(order: &pricelevel::OrderType<()>) -> (terms: (OrderId, u64, Side, u64, TimeInForce))
    ensures
        terms.0 == order_held(*order).id,
        terms.1 == order_held(*order).price,
        terms.2 == order_held(*order).side,
        terms.3 == order_held(*order).timestamp,
        terms.4 == order_held(*order).time_in_force,
{
    let side = match order.side() {
        pricelevel::Side::Buy => Side::Buy,
        pricelevel::Side::Sell => Side::Sell,
    };
    let time_in_force = match order.time_in_force() {
        pricelevel::TimeInForce::Gtc => TimeInForce::Gtc,
        pricelevel::TimeInForce::Ioc => TimeInForce::Ioc,
        pricelevel::TimeInForce::Fok => TimeInForce::Fok,
        pricelevel::TimeInForce::Gtd(expiry) => TimeInForce::Gtd(expiry),
        pricelevel::TimeInForce::Day => TimeInForce::Day,
    };
    (order.id(), order.price(), side, order.timestamp(), time_in_force)
}

/// Tells the variants of `pricelevel::OrderType` apart and reads what only one of
/// them has.
#[verifier::external_body]
fn order_kind(order: &pricelevel::OrderType<()>) -> (kind: OrderKind)
    ensures
        kind == order_held(*order).kind,
{
    match *order {
        pricelevel::OrderType::Standard { quantity, .. } => OrderKind::Standard { quantity },
        pricelevel::OrderType::IcebergOrder { visible_quantity, hidden_quantity, .. } =>
            OrderKind::IcebergOrder { visible_quantity, hidden_quantity },
        pricelevel::OrderType::PostOnly { quantity, .. } => OrderKind::PostOnly { quantity },
        pricelevel::OrderType::TrailingStop { quantity, trail_amount, last_reference_price, .. } =>
            OrderKind::TrailingStop { quantity, trail_amount, last_reference_price },
        pricelevel::OrderType::PeggedOrder { quantity, reference_price_offset, reference_price_type, .. } =>
            OrderKind::PeggedOrder { quantity, reference_price_offset, reference_price_type },
        pricelevel::OrderType::MarketToLimit { quantity, .. } => OrderKind::MarketToLimit { quantity },
        pricelevel::OrderType::ReserveOrder { visible_quantity, hidden_quantity, replenish_threshold, replenish_amount, auto_replenish, .. } =>
            OrderKind::ReserveOrder { visible_quantity, hidden_quantity, replenish_threshold, replenish_amount, auto_replenish },
    }
}

/// Reads `pricelevel::DEFAULT_RESERVE_REPLENISH_AMOUNT`, the quantity with which that
/// crate refills a reserve order that names none.
#[verifier::external_body]
fn outside_refill() -> (amount: u64)
    ensures
        amount == default_refill(),
{
    pricelevel::DEFAULT_RESERVE_REPLENISH_AMOUNT
}

/// Calls `pricelevel::PriceLevel::new`: a level at `price` without orders.
#[verifier::external_body]
pub(crate) fn new_level(price: u64) -> (level: PriceLevel)
    ensures
        level_state(level) == LevelState::empty(price),
{
    PriceLevel::new(price)
}

/// Calls `pricelevel::PriceLevel::add_order`: puts `order` into the level under
/// its identifier, in place of an order that was there under the same one, puts
/// the identifier at the end of the queue, adds to the three counters, and hands
/// the order back.
#[verifier::external_body]
fn level_add_order(level: &mut PriceLevel, order: pricelevel::OrderType<()>) -> (added: Arc<pricelevel::OrderType<()>>)
    ensures
        level_state(*final(level)) == level_state(*old(level)).with_order(order_held(order)),
        order_held(*added) == order_held(order),
{
    level.add_order(order)
}

/// Calls `pricelevel::PriceLevel::update_order`, with `UpdateQuantity` where a
/// quantity is given and with `Cancel` where none is. Neither fails. A level
/// without the order stays as it is, and nothing comes back. Otherwise the order
/// is taken out and handed back; or it is given the quantity, its identifier is put
/// at the end of the queue once more, and it comes back as it is now.
#[verifier::external_body]
fn level_update_order(level: &mut PriceLevel, order_id: OrderId, quantity: Option<u64>) -> (result: Result<
    Option<Arc<pricelevel::OrderType<()>>>,
    PriceLevelError,
>)
    ensures
        result matches Ok(order) && order is Some == level_state(*old(level)).orders.contains_key(order_id),
        match quantity {
            Some(q) => {
                &&& level_state(*final(level)) == level_state(*old(level)).with_quantity(order_id, q)
                &&& result->Ok_0 matches Some(order) ==> order_held(*order) == requantified(
                    level_state(*old(level)).orders[order_id],
                    q,
                )
            },
            None => {
                &&& level_state(*final(level)) == level_state(*old(level)).without_order(order_id)
                &&& result->Ok_0 matches Some(order) ==> order_held(*order) == level_state(
                    *old(level),
                ).orders[order_id]
            },
        },
{
    level.update_order(match quantity {
        Some(new_quantity) => pricelevel::OrderUpdate::UpdateQuantity { order_id, new_quantity },
        None => pricelevel::OrderUpdate::Cancel { order_id },
    })
}

/// Calls `pricelevel::PriceLevel::order_count`, which reads the counter of orders.
#[verifier::external_body]
pub(crate) fn level_order_count(level: &PriceLevel) -> (count: usize)
    ensures
        count == level_state(*level).count,
{
    level.order_count()
}

/// Calls `pricelevel::PriceLevel::iter_orders`: every order at the level once,
/// earlier timestamps first.
#[verifier::external_body]
fn level_iter_orders(level: &PriceLevel) -> (orders: Vec<Arc<pricelevel::OrderType<()>>>)
    ensures
        orders.len() == level_state(*level).orders.len(),
        forall|i: int| 0 <= i < orders.len() ==> {
            let order = order_held(*#[trigger] orders[i]);
            level_state(*level).orders.contains_pair(order.id, order)
        },
        forall|id: OrderId| #[trigger]
            level_state(*level).orders.contains_key(id) ==> exists|i: int|
                0 <= i < orders.len() && order_held(*#[trigger] orders[i]) == level_state(
                    *level,
                ).orders[id] && order_held(*orders[i]).id == id,
        forall|i: int, j: int|
            0 <= i < j < orders.len() ==> order_held(*#[trigger] orders[i]).timestamp <= order_held(
                *#[trigger] orders[j],
            ).timestamp,
{
    level.iter_orders()
}

/// Calls `pricelevel::PriceLevel::match_order`, which trades `quantity` of the
/// incoming order `taker` with the orders at the level in the order of the queue.
/// What it does to the level and which trades it makes is named `matched`.
///
/// Whatever it does, the trades and what remains add up to `quantity`. Nothing
/// remains but what the orders at the level cannot give up, and then the level ran
/// out of orders. No order comes to the level, and of those that are still there only
/// quantities change: each has what it had but for what it traded, as `left_as` says,
/// and one that shows something until it is used up still does. An order that is gone
/// traded all that it gives up. Those that are said to be used up were at the level
/// and are gone, and every order that showed something and is gone is among them.
///
/// Every trade is of some quantity, with an order that was at the level and on the
/// other side. An order trades only after each one that is before it in the queue and
/// shows something traded all that it shows, and one that did not trade stays before
/// those that it was before. Matching keeps a right count of orders right. The
/// identifier of a trade comes from `transaction_ids`, its time from the clock: nothing
/// is said of either.
#[verifier::external_body]
pub(crate) fn level_match_order(
    level: &mut PriceLevel,
    quantity: u64,
    taker: OrderId,
    transaction_ids: &UuidGenerator,
) -> (result: (Vec<Transaction>, Vec<OrderId>, u64))
    requires
        level_state(*old(level)).settles(quantity),
    ensures
        level_state(*final(level)) == matched(level_state(*old(level)), quantity).after,
        trades(result.0@) == executions(
            taker,
            level_state(*old(level)).price,
            matched(level_state(*old(level)), quantity).fills,
        ),
        result.1@ == matched(level_state(*old(level)), quantity).filled,
        result.2 == matched(level_state(*old(level)), quantity).remaining,
        level_state(*final(level)).price == level_state(*old(level)).price,
        volume(trades(result.0@)) + result.2 == quantity,
        result.2 == unmet(quantity, supply(level_state(*old(level)).orders)),
        result.2 > 0 ==> level_state(*final(level)).orders.dom().is_empty(),
        forall|id: OrderId| #[trigger]
            level_state(*final(level)).orders.contains_key(id) ==> {
                let before = level_state(*old(level)).orders[id];
                let after = level_state(*final(level)).orders[id];
                &&& level_state(*old(level)).orders.contains_key(id)
                &&& after == (Order { kind: after.kind, ..before })
                &&& lasting(before.kind) ==> lasting(after.kind)
                &&& left_as(
                    before.kind,
                    traded(trades(result.0@), level_state(*old(level)).price, id),
                    after.kind,
                )
            },
        forall|id: OrderId| #[trigger]
            level_state(*old(level)).orders.contains_key(id) && !level_state(
                *final(level),
            ).orders.contains_key(id) ==> traded(
                trades(result.0@),
                level_state(*old(level)).price,
                id,
            ) == yielded(level_state(*old(level)).orders[id].kind),
        forall|i: int, a: OrderId|
            0 <= i < result.0.len() && level_state(*old(level)).orders.contains_key(a) && level_state(
                *old(level),
            ).orders[a].kind.visible() > 0 && #[trigger] ahead_in_line(
                level_state(*old(level)).queue,
                a,
                result.0[i].maker_order_id,
            ) ==> exists|j: int|
                0 <= j < i && (#[trigger] result.0[j]).maker_order_id == a && result.0[j].quantity
                    == level_state(*old(level)).orders[a].kind.visible(),
        forall|a: OrderId, b: OrderId|
            level_state(*old(level)).orders.contains_key(a) && level_state(
                *old(level),
            ).orders[a].kind.visible() > 0 && traded(
                trades(result.0@),
                level_state(*old(level)).price,
                a,
            ) == 0 && #[trigger] ahead_in_line(level_state(*old(level)).queue, a, b) ==> ahead_in_line(
                level_state(*final(level)).queue,
                a,
                b,
            ),
        forall|i: int| 0 <= i < result.1.len() ==> {
            let id = #[trigger] result.1[i];
            &&& level_state(*old(level)).orders.contains_key(id)
            &&& !level_state(*final(level)).orders.contains_key(id)
        },
        forall|id: OrderId| #[trigger]
            level_state(*old(level)).orders.contains_key(id) && !level_state(
                *final(level),
            ).orders.contains_key(id) && level_state(*old(level)).orders[id].kind.visible() > 0
                ==> result.1@.contains(id),
        forall|i: int| 0 <= i < result.0.len() ==> {
            let trade = #[trigger] result.0[i];
            &&& trade.quantity > 0
            &&& level_state(*old(level)).orders.contains_key(trade.maker_order_id)
            &&& trade.taker_side == level_state(*old(level)).orders[trade.maker_order_id].side.other()
        },
        level_state(*old(level)).counted() ==> level_state(*final(level)).counted(),
{
    let result = level.match_order(quantity, taker, transaction_ids);
    let transactions = result.transactions.transactions.iter().map(|t| Transaction {
        transaction_id: t.transaction_id.as_u128(),
        taker_order_id: t.taker_order_id,
        maker_order_id: t.maker_order_id,
        price: t.price,
        quantity: t.quantity,
        taker_side: match t.taker_side {
            pricelevel::Side::Buy => Side::Buy,
            pricelevel::Side::Sell => Side::Sell,
        },
        timestamp: t.timestamp,
    }).collect();
    (transactions, result.filled_order_ids, result.remaining_quantity)
}

impl Order<()> {
    /// The order as a level keeps it. A level has no kind of its own for a market
    /// order: what is left of one rests as a limit order.
    pub open spec fn kept(self) -> Order<()> {
        match self.kind {
            OrderKind::Market { quantity } => Order {
                kind: OrderKind::Standard { quantity },
                ..self
            },
            _ => self,
        }
    }

    /// The order that a level keeps, with the kind that it came with: a market
    /// order where `market` says so.
    pub open spec fn restored(self, market: bool) -> Order<()> {
        if market {
            Order { kind: OrderKind::Market { quantity: self.kind.visible() }, ..self }
        } else {
            self
        }
    }
}

/// Turns an order into one of the `pricelevel` crate.
fn level_order(order: &Order<()>) -> (converted: pricelevel::OrderType<()>)
    ensures
        order_held(converted) == order.kept(),
{
    let quantity: u64 = match order.kind {
        OrderKind::Market { quantity } => quantity,
        OrderKind::Standard { quantity } => quantity,
        _ => 0,
    };
    let standard = standard_order(
        order.id,
        order.price,
        quantity,
        order.side,
        order.timestamp,
        order.time_in_force,
    );
    match order.kind {
        OrderKind::Market { .. } | OrderKind::Standard { .. } => standard,
        OrderKind::IcebergOrder { .. } | OrderKind::PostOnly { .. } | OrderKind::MarketToLimit {
            ..
        } => of_simple_kind(standard, order.kind),
        _ => of_special_kind(standard, order.kind),
    }
}

/// Turns an order of the `pricelevel` crate into an order of this one.
fn read_order(order: &pricelevel::OrderType<()>) -> (read: Order<()>)
    ensures
        read == order_held(*order),
{
    let (id, price, side, timestamp, time_in_force) = order_terms(order);
    assert(order_held(*order).extra_fields == ());
    Order { id, price, side, timestamp, time_in_force, kind: order_kind(order), extra_fields: () }
}

/// Puts an order to rest at a level, and hands it back as the level keeps it.
pub(crate) fn add_to_level(level: &mut PriceLevel, order: &Order<()>) -> (added: Order<()>)
    ensures
        level_state(*final(level)) == level_state(*old(level)).with_order(order.kept()),
        added == order.kept(),
{
    let added = level_add_order(level, level_order(order));
    read_order(&added)
}

/// Takes the order `id` out of a level, and hands it over if it was there.
pub(crate) fn cancel_at_level(level: &mut PriceLevel, id: OrderId) -> (cancelled: Option<Order<()>>)
    ensures
        level_state(*final(level)) == level_state(*old(level)).without_order(id),
        cancelled == level_state(*old(level)).orders.get(id),
{
    match level_update_order(level, id, None) {
        Ok(Some(order)) => Some(read_order(&order)),
        _ => None,
    }
}

/// Tells a level to give the order `id` the quantity `q`, and hands the order over
/// as it is then if it was there.
pub(crate) fn requantify_at_level(level: &mut PriceLevel, id: OrderId, q: u64) -> (changed: Option<Order<()>>)
    ensures
        level_state(*final(level)) == level_state(*old(level)).with_quantity(id, q),
        changed == match level_state(*old(level)).orders.get(id) {
            Some(order) => Some(requantified(order, q)),
            None => None,
        },
{
    match level_update_order(level, id, Some(q)) {
        Ok(Some(order)) => Some(read_order(&order)),
        _ => None,
    }
}

/// Whether `list` holds each of `orders` once.
pub open spec fn lists(list: Seq<Order<()>>, orders: Map<OrderId, Order<()>>) -> bool {
    &&& orders.dom().finite()
    &&& forall|i: int|
        0 <= i < list.len() ==> orders.contains_pair((#[trigger] list[i]).id, list[i])
    &&& forall|i: int, j: int|
        0 <= i < j < list.len() ==> (#[trigger] list[i]).id != (#[trigger] list[j]).id
    &&& forall|id: OrderId| #[trigger]
        orders.contains_key(id) ==> exists|i: int| 0 <= i < list.len() && (#[trigger] list[i]).id == id
}

/// What the orders of `list` give up.
pub open spec fn listed_supply(list: Seq<Order<()>>) -> nat
    decreases list.len(),
{
    if list.len() == 0 {
        0
    } else {
        listed_supply(list.drop_last()) + yielded(list.last().kind)
    }
}

/// What orders give up can be added up along any list of them.
proof fn lemma_listed_supply(list: Seq<Order<()>>, orders: Map<OrderId, Order<()>>)
    requires
        lists(list, orders),
    ensures
        listed_supply(list) == supply(orders),
    decreases list.len(),
{
    if list.len() == 0 {
        assert(orders.dom() =~= Set::empty());
    } else {
        let last = list.last();
        let others = orders.remove(last.id);
        assert forall|id: OrderId| #[trigger] others.contains_key(id) implies exists|i: int|
            0 <= i < list.drop_last().len() && (#[trigger] list.drop_last()[i]).id == id by {
            assert(orders.contains_key(id));
            let i = choose|i: int| 0 <= i < list.len() && (#[trigger] list[i]).id == id;
            assert(list.drop_last()[i].id == id);
        }
        assert(lists(list.drop_last(), others));
        lemma_listed_supply(list.drop_last(), others);
        lemma_supply_remove(orders, last.id);
    }
}

/// A list of as many of `orders` as there are, in which each occurs, holds each once.
proof fn lemma_lists(list: Seq<Order<()>>, orders: Map<OrderId, Order<()>>)
    requires
        list.len() == orders.len(),
        forall|i: int| 0 <= i < list.len() ==> orders.contains_pair((#[trigger] list[i]).id, list[i]),
        forall|id: OrderId| #[trigger]
            orders.contains_key(id) ==> exists|i: int|
                0 <= i < list.len() && (#[trigger] list[i]).id == id,
    ensures
        lists(list, orders),
{
    let ids = list.map_values(|order: Order<()>| order.id);
    vstd::seq_lib::seq_to_set_is_finite(ids);
    assert forall|id: OrderId| ids.to_set().contains(id) == orders.dom().contains(id) by {
        if orders.contains_key(id) {
            let i = choose|i: int| 0 <= i < list.len() && (#[trigger] list[i]).id == id;
            assert(ids[i] == id);
        }
        if ids.contains(id) {
            let i = choose|i: int| 0 <= i < ids.len() && ids[i] == id;
            assert(orders.contains_pair(list[i].id, list[i]));
        }
    }
    assert(ids.to_set() =~= orders.dom());
    ids.lemma_no_dup_set_cardinality();
    assert forall|i: int, j: int| 0 <= i < j < list.len() implies (#[trigger] list[i]).id != (
    #[trigger] list[j]).id by {
        assert(ids[i] != ids[j]);
    }
}

/// The orders at a level, each once.
pub(crate) fn orders_at_level(level: &PriceLevel) -> (orders: Vec<Order<()>>)
    ensures
        lists(orders@, level_state(*level).orders),
{
    let held = level_iter_orders(level);
    let mut orders: Vec<Order<()>> = Vec::new();
    let mut i: usize = 0;
    while i < held.len()
        invariant
            i <= held.len(),
            orders.len() == i,
            forall|j: int| 0 <= j < i ==> #[trigger] orders[j] == order_held(*held[j]),
        decreases held.len() - i,
    {
        orders.push(read_order(&held[i]));
        i += 1;
    }
    proof {
        assert forall|id: OrderId| #[trigger]
            level_state(*level).orders.contains_key(id) implies exists|i: int|
            0 <= i < orders.len() && (#[trigger] orders@[i]).id == id by {
            let k = choose|k: int|
                0 <= k < held.len() && order_held(*#[trigger] held[k]) == level_state(
                    *level,
                ).orders[id] && order_held(*held[k]).id == id;
            assert(orders[k] == order_held(*held[k]));
        }
        lemma_lists(orders@, level_state(*level).orders);
    }
    orders
}

/// The order `id` at a level, if it is there.
pub(crate) fn find_at_level(level: &PriceLevel, id: OrderId) -> (found: Option<Order<()>>)
    ensures
        found == level_state(*level).orders.get(id),
{
    let orders = orders_at_level(level);
    let mut i: usize = 0;
    while i < orders.len()
        invariant
            i <= orders.len(),
            forall|j: int| 0 <= j < i ==> (#[trigger] orders[j]).id != id,
            forall|j: int| 0 <= j < orders.len() ==> level_state(*level).orders.contains_pair(
                (#[trigger] orders[j]).id,
                orders[j],
            ),
        decreases orders.len() - i,
    {
        if same_id(&orders[i].id, &id) {
            return Some(orders[i]);
        }
        i += 1;
    }
    None
}

/// The quantity that a resting order brings out of hiding when it refills itself.
fn refill_of(kind: &OrderKind) -> (q: u64)
    ensures
        q == refilled(*kind),
{
    let (amount, hidden): (u64, u64) = match *kind {
        OrderKind::IcebergOrder { visible_quantity, hidden_quantity } => (
            visible_quantity,
            hidden_quantity,
        ),
        OrderKind::ReserveOrder { hidden_quantity, replenish_amount, auto_replenish, .. } => {
            if auto_replenish {
                match replenish_amount {
                    Some(amount) => (amount, hidden_quantity),
                    None => (outside_refill(), hidden_quantity),
                }
            } else {
                (0, 0)
            }
        },
        _ => (0, 0),
    };
    if amount <= hidden {
        amount
    } else {
        hidden
    }
}

/// Whether a resting order takes what it hides with it once it shows nothing more.
fn does_forfeit(kind: &OrderKind) -> (b: bool)
    ensures
        b == forfeits(*kind),
{
    match *kind {
        OrderKind::ReserveOrder { auto_replenish, .. } => !auto_replenish,
        _ => false,
    }
}

/// Whether a resting order is never used up.
fn is_stalled(order: &Order<()>) -> (b: bool)
    ensures
        b == stalls(order.kind),
{
    order.hidden_quantity() > 0 && refill_of(&order.kind) == 0 && !does_forfeit(&order.kind)
}

/// The quantity that a resting order gives up.
fn yield_of(order: &Order<()>) -> (q: u128)
    ensures
        q == yielded(order.kind),
{
    if does_forfeit(&order.kind) || is_stalled(order) {
        order.quantity() as u128
    } else {
        order.quantity() as u128 + order.hidden_quantity() as u128
    }
}

/// Whether a resting order can be traded with up to `quantity`.
fn is_tradable(order: &Order<()>, quantity: u64) -> (b: bool)
    ensures
        b == tradable(*order, quantity),
{
    let refill: u64 = refill_of(&order.kind);
    let visible: u64 = order.quantity();
    let largest: u64 = if refill > visible {
        refill
    } else {
        visible
    };
    let fill: u64 = if quantity <= largest {
        quantity
    } else {
        largest
    };
    assert(fill * order.price <= u64::MAX * u64::MAX) by (nonlinear_arith)
        requires
            fill <= u64::MAX,
            order.price <= u64::MAX,
    ;
    if fill as u128 * (order.price as u128) > u64::MAX as u128 {
        return false;
    }
    match order.kind {
        OrderKind::ReserveOrder { visible_quantity, hidden_quantity, .. } => {
            refill == 0 || hidden_quantity <= u64::MAX - visible_quantity
        },
        _ => true,
    }
}

/// How much of `quantity` the orders at a level give up.
pub(crate) fn level_supply(level: &PriceLevel, quantity: u64) -> (q: u64)
    ensures
        q == lesser(quantity as int, supply(level_state(*level).orders) as int),
{
    let orders = orders_at_level(level);
    let mut q: u64 = 0;
    let mut i: usize = 0;
    while i < orders.len()
        invariant
            i <= orders.len(),
            q == lesser(quantity as int, listed_supply(orders@.take(i as int)) as int),
        decreases orders.len() - i,
    {
        assert(orders@.take(i + 1).drop_last() =~= orders@.take(i as int));
        let more: u128 = yield_of(&orders[i]);
        if more < (quantity - q) as u128 {
            q = q + more as u64;
        } else {
            q = quantity;
        }
        i += 1;
    }
    proof {
        assert(orders@.take(i as int) =~= orders@);
        lemma_listed_supply(orders@, level_state(*level).orders);
    }
    q
}

/// Whether an incoming order of `quantity` can be matched with the orders at a level.
pub(crate) fn level_settles(level: &PriceLevel, quantity: u64) -> (b: bool)
    ensures
        b == level_state(*level).settles(quantity),
{
    let filled: bool = level_supply(level, quantity) == quantity;
    let orders = orders_at_level(level);
    let mut i: usize = 0;
    while i < orders.len()
        invariant
            i <= orders.len(),
            lists(orders@, level_state(*level).orders),
            filled == (quantity <= supply(level_state(*level).orders)),
            forall|j: int|
                0 <= j < i ==> tradable(#[trigger] orders[j], quantity) && (stalls(orders[j].kind)
                    ==> filled),
        decreases orders.len() - i,
    {
        if !is_tradable(&orders[i], quantity) || (is_stalled(&orders[i]) && !filled) {
            assert(level_state(*level).orders.contains_key(orders[i as int].id));
            return false;
        }
        i += 1;
    }
    assert forall|id: OrderId| #[trigger] level_state(*level).orders.contains_key(id) implies {
        &&& tradable(level_state(*level).orders[id], quantity)
        &&& stalls(level_state(*level).orders[id].kind) ==> quantity <= supply(
            level_state(*level).orders,
        )
    } by {
        let k = choose|k: int| 0 <= k < orders.len() && (#[trigger] orders@[k]).id == id;
        assert(tradable(orders[k], quantity));
    }
    true
}

} // verus!
