//! What the operations of the book are for, stated on plain values: prices, quantities,
//! kinds of orders, and what was there before and after.

use crate::book::MatchResult;
use crate::error::{OrderBookError, Refusal};
use crate::level::{
    largest_fill, lemma_count_fits, lemma_supply_remove, stalls, supply, tradable, unmet, yielded,
    Execution, LevelState,
};
use crate::model::{Added, BookView, TradeView};
use crate::order::{Order, OrderKind, OrderUpdate, Side, TimeInForce};
use crate::quantity::{lesser, OrderQuantity};
use crate::sweep::{
    best, crosses, is_best, lemma_best_exists, lemma_reach_splits, lemma_sweep_order,
    lemma_sweep_trade, level_at, rests, settled,
};
use pricelevel::OrderId;
use vstd::prelude::*;

verus! {

/// Whether two orders are of the same kind and differ in nothing but quantities.
pub open spec fn alike(a: OrderKind, b: OrderKind) -> bool {
    match (a, b) {
        (OrderKind::Market { .. }, OrderKind::Market { .. }) => true,
        (OrderKind::Standard { .. }, OrderKind::Standard { .. }) => true,
        (OrderKind::IcebergOrder { .. }, OrderKind::IcebergOrder { .. }) => true,
        (OrderKind::PostOnly { .. }, OrderKind::PostOnly { .. }) => true,
        (
            OrderKind::TrailingStop { trail_amount: t1, last_reference_price: p1, .. },
            OrderKind::TrailingStop { trail_amount: t2, last_reference_price: p2, .. },
        ) => t1 == t2 && p1 == p2,
        (
            OrderKind::PeggedOrder { reference_price_offset: o1, reference_price_type: r1, .. },
            OrderKind::PeggedOrder { reference_price_offset: o2, reference_price_type: r2, .. },
        ) => o1 == o2 && r1 == r2,
        (OrderKind::MarketToLimit { .. }, OrderKind::MarketToLimit { .. }) => true,
        (
            OrderKind::ReserveOrder {
                replenish_threshold: t1,
                replenish_amount: a1,
                auto_replenish: b1,
                ..
            },
            OrderKind::ReserveOrder {
                replenish_threshold: t2,
                replenish_amount: a2,
                auto_replenish: b2,
                ..
            },
        ) => t1 == t2 && a1 == a2 && b1 == b2,
        _ => false,
    }
}

/// Whether the order that a policy belongs to is over at `now`: a good-till-date order from
/// its date on, a day order from the close of the market on, and no other ever.
pub open spec fn over(policy: TimeInForce, now: u64, close: Option<u64>) -> bool {
    ||| policy matches TimeInForce::Gtd(date) && date <= now
    ||| policy == TimeInForce::Day && (close matches Some(time) && time <= now)
}

/// Whether the limit of an order on `side` allows `price`: a buyer pays no more, a seller
/// takes no less.
pub open spec fn allows(side: Side, limit: u64, price: u64) -> bool {
    (side == Side::Buy ==> price <= limit) && (side == Side::Sell ==> limit <= price)
}

/// The two sides are each other's other side.
pub proof fn law_two_sides(side: Side)
    ensures
        side.other() != side,
        side.other().other() == side,
{
}

/// What an order shows and hides are its own quantities, and its total is both together.
pub proof fn law_quantities<T>(order: Order<T>)
    ensures
        match order.kind {
            OrderKind::Market { quantity } => order.shown() == quantity && order.kind.hidden() == 0,
            OrderKind::Standard { quantity } => order.shown() == quantity && order.kind.hidden() == 0,
            OrderKind::IcebergOrder { visible_quantity, hidden_quantity } => order.shown()
                == visible_quantity && order.kind.hidden() == hidden_quantity,
            OrderKind::PostOnly { quantity } => order.shown() == quantity && order.kind.hidden() == 0,
            OrderKind::TrailingStop { quantity, .. } => order.shown() == quantity
                && order.kind.hidden() == 0,
            OrderKind::PeggedOrder { quantity, .. } => order.shown() == quantity
                && order.kind.hidden() == 0,
            OrderKind::MarketToLimit { quantity } => order.shown() == quantity && order.kind.hidden()
                == 0,
            OrderKind::ReserveOrder { visible_quantity, hidden_quantity, .. } => order.shown()
                == visible_quantity && order.kind.hidden() == hidden_quantity,
        },
        order.kind.visible() == order.shown(),
        order.whole() == order.kind.visible() + order.kind.hidden(),
        order.kind.total() == order.whole(),
{
}

/// An order made to show a quantity shows it, hides what it hid, and is otherwise as it was.
/// Making it show what it shows changes nothing, and the last quantity counts.
pub proof fn law_showing(kind: OrderKind, p: u64, q: u64)
    ensures
        kind.showing(q).visible() == q,
        kind.showing(q).hidden() == kind.hidden(),
        alike(kind.showing(q), kind),
        kind.showing(kind.visible()) == kind,
        kind.showing(p).showing(q) == kind.showing(q),
{
}

/// Orders that are alike and have the same quantities are of the same kind in full.
pub proof fn law_alike(a: OrderKind, b: OrderKind)
    requires
        alike(a, b),
        a.visible() == b.visible(),
        a.hidden() == b.hidden(),
    ensures
        a == b,
{
}

/// Setting a quantity changes quantities only. An order that is not a reserve order shows it
/// and hides what it hid. A reserve order comes down to it and never up: what it hides is
/// touched only once it shows nothing more, and then its own amount comes out of hiding.
pub proof fn law_set_quantity<T>(order: Order<T>, target: u64)
    requires
        order.kind.visible() + order.kind.hidden() <= u64::MAX,
    ensures
        ({
            let after = order.with_target(target);
            &&& after == (Order { kind: after.kind, ..order })
            &&& alike(after.kind, order.kind)
            &&& match (order.kind, after.kind) {
                (
                    OrderKind::ReserveOrder { visible_quantity: v, hidden_quantity: h, replenish_amount, .. },
                    OrderKind::ReserveOrder { visible_quantity: w, hidden_quantity: g, .. },
                ) => {
                    let amount: u64 = match replenish_amount {
                        Some(amount) => amount,
                        None => 0,
                    };
                    &&& target >= v + h ==> w + g == v + h
                    &&& target <= v + h ==> w + g == target
                    &&& v > 0 && target > h ==> g == h
                    &&& target <= h || v == 0 ==> w <= amount && (w == amount || g == 0)
                },
                (before, after) => after.visible() == target && after.hidden() == before.hidden(),
            }
        }),
{
}

/// Whether `after` is what rests of an order of the kind `before` of which `remaining` did not
/// trade. It is of that kind and amounts to that. An iceberg order shows no more than it did,
/// and less only where nothing is hidden any more. A reserve order takes from what it hides
/// only once it shows nothing, and then its own amount comes out of hiding.
pub open spec fn left_over(before: OrderKind, remaining: u64, after: OrderKind) -> bool {
    &&& alike(after, before)
    &&& after.visible() + after.hidden() == remaining
    &&& before is IcebergOrder ==> {
        &&& after.visible() <= before.visible()
        &&& after.visible() < before.visible() ==> after.hidden() == 0
    }
    &&& before matches OrderKind::ReserveOrder {
        visible_quantity,
        hidden_quantity,
        replenish_amount,
        ..
    } ==> {
        let amount: u64 = match replenish_amount {
            Some(amount) => amount,
            None => 0,
        };
        &&& visible_quantity > 0 && remaining > hidden_quantity ==> after.hidden() == hidden_quantity
        &&& visible_quantity == 0 || remaining <= hidden_quantity ==> after.visible() <= amount && (
        after.visible() == amount || after.hidden() == 0)
    }
}

/// What is left of an order of which all but `remaining` traded is the same order with that
/// quantity, and the whole order where nothing traded.
pub proof fn law_remainder<T>(order: Order<T>, remaining: u64)
    requires
        order.kind.visible() + order.kind.hidden() <= u64::MAX,
        remaining <= order.kind.visible() + order.kind.hidden(),
    ensures
        ({
            let left = order.reduced(remaining);
            &&& left == (Order { kind: left.kind, ..order })
            &&& left_over(order.kind, remaining, left.kind)
            &&& remaining == order.kind.visible() + order.kind.hidden() && order.kind.visible() > 0
                ==> left == order
        }),
{
}

/// An order can be left over in one way only.
pub proof fn law_left_over(before: OrderKind, remaining: u64, a: OrderKind, b: OrderKind)
    requires
        left_over(before, remaining, a),
        left_over(before, remaining, b),
    ensures
        a == b,
{
    law_alike(a, b);
}

/// Taking off the caller's data changes nothing else of an order.
pub proof fn law_bare<T>(order: Order<T>)
    ensures
        order.bare().id == order.id,
        order.bare().price == order.price,
        order.bare().side == order.side,
        order.bare().timestamp == order.timestamp,
        order.bare().time_in_force == order.time_in_force,
        order.bare().kind == order.kind,
{
}

/// A request is about the order whose identifier it names.
pub proof fn law_target(update: OrderUpdate)
    ensures
        match update {
            OrderUpdate::UpdatePrice { order_id, .. } => update.target() == order_id,
            OrderUpdate::UpdateQuantity { order_id, .. } => update.target() == order_id,
            OrderUpdate::UpdatePriceAndQuantity { order_id, .. } => update.target() == order_id,
            OrderUpdate::Cancel { order_id } => update.target() == order_id,
            OrderUpdate::Replace { order_id, .. } => update.target() == order_id,
        },
{
}

/// Policies say of themselves what they say of orders: an order is over as its policy has
/// it, once over it stays so, and only the two immediate ones never rest.
pub proof fn law_policy(policy: TimeInForce, now: u64, later: u64, close: Option<u64>)
    requires
        now <= later,
    ensures
        policy.expired(now, close) == over(policy, now, close),
        policy.expired(now, close) ==> policy.expired(later, close),
        policy.immediate() == (policy == TimeInForce::Ioc || policy == TimeInForce::Fok),
{
}

/// An error says just what it holds.
pub proof fn law_error_says_what_it_holds(error: OrderBookError)
    ensures
        match error {
            OrderBookError::InvalidOperation { message } => error@ == (Refusal::InvalidOperation {
                message: message@,
            }),
            OrderBookError::PriceCrossing { price, side, opposite_price } => error@ == (
            Refusal::PriceCrossing { price, side, opposite_price }),
            OrderBookError::InsufficientLiquidity { side, requested, available } => error@ == (
            Refusal::InsufficientLiquidity { side, requested, available }),
        },
{
}

/// The best bid is the highest price that someone bids, and the best ask the lowest that
/// someone asks. There is none just where no one does.
pub proof fn law_best_prices(book: BookView, price: u64)
    requires
        book.valid(),
    ensures
        match book.best_bid() {
            Some(bid) => book.bids.contains_key(bid) && (book.bids.contains_key(price) ==> price <= bid),
            None => !book.bids.contains_key(price),
        },
        match book.best_ask() {
            Some(ask) => book.asks.contains_key(ask) && (book.asks.contains_key(price) ==> ask <= price),
            None => !book.asks.contains_key(price),
        },
{
    if book.bids.contains_key(price) {
        lemma_best_exists(book.bids, Side::Buy, price);
    }
    if book.asks.contains_key(price) {
        lemma_best_exists(book.asks, Side::Sell, price);
    }
    if let Some(bid) = book.best_bid() {
        assert(is_best(book.bids, Side::Buy, bid));
    }
    if let Some(ask) = book.best_ask() {
        assert(is_best(book.asks, Side::Sell, ask));
    }
}

/// A buyer would trade on arrival just where someone asks no more than they pay, and a seller
/// just where someone bids no less than they take.
pub proof fn law_would_cross(book: BookView, price: u64)
    requires
        book.valid(),
    ensures
        book.would_cross(price, Side::Buy) == (exists|ask: u64| #[trigger]
            book.asks.contains_key(ask) && ask <= price),
        book.would_cross(price, Side::Sell) == (exists|bid: u64| #[trigger]
            book.bids.contains_key(bid) && bid >= price),
{
    if let Some(ask) = book.best_ask() {
        law_best_prices(book, ask);
    }
    if let Some(bid) = book.best_bid() {
        law_best_prices(book, bid);
    }
    assert forall|ask: u64| #[trigger] book.asks.contains_key(ask) && ask <= price implies book.would_cross(
        price,
        Side::Buy,
    ) by {
        law_best_prices(book, ask);
    }
    assert forall|bid: u64| #[trigger] book.bids.contains_key(bid) && bid >= price implies book.would_cross(
        price,
        Side::Sell,
    ) by {
        law_best_prices(book, bid);
    }
}

/// A buyer never pays more than their limit, and a seller never takes less. Each trade is at a
/// price at which an order rested.
pub proof fn law_limit_is_kept(book: BookView, order: Order<()>, i: int)
    requires
        book.valid(),
        0 <= i < book.match_result(
            order.id,
            order.side,
            order.kind.total() as u64,
            order.price,
        ).executions.len(),
    ensures
        ({
            let trade = book.match_result(
                order.id,
                order.side,
                order.kind.total() as u64,
                order.price,
            ).executions[i];
            &&& trade.taker == order.id
            &&& order.side == Side::Buy ==> trade.price <= order.price && book.asks.contains_key(
                trade.price,
            )
            &&& order.side == Side::Sell ==> trade.price >= order.price && book.bids.contains_key(
                trade.price,
            )
        }),
{
    lemma_sweep_trade(
        book.levels(order.side.other()),
        order.id,
        order.side,
        order.price,
        order.kind.total() as u64,
        i,
    );
}

/// A buyer trades at rising prices, and a seller at falling ones.
pub proof fn law_better_prices_come_first(book: BookView, order: Order<()>, i: int, j: int)
    requires
        book.valid(),
        0 <= i < j < book.match_result(
            order.id,
            order.side,
            order.kind.total() as u64,
            order.price,
        ).executions.len(),
    ensures
        ({
            let trades = book.match_result(
                order.id,
                order.side,
                order.kind.total() as u64,
                order.price,
            ).executions;
            &&& order.side == Side::Buy ==> trades[i].price <= trades[j].price
            &&& order.side == Side::Sell ==> trades[i].price >= trades[j].price
        }),
{
    lemma_sweep_order(
        book.levels(order.side.other()),
        order.id,
        order.side,
        order.price,
        order.kind.total() as u64,
        i,
        j,
    );
}

/// What an order gives up: all that it has, but for a reserve order that does not refill
/// itself and an order that refills itself with nothing, which give up what they show.
pub proof fn law_yielded(kind: OrderKind)
    ensures
        yielded(kind) == match kind {
            OrderKind::IcebergOrder { visible_quantity, hidden_quantity } => if visible_quantity == 0 {
                0
            } else {
                visible_quantity + hidden_quantity
            },
            OrderKind::ReserveOrder {
                visible_quantity,
                hidden_quantity,
                replenish_amount,
                auto_replenish,
                ..
            } => if auto_replenish && replenish_amount != Some(0u64) {
                visible_quantity + hidden_quantity
            } else {
                visible_quantity as int
            },
            _ => kind.visible() as int,
        },
{
}

/// What a buyer could trade with is what the orders at prices up to their limit give up, and
/// what a seller could is what those at prices from their limit on do, price by price.
pub proof fn law_supplied(book: BookView, limit: u64, price: u64)
    requires
        book.valid(),
    ensures
        book.asks.contains_key(price) && price <= limit ==> book.supplied(Side::Buy, limit) == supply(
            book.asks[price].orders,
        ) + (BookView { asks: book.asks.remove(price), ..book }).supplied(Side::Buy, limit),
        book.bids.contains_key(price) && price >= limit ==> book.supplied(Side::Sell, limit) == supply(
            book.bids[price].orders,
        ) + (BookView { bids: book.bids.remove(price), ..book }).supplied(Side::Sell, limit),
{
    if book.asks.contains_key(price) && price <= limit {
        lemma_reach_splits(book.asks, Side::Buy, limit, price);
    }
    if book.bids.contains_key(price) && price >= limit {
        lemma_reach_splits(book.bids, Side::Sell, limit, price);
    }
}

/// No one could trade beyond their limit.
pub proof fn law_nothing_supplied(book: BookView, limit: u64)
    requires
        book.valid(),
    ensures
        (forall|p: u64| #[trigger] book.asks.contains_key(p) ==> p > limit) ==> book.supplied(
            Side::Buy,
            limit,
        ) == 0,
        (forall|p: u64| #[trigger] book.bids.contains_key(p) ==> p < limit) ==> book.supplied(
            Side::Sell,
            limit,
        ) == 0,
{
    if let Some(p) = best(book.asks, Side::Sell) {
        assert(is_best(book.asks, Side::Sell, p));
    }
    if let Some(p) = best(book.bids, Side::Buy) {
        assert(is_best(book.bids, Side::Buy, p));
    }
}

/// What orders give up adds up order by order.
pub proof fn law_supply(orders: Map<OrderId, Order<()>>, id: OrderId)
    requires
        orders.dom().finite(),
    ensures
        orders.contains_key(id) ==> supply(orders) == yielded(orders[id].kind) + supply(
            orders.remove(id),
        ),
        (forall|o: OrderId| !orders.contains_key(o)) ==> supply(orders) == 0,
{
    if orders.contains_key(id) {
        lemma_supply_remove(orders, id);
    }
    if forall|o: OrderId| !orders.contains_key(o) {
        assert(orders.dom() =~= Set::empty());
    }
}

/// How much of a quantity could be filled is all of it, or all that there is.
pub proof fn law_fillable(book: BookView, side: Side, quantity: int, limit: u64)
    ensures
        book.fillable(side, quantity, limit) <= quantity,
        book.fillable(side, quantity, limit) <= book.supplied(side, limit),
        book.fillable(side, quantity, limit) == quantity || book.fillable(side, quantity, limit)
            == book.supplied(side, limit),
{
}

/// An order that is over is refused as such and changes nothing, and no other order is.
pub proof fn law_expired_order_is_refused(book: BookView, order: Order<()>)
    ensures
        over(order.time_in_force, book.now, book.market_close) ==> book.add(order) == (
            book,
            Err::<Added, _>(Refusal::InvalidOperation { message: "Order has already expired"@ }),
        ),
        !over(order.time_in_force, book.now, book.market_close) ==> !(book.add(order).1 matches Err(
            Refusal::InvalidOperation { .. },
        )),
{
}

/// A good-till-date order is refused as expired just from its date on, a day order just from
/// the close of the market on, and an order with another policy never.
pub proof fn law_expiry(book: BookView, order: Order<()>)
    ensures
        ({
            let expired = book.add(order).1 == Err::<Added, _>(
                Refusal::InvalidOperation { message: "Order has already expired"@ },
            );
            match order.time_in_force {
                TimeInForce::Gtd(date) => expired == (book.now >= date),
                TimeInForce::Day => match book.market_close {
                    Some(time) => expired == (book.now >= time),
                    None => !expired,
                },
                TimeInForce::Gtc => !expired,
                TimeInForce::Ioc => !expired,
                TimeInForce::Fok => !expired,
            }
        }),
{
}

/// A post-only order is refused where it would trade: a buyer's where someone asks no more
/// than they pay, a seller's where someone bids no less than they take. The refusal names
/// the best price on the other side, and nothing changes.
pub proof fn law_crossing_post_only_is_refused(book: BookView, order: Order<()>, price: u64)
    requires
        book.valid(),
        order.kind is PostOnly,
        !over(order.time_in_force, book.now, book.market_close),
        order.side == Side::Buy ==> book.asks.contains_key(price) && price <= order.price,
        order.side == Side::Sell ==> book.bids.contains_key(price) && price >= order.price,
    ensures
        book.add(order).0 == book,
        book.add(order).1 matches Err(Refusal::PriceCrossing { price: limit, side, opposite_price }) && {
            &&& limit == order.price
            &&& side == order.side
            &&& side == Side::Buy ==> book.asks.contains_key(opposite_price) && opposite_price <= price
            &&& side == Side::Sell ==> book.bids.contains_key(opposite_price) && opposite_price >= price
        },
{
    law_best_prices(book, price);
    law_would_cross(book, order.price);
    assert(book.would_cross(order.price, order.side));
}

/// No order is refused for crossing but a post-only order that someone on the other side
/// would trade with.
pub proof fn law_only_crossing_post_only_is_refused(book: BookView, order: Order<()>)
    requires
        book.valid(),
        book.add(order).1 matches Err(Refusal::PriceCrossing { .. }),
    ensures
        order.kind is PostOnly,
        order.side == Side::Buy ==> exists|ask: u64| #[trigger]
            book.asks.contains_key(ask) && ask <= order.price,
        order.side == Side::Sell ==> exists|bid: u64| #[trigger]
            book.bids.contains_key(bid) && bid >= order.price,
{
    law_would_cross(book, order.price);
}

/// An order that is neither over nor post-only nor fill-or-kill is matched.
pub proof fn law_ordinary_order_is_matched(book: BookView, order: Order<()>)
    requires
        !over(order.time_in_force, book.now, book.market_close),
        !(order.kind is PostOnly),
        order.time_in_force != TimeInForce::Fok,
    ensures
        book.refusal(order) is None,
{
}

/// A post-only order that is neither over nor fill-or-kill and that no one would trade with
/// is taken.
pub proof fn law_quiet_post_only_is_taken(book: BookView, order: Order<()>)
    requires
        book.valid(),
        !over(order.time_in_force, book.now, book.market_close),
        order.time_in_force != TimeInForce::Fok,
        order.side == Side::Buy ==> forall|ask: u64| #[trigger]
            book.asks.contains_key(ask) ==> ask > order.price,
        order.side == Side::Sell ==> forall|bid: u64| #[trigger]
            book.bids.contains_key(bid) ==> bid < order.price,
    ensures
        book.refusal(order) is None,
{
    law_would_cross(book, order.price);
    assert(!book.would_cross(order.price, order.side));
}

/// A fill-or-kill order is matched just where there is enough for all of it. Where there is
/// not it is refused with its quantity and what there is, and nothing changes. Once
/// matched with nothing left it is filled.
pub proof fn law_fill_or_kill(book: BookView, order: Order<()>)
    requires
        book.valid(),
        order.time_in_force == TimeInForce::Fok,
        order.kind.visible() + order.kind.hidden() <= u64::MAX,
        order.kind is PostOnly && order.side == Side::Buy ==> forall|ask: u64| #[trigger]
            book.asks.contains_key(ask) ==> ask > order.price,
        order.kind is PostOnly && order.side == Side::Sell ==> forall|bid: u64| #[trigger]
            book.bids.contains_key(bid) ==> bid < order.price,
    ensures
        ({
            let total = order.kind.visible() + order.kind.hidden();
            let supplied = book.supplied(order.side, order.price);
            &&& supplied >= total ==> book.refusal(order) is None
            &&& supplied >= total && book.swept(
                order.id,
                order.side,
                total as u64,
                order.price,
            ).remaining == 0 ==> book.add(order).1 == Ok::<_, Refusal>(Added::Filled)
            &&& supplied < total ==> book.add(order) == (
                book,
                Err::<Added, _>(
                    Refusal::InsufficientLiquidity {
                        side: order.side,
                        requested: total as u64,
                        available: supplied as u64,
                    },
                ),
            )
        }),
{
    law_would_cross(book, order.price);
    assert(!(order.kind is PostOnly && book.would_cross(order.price, order.side)));
}

/// What becomes of an order that is matched depends on what remains of it. It is filled just
/// where nothing does. What remains of an immediate-or-cancel or fill-or-kill order is
/// dropped, and the refusal says what the order shows and how much of that is not left. What
/// remains of any other order rests: the same order with that quantity.
pub proof fn law_outcome(book: BookView, order: Order<()>)
    requires
        book.refusal(order) is None,
        order.kind.visible() + order.kind.hidden() <= u64::MAX,
    ensures
        ({
            let total = order.kind.visible() + order.kind.hidden();
            let remaining = book.swept(order.id, order.side, total as u64, order.price).remaining;
            let at_once = order.time_in_force == TimeInForce::Ioc || order.time_in_force
                == TimeInForce::Fok;
            match book.add(order).1 {
                Ok(Added::Filled) => remaining == 0,
                Err(refusal) => {
                    &&& remaining > 0 && at_once
                    &&& refusal matches Refusal::InsufficientLiquidity { side, requested, available } && {
                        &&& side == order.side
                        &&& requested == order.kind.visible()
                        &&& requested >= remaining ==> available + remaining == requested
                        &&& requested < remaining ==> available == 0
                    }
                },
                Ok(Added::Resting(left)) => {
                    &&& remaining > 0 && !at_once
                    &&& left == (Order { kind: left.kind, ..order })
                    &&& alike(left.kind, order.kind)
                    &&& remaining < total ==> left_over(order.kind, remaining, left.kind)
                    &&& remaining >= total ==> left == order
                },
            }
        }),
{
    let total = order.kind.visible() + order.kind.hidden();
    let remaining = book.swept(order.id, order.side, total as u64, order.price).remaining;
    if remaining <= total {
        law_remainder(order, remaining);
    }
}

/// An order that comes to rest keeps its identifier, price, side, time and policy, its kind
/// and all that goes with it but quantities.
pub proof fn law_rested_order_is_the_same_order(book: BookView, order: Order<()>, left: Order<()>)
    requires
        order.kind.visible() + order.kind.hidden() <= u64::MAX,
        book.add(order).1 == Ok::<Added, Refusal>(Added::Resting(left)),
    ensures
        left.id == order.id,
        left.price == order.price,
        left.side == order.side,
        left.timestamp == order.timestamp,
        left.time_in_force == order.time_in_force,
        alike(left.kind, order.kind),
{
    law_outcome(book, order);
}

/// A bid that comes to rest is among the bids at its price, and an ask among the asks, at the
/// end of the queue. The other orders and prices of its side stay as they are, and the book
/// finds the order where it is.
pub proof fn law_rests_on_its_own_side(
    book: BookView,
    order: Order<()>,
    left: Order<()>,
    price: u64,
    id: OrderId,
)
    requires
        book.add(order).1 == Ok::<Added, Refusal>(Added::Resting(left)),
    ensures
        ({
            let after = book.add(order).0;
            let (own, own_before) = match order.side {
                Side::Buy => (after.bids, book.bids),
                Side::Sell => (after.asks, book.asks),
            };
            let level = own[order.price];
            &&& own.contains_key(order.price)
            &&& level.orders.contains_key(order.id)
            &&& level.orders[order.id] == match left.kind {
                OrderKind::Market { quantity } => Order { kind: OrderKind::Standard { quantity }, ..left },
                _ => left,
            }
            &&& id != order.id ==> level.orders.get(id) == level_at(own_before, order.price).orders.get(id)
            &&& level.queue == level_at(own_before, order.price).queue.push(order.id)
            &&& price != order.price ==> own.contains_key(price) == own_before.contains_key(price)
                && own[price] == own_before[price]
            &&& after.locations.contains_key(order.id)
            &&& after.locations[order.id].price == order.price
            &&& after.locations[order.id].side == order.side
            &&& after.order(order.id) == Some(left)
        }),
{
}

/// Matching changes the other side of the book and nothing else of the levels. An order that
/// was used up has no place any more, and every other order keeps its own.
pub proof fn law_matched_order_leaves(book: BookView, order: Order<()>, id: OrderId)
    requires
        book.refusal(order) is None,
        id != order.id,
    ensures
        ({
            let total = order.kind.total() as u64;
            let swept = book.swept(order.id, order.side, total, order.price);
            let after = book.add(order).0;
            &&& order.side == Side::Buy ==> after.asks == swept.levels
            &&& order.side == Side::Sell ==> after.bids == swept.levels
            &&& swept.filled.contains(id) ==> !after.locations.contains_key(id)
            &&& !swept.filled.contains(id) ==> after.locations.get(id) == book.locations.get(id)
            &&& !(book.add(order).1 matches Ok(Added::Resting(_))) ==> {
                &&& order.side == Side::Buy ==> after.bids == book.bids
                &&& order.side == Side::Sell ==> after.asks == book.asks
            }
        }),
{
}

/// A match that traded is reported once where reports are kept, whatever became of the order:
/// with the instrument, the order, its trades, and what remained. Nothing else is reported.
pub proof fn law_trades_are_reported(book: BookView, order: Order<()>)
    ensures
        ({
            let total = order.kind.total() as u64;
            let swept = book.swept(order.id, order.side, total, order.price);
            let after = book.add(order).0.trades;
            if book.refusal(order) is None && book.listening && swept.executions.len() > 0 {
                &&& after.len() == book.trades.len() + 1
                &&& after.drop_last() == book.trades
                &&& after.last().symbol == book.symbol
                &&& after.last().result.order_id == order.id
                &&& after.last().result.executions == swept.executions
                &&& after.last().result.remaining == swept.remaining
                &&& after.last().result.complete == (swept.remaining == 0)
                &&& after.last().result.filled == swept.filled
            } else {
                after == book.trades
            }
        }),
{
    let total = order.kind.total() as u64;
    let result = book.match_result(order.id, order.side, total, order.price);
    let report = TradeView { symbol: book.symbol, result };
    assert(book.trades.push(report).drop_last() =~= book.trades);
}

/// The book finds an order just where its place and a level agree on it, and finds it as the
/// level has it, or as a market order of what it shows where it came as one.
pub proof fn law_order_lookup(book: BookView, id: OrderId)
    ensures
        ({
            let at = book.locations[id];
            let levels = match at.side {
                Side::Buy => book.bids,
                Side::Sell => book.asks,
            };
            let there = book.locations.contains_key(id) && levels.contains_key(at.price)
                && levels[at.price].orders.contains_key(id);
            let held = levels[at.price].orders[id];
            match book.order(id) {
                Some(order) => {
                    &&& there
                    &&& !at.market ==> order == held
                    &&& at.market ==> order == (Order {
                        kind: OrderKind::Market { quantity: held.kind.visible() },
                        ..held
                    })
                },
                None => !there,
            }
        }),
{
}

/// Cancelling hands the order over that the book finds. It takes that order from its level and
/// its place from it, drops the level where it counted no other, and changes nothing else.
pub proof fn law_cancel(book: BookView, id: OrderId, other: OrderId, price: u64)
    ensures
        book.cancel(id).1 == book.order(id),
        book.order(id) is None ==> book.cancel(id).0 == book,
        book.order(id) is Some ==> {
            let at = book.locations[id];
            let after = book.cancel(id).0;
            let (own, before) = match at.side {
                Side::Buy => (after.bids, book.bids),
                Side::Sell => (after.asks, book.asks),
            };
            &&& at.side == Side::Buy ==> after.asks == book.asks
            &&& at.side == Side::Sell ==> after.bids == book.bids
            &&& !after.locations.contains_key(id)
            &&& other != id ==> after.locations.get(other) == book.locations.get(other)
            &&& after.trades == book.trades
            &&& price != at.price ==> own.contains_key(price) == before.contains_key(price)
                && own[price] == before[price]
            &&& before[at.price].count == 1 ==> !own.contains_key(at.price)
            &&& before[at.price].count > 1 ==> {
                &&& own.contains_key(at.price)
                &&& own[at.price].orders == before[at.price].orders.remove(id)
                &&& own[at.price].queue == before[at.price].queue
                &&& own[at.price].count == before[at.price].count - 1
            }
        },
{
    if book.order(id) is Some {
        let at = book.locations[id];
        let count = book.levels(at.side)[at.price].count;
        if count > 0 {
            lemma_count_fits(count - 1);
        }
    }
}

/// Giving an order another quantity leaves it at its price and in its place. A limit, iceberg,
/// post-only or market order shows that quantity and is otherwise as it was, and any other
/// order stays as it is. An order that the book does not find is not handed over.
pub proof fn law_update_quantity(book: BookView, order_id: OrderId, new_quantity: u64)
    requires
        book.valid(),
        book.counted(),
    ensures
        ({
            let update = OrderUpdate::UpdateQuantity { order_id, new_quantity };
            let after = book.update(update).0;
            match (book.order(order_id), book.update(update).1) {
                (Some(order), Ok(Some(changed))) => {
                    &&& changed == (Order { kind: changed.kind, ..order })
                    &&& alike(changed.kind, order.kind)
                    &&& changed.kind.hidden() == order.kind.hidden()
                    &&& order.kind is Standard || order.kind is IcebergOrder || order.kind is PostOnly
                        ==> changed.kind.visible() == new_quantity
                    &&& order.kind is TrailingStop || order.kind is PeggedOrder || order.kind is MarketToLimit
                        || order.kind is ReserveOrder ==> changed == order
                    &&& order.kind is Market && level_at(
                        book.levels(order.side),
                        order.price,
                    ).orders[order_id].kind is Standard ==> changed.kind.visible() == new_quantity
                    &&& after.order(order_id) == Some(changed)
                    &&& after.locations == book.locations
                    &&& after.trades == book.trades
                },
                (None, Ok(None)) => after.trades == book.trades && after.order(order_id) is None,
                _ => false,
            }
        }),
{
    if book.order(order_id) is Some {
        let at = book.locations[order_id];
        let level = book.levels(at.side)[at.price];
        assert(level.counted());
        assert(level.orders.dom().contains(order_id));
        if level.orders.len() == 0 {
            assert(level.orders.dom() =~= Set::empty());
        }
    }
}

/// Another order, and another price, is not touched by giving an order another quantity.
pub proof fn law_update_quantity_keeps_others(
    book: BookView,
    order_id: OrderId,
    new_quantity: u64,
    other: OrderId,
)
    requires
        book.valid(),
        book.counted(),
        book.order(order_id) is Some,
        other != order_id,
    ensures
        book.update(OrderUpdate::UpdateQuantity { order_id, new_quantity }).0.order(other) == book.order(
            other,
        ),
{
    let at = book.locations[order_id];
    let level = book.levels(at.side)[at.price];
    assert(level.counted());
    assert(level.orders.dom().contains(order_id));
    if level.orders.len() == 0 {
        assert(level.orders.dom() =~= Set::empty());
    }
}

/// Moving an order to a price that it does not have cancels it and adds it again with that
/// price and all else as it was. What is handed over is the order that rests, or the order
/// as it was added where it was filled, or why it was refused.
pub proof fn law_update_price(book: BookView, order_id: OrderId, new_price: u64)
    requires
        book.order(order_id) is Some,
        new_price != book.locations[order_id].price,
    ensures
        ({
            let order = Order { price: new_price, ..book.order(order_id)->0 };
            let (after, outcome) = book.cancel(order_id).0.add(order);
            let (updated, result) = book.update(OrderUpdate::UpdatePrice { order_id, new_price });
            &&& updated == after
            &&& match outcome {
                Ok(Added::Filled) => result == Ok::<_, Refusal>(Some(order)),
                Ok(Added::Resting(left)) => result == Ok::<_, Refusal>(Some(left)),
                Err(refusal) => result == Err::<Option<Order<()>>, _>(refusal),
            }
        }),
{
}

/// Moving an order with another quantity cancels it and adds it again with that price and its
/// quantity set, and hands over what comes of that, also where the price is the one it has.
pub proof fn law_update_price_and_quantity(
    book: BookView,
    order_id: OrderId,
    new_price: u64,
    new_quantity: u64,
)
    requires
        book.order(order_id) is Some,
    ensures
        ({
            let before = book.order(order_id)->0;
            let order = Order { price: new_price, kind: before.with_target(new_quantity).kind, ..before };
            let (after, outcome) = book.cancel(order_id).0.add(order);
            let (updated, result) = book.update(
                OrderUpdate::UpdatePriceAndQuantity { order_id, new_price, new_quantity },
            );
            &&& updated == after
            &&& match outcome {
                Ok(Added::Filled) => result == Ok::<_, Refusal>(Some(order)),
                Ok(Added::Resting(left)) => result == Ok::<_, Refusal>(Some(left)),
                Err(refusal) => result == Err::<Option<Order<()>>, _>(refusal),
            }
        }),
{
}

/// Replacing an order cancels it and adds the same order at another price and side, showing
/// another quantity and hiding what it hid, of the same kind with all that goes with it.
pub proof fn law_replace(
    book: BookView,
    order_id: OrderId,
    price: u64,
    quantity: u64,
    side: Side,
    order: Order<()>,
)
    requires
        book.valid(),
        book.order(order_id) is Some,
        order.id == order_id,
        order.price == price,
        order.side == side,
        order.timestamp == book.order(order_id)->0.timestamp,
        order.time_in_force == book.order(order_id)->0.time_in_force,
        alike(order.kind, book.order(order_id)->0.kind),
        order.kind.visible() == quantity,
        order.kind.hidden() == book.order(order_id)->0.kind.hidden(),
    ensures
        ({
            let (after, outcome) = book.cancel(order_id).0.add(order);
            let (updated, result) = book.update(
                OrderUpdate::Replace { order_id, price, quantity, side },
            );
            &&& updated == after
            &&& match outcome {
                Ok(Added::Filled) => result == Ok::<_, Refusal>(Some(order)),
                Ok(Added::Resting(left)) => result == Ok::<_, Refusal>(Some(left)),
                Err(refusal) => result == Err::<Option<Order<()>>, _>(refusal),
            }
        }),
{
    let before = book.order(order_id)->0;
    law_showing(before.kind, 0, quantity);
    law_alike(order.kind, before.kind.showing(quantity));
    assert(before.extra_fields == order.extra_fields);
}

/// An order that the book does not find is not changed by any request to move or replace it:
/// unless it has a place at the price that it is to move to, nothing is handed over.
pub proof fn law_update_of_missing_order(book: BookView, update: OrderUpdate)
    requires
        book.order(update.target()) is None,
        !(update is UpdateQuantity),
        update matches OrderUpdate::UpdatePrice { new_price, .. } ==> !book.locations.contains_key(
            update.target(),
        ) || book.locations[update.target()].price != new_price,
    ensures
        book.update(update) == (book, Ok::<Option<Order<()>>, Refusal>(None)),
{
}

/// What a match result says of an order: which order, and that it is complete just where
/// nothing remains.
pub proof fn law_match_result(result: MatchResult)
    ensures
        result@.order_id == result.order_id,
        result@.remaining == result.remaining_quantity,
        result@.complete == result.is_complete,
        result@.filled == result.filled_order_ids@,
        result@.executions.len() == result.transactions.len(),
        forall|i: int|
            0 <= i < result.transactions.len() ==> {
                let trade = #[trigger] result.transactions[i];
                result@.executions[i] == (Execution {
                    taker: trade.taker_order_id,
                    maker: trade.maker_order_id,
                    price: trade.price,
                    quantity: trade.quantity,
                    taker_side: trade.taker_side,
                })
            },
{
}

/// Levels that can be matched with any quantity up to `most` can be matched one after the
/// other.
proof fn lemma_all_settle(
    levels: Map<u64, LevelState>,
    side: Side,
    limit: u64,
    quantity: u64,
    most: u64,
)
    requires
        levels.dom().finite(),
        quantity <= most,
        forall|p: u64, q: u64|
            levels.contains_key(p) && crosses(side, limit, p) && q <= most ==> (
            #[trigger] levels[p].settles(q)),
    ensures
        settled(levels, side, limit, quantity),
    decreases levels.dom().len(),
{
    if let Some(p) = best(levels, side.other()) {
        if quantity > 0 && crosses(side, limit, p) && levels.contains_key(p) {
            assert(levels[p].settles(quantity));
            let others = levels.remove(p);
            assert forall|r: u64, q: u64|
                others.contains_key(r) && crosses(side, limit, r) && q <= most implies (
            #[trigger] others[r].settles(q)) by {
                assert(levels.contains_key(r) && others[r] == levels[r]);
                assert(levels[r].settles(q));
            }
            lemma_all_settle(
                others,
                side,
                limit,
                unmet(quantity, supply(levels[p].orders)) as u64,
                most,
            );
        }
    }
}

/// An order can be added where its value at every price that its limit allows fits in a machine
/// word and no order there refills itself with nothing.
pub proof fn law_can_add(book: BookView, order: Order<()>, opposite: Map<u64, LevelState>)
    requires
        book.valid(),
        order.kind.visible() + order.kind.hidden() <= u64::MAX,
        order.side == Side::Buy ==> opposite == book.asks,
        order.side == Side::Sell ==> opposite == book.bids,
        forall|p: u64, id: OrderId|
            allows(order.side, order.price, p) && #[trigger] rests(opposite, p, id) ==> {
                let kind = opposite[p].orders[id].kind;
                &&& (order.kind.visible() + order.kind.hidden()) * p <= u64::MAX
                &&& kind.visible() + kind.hidden() <= u64::MAX
                &&& kind.hidden() > 0 ==> kind.visible() > 0
                &&& kind matches OrderKind::ReserveOrder { replenish_amount, .. } ==> replenish_amount
                    != Some(0u64)
            },
    ensures
        book.can_add(order),
{
    assert(opposite == book.levels(order.side.other()));
    let total = (order.kind.visible() + order.kind.hidden()) as u64;
    assert forall|p: u64, q: u64|
        opposite.contains_key(p) && crosses(order.side, order.price, p) && q <= total implies (
    #[trigger] opposite[p].settles(q)) by {
        assert forall|id: OrderId| #[trigger] opposite[p].orders.contains_key(id) implies {
            &&& tradable(opposite[p].orders[id], q)
            &&& stalls(opposite[p].orders[id].kind) ==> q <= supply(opposite[p].orders)
        } by {
            assert(rests(opposite, p, id));
            let resting = opposite[p].orders[id];
            let fill = lesser(q as int, largest_fill(resting.kind));
            assert(fill * resting.price <= total * p) by (nonlinear_arith)
                requires
                    fill <= q <= total,
                    resting.price == p,
                    p >= 0,
            ;
        }
    }
    lemma_all_settle(opposite, order.side, order.price, total, total);
}

/// Adding an order that is over, or post-only where it would trade, or fill-or-kill where there
/// is not enough for it, can be carried through whatever rests in the book: it is refused.
pub proof fn law_can_add_what_is_refused(book: BookView, order: Order<()>)
    requires
        book.add(order).0 == book,
        book.add(order).1 matches Err(refusal) && (refusal is InvalidOperation || refusal is PriceCrossing
            || order.time_in_force == TimeInForce::Fok && order.kind.visible() + order.kind.hidden()
            <= u64::MAX && book.supplied(order.side, order.price) < order.kind.visible()
            + order.kind.hidden()),
    ensures
        book.can_add(order),
{
}

/// Every cancellation and change of quantity can be carried through, and so can every update
/// of an order that the book does not find. A move or replacement can be where the order that
/// takes the other's place can be added.
pub proof fn law_can_update(book: BookView, update: OrderUpdate)
    ensures
        update is Cancel || update is UpdateQuantity || book.order(update.target()) is None
            ==> book.can_update(update),
        (book.order(update.target()) matches Some(order) ==> order.kind.visible() + order.kind.hidden()
            <= u64::MAX) && (book.replacement(update) matches Some(order) ==> book.cancel(
            update.target(),
        ).0.can_add(order)) ==> book.can_update(update),
{
}

} // verus!
