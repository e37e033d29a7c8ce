//! What holds of the book whatever is asked of it.

use crate::error::Refusal;
use crate::level::{lasting, lemma_count_fits, LevelState};
use crate::locations::Location;
use crate::model::{Added, BookView, MatchView};
use crate::order::{Order, OrderKind, OrderUpdate, Side};
use crate::quantity::{lesser, OrderQuantity};
use crate::sweep::{
    ahead, all_counted, crosses, lemma_sweep_beyond, lemma_sweep_order, lemma_sweep_trade, level_at,
    rests,
};
use pricelevel::OrderId;
use vstd::prelude::*;

verus! {

/// Setting the quantity of an order other than a reserve order makes it show that
/// quantity, and hides neither more nor less.
pub proof fn law_set_quantity_shows<T>(order: Order<T>, target: u64)
    requires
        !(order.kind is ReserveOrder),
    ensures
        order.with_target(target).kind.visible() == target,
        order.with_target(target).kind.hidden() == order.kind.hidden(),
{
}

/// Setting the quantity of a reserve order brings its total down to that quantity,
/// and never up.
pub proof fn law_set_quantity_reduces_reserve<T>(order: Order<T>, target: u64)
    requires
        order.kind is ReserveOrder,
        order.kind.total() <= u64::MAX,
    ensures
        order.with_target(target).kind.total() == lesser(order.kind.total(), target as int),
{
}

/// Setting a quantity changes nothing but quantities.
pub proof fn law_set_quantity_keeps_terms<T>(order: Order<T>, target: u64)
    ensures
        order.with_target(target).id == order.id,
        order.with_target(target).price == order.price,
        order.with_target(target).side == order.side,
        order.with_target(target).timestamp == order.timestamp,
        order.with_target(target).time_in_force == order.time_in_force,
        order.with_target(target).extra_fields == order.extra_fields,
        if order.kind is ReserveOrder {
            order.with_target(target).kind.same_rules(order.kind)
        } else {
            order.with_target(target).kind.showing(0) == order.kind.showing(0)
        },
{
}

/// Setting a quantity twice is setting it once.
pub proof fn law_set_quantity_twice<T>(order: Order<T>, target: u64)
    requires
        order.kind is ReserveOrder ==> order.kind.total() <= u64::MAX,
    ensures
        order.with_target(target).with_target(target) == order.with_target(target),
{
}

/// A book without orders counts them rightly, has every order where it is expected, and is
/// not crossed.
pub proof fn law_empty_book(book: BookView)
    requires
        book.bids == Map::<u64, LevelState>::empty(),
        book.asks == Map::<u64, LevelState>::empty(),
        book.locations == Map::<OrderId, Location>::empty(),
    ensures
        book.valid(),
        book.counted(),
        book.placed(),
        book.uncrossed(),
        book.intact(),
        book.lasts(),
{
}

/// An order that is refused before it is matched leaves the book as it was.
pub proof fn law_refused_order_changes_nothing(book: BookView, order: Order<()>)
    requires
        book.refusal(order) is Some,
    ensures
        book.add(order).0 == book,
        book.add(order).1 == Err::<Added, _>(book.refusal(order)->0),
{
}

/// A fill-or-kill order is not matched unless the orders that it may trade with give up
/// enough for all of it.
pub proof fn law_fill_or_kill_needs_supply(book: BookView, order: Order<()>)
    requires
        order.time_in_force is Fok,
        book.refusal(order) is None,
    ensures
        book.supplied(order.side, order.price) >= order.kind.total(),
{
}

/// An order that must trade at once never rests: its own side of the book stays as it
/// was, and no order gets a place.
pub proof fn law_immediate_order_never_rests(book: BookView, order: Order<()>)
    requires
        order.time_in_force.immediate(),
    ensures
        !(book.add(order).1 matches Ok(Added::Resting(_))),
        book.add(order).0.levels(order.side) == book.levels(order.side),
        book.add(order).0.locations.submap_of(book.locations),
{
}

/// A post-only order never trades: where it is not refused, the other side of the book
/// and the reports stay as they were, and the order rests as it came.
pub proof fn law_post_only_never_trades(book: BookView, order: Order<()>)
    requires
        book.valid(),
        order.kind is PostOnly,
    ensures
        book.add(order).0.levels(order.side.other()) == book.levels(order.side.other()),
        book.add(order).0.trades == book.trades,
        match book.add(order).1 {
            Ok(Added::Filled) => order.kind.total() == 0,
            Ok(Added::Resting(left)) => left == order,
            Err(_) => book.refusal(order) is Some || order.time_in_force.immediate(),
        },
{
    assert(book.locations.remove_keys(Seq::<OrderId>::empty().to_set()) =~= book.locations);
}

/// Every trade of an order is at a price that its limit allows, and was on the other side
/// of the book.
pub proof fn law_trades_within_limit(
    book: BookView,
    id: OrderId,
    side: Side,
    quantity: u64,
    limit: u64,
    i: int,
)
    requires
        book.valid(),
        0 <= i < book.match_result(id, side, quantity, limit).executions.len(),
    ensures
        ({
            let trade = book.match_result(id, side, quantity, limit).executions[i];
            &&& trade.taker == id
            &&& book.levels(side.other()).contains_key(trade.price)
            &&& crosses(side, limit, trade.price)
        }),
{
    lemma_sweep_trade(book.levels(side.other()), id, side, limit, quantity, i);
}

/// An order trades at the best prices first.
pub proof fn law_best_price_first(
    book: BookView,
    id: OrderId,
    side: Side,
    quantity: u64,
    limit: u64,
    i: int,
    j: int,
)
    requires
        book.valid(),
        0 <= i < j < book.match_result(id, side, quantity, limit).executions.len(),
    ensures
        ({
            let trades = book.match_result(id, side, quantity, limit).executions;
            !ahead(side.other(), trades[j].price, trades[i].price)
        }),
{
    lemma_sweep_order(book.levels(side.other()), id, side, limit, quantity, i, j);
}

/// Adding an order leaves what rests on the other side beyond its limit as it was.
pub proof fn law_beyond_limit_untouched(book: BookView, order: Order<()>, price: u64)
    requires
        book.valid(),
        !crosses(order.side, order.price, price),
    ensures
        level_at(book.add(order).0.levels(order.side.other()), price) == level_at(
            book.levels(order.side.other()),
            price,
        ),
{
    lemma_sweep_beyond(
        book.levels(order.side.other()),
        order.id,
        order.side,
        order.price,
        order.kind.total() as u64,
        price,
    );
}

/// Adding an order does not change the instrument, the time or whether reports are kept.
pub proof fn law_add_keeps_settings(book: BookView, order: Order<()>)
    ensures
        book.add(order).0.same_settings(book),
{
}

/// Neither cancelling nor updating an order changes the instrument, the time or whether
/// reports are kept.
pub proof fn law_update_keeps_settings(book: BookView, update: OrderUpdate)
    ensures
        book.cancel(update.target()).0.same_settings(book),
        book.update(update).0.same_settings(book),
{
    if let Some(order) = book.replacement(update) {
        law_add_keeps_settings(book.cancel(update.target()).0, order);
    }
}

/// The order that the book finds under an identifier has that identifier, and is at the
/// price and on the side where the book expects it.
pub proof fn law_order_is_at_its_place(book: BookView, id: OrderId)
    requires
        book.valid(),
        book.order(id) is Some,
    ensures
        ({
            let order = book.order(id)->0;
            &&& order.id == id
            &&& order.price == book.locations[id].price
            &&& order.side == book.locations[id].side
        }),
{
}

/// An order that came to rest is in the book, as it was handed back.
pub proof fn law_resting_order_is_found(book: BookView, order: Order<()>, left: Order<()>)
    requires
        book.add(order).1 == Ok::<Added, Refusal>(Added::Resting(left)),
    ensures
        book.add(order).0.order(order.id) == Some(left),
{
}

/// What comes to rest of an order amounts to what matching left of it, and the order rests
/// as it came where nothing traded.
pub proof fn law_rests_with_what_is_left(book: BookView, order: Order<()>, left: Order<()>)
    requires
        order.kind.total() <= u64::MAX,
        book.add(order).1 == Ok::<Added, Refusal>(Added::Resting(left)),
    ensures
        ({
            let remaining = book.swept(
                order.id,
                order.side,
                order.kind.total() as u64,
                order.price,
            ).remaining;
            &&& left.kind.total() == lesser(remaining as int, order.kind.total())
            &&& remaining >= order.kind.total() ==> left == order
        }),
{
}

/// Adding an order leaves its own side of the book as it was, but for the level at
/// its price, and takes no place from an order that was not used up.
pub proof fn law_add_touches_little(book: BookView, order: Order<()>, price: u64, id: OrderId)
    requires
        price != order.price,
        id != order.id,
        !book.swept(
            order.id,
            order.side,
            order.kind.total() as u64,
            order.price,
        ).filled.to_set().contains(id),
    ensures
        book.add(order).0.levels(order.side).contains_key(price) == book.levels(
            order.side,
        ).contains_key(price),
        level_at(book.add(order).0.levels(order.side), price) == level_at(
            book.levels(order.side),
            price,
        ),
        book.add(order).0.locations.get(id) == book.locations.get(id),
{
}

/// An order that no price on the other side crosses meets nothing.
pub proof fn law_uncrossed_order_meets_nothing(book: BookView, order: Order<()>)
    requires
        book.valid(),
        !book.would_cross(order.price, order.side),
    ensures
        book.meets_nothing(order),
{
}

/// Cancelling an order that was added and met nothing hands it back and leaves the book as
/// it was. A level that the order made is gone; one that was there has the identifier in
/// its queue, where it names no order.
pub proof fn law_cancel_undoes_add(book: BookView, order: Order<()>)
    requires
        book.fresh(order),
        !book.locations.contains_key(order.id),
        book.levels(order.side).contains_key(order.price) ==> book.levels(
            order.side,
        )[order.price].count > 0,
        book.meets_nothing(order),
        book.add(order).1 is Ok,
        0 < order.kind.total() <= u64::MAX,
    ensures
        book.add(order).1 == Ok::<_, Refusal>(Added::Resting(order)),
        book.add(order).0.cancel(order.id).1 == Some(order),
        ({
            let levels = book.levels(order.side);
            let before = levels[order.price];
            book.add(order).0.cancel(order.id).0 == if levels.contains_key(order.price) {
                book.with_levels(
                    order.side,
                    levels.insert(
                        order.price,
                        LevelState { queue: before.queue.push(order.id), ..before },
                    ),
                )
            } else {
                book
            }
        }),
{
    let levels = book.levels(order.side);
    let before = level_at(levels, order.price);
    let added = book.add(order).0;
    assert(book.locations.remove_keys(Seq::<OrderId>::empty().to_set()) =~= book.locations);
    assert(added == book.resting(order));
    assert(!rests(levels, order.price, order.id));
    let after = before.with_order(order.kept()).without_order(order.id);
    assert(after.orders =~= before.orders);
    lemma_count_fits(before.count + 1);
    lemma_count_fits(before.count as int);
    let cancelled = added.cancel(order.id).0;
    assert(cancelled.locations =~= book.locations);
    if levels.contains_key(order.price) {
        assert(cancelled.levels(order.side) =~= levels.insert(
            order.price,
            LevelState { queue: before.queue.push(order.id), ..before },
        ));
    } else {
        assert(cancelled.levels(order.side) =~= levels);
    }
}

/// An order that was cancelled is gone, and cancelling it again does nothing.
pub proof fn law_cancel_once(book: BookView, id: OrderId)
    requires
        book.cancel(id).1 is Some,
    ensures
        book.cancel(id).0.order(id) is None,
        book.cancel(id).0.cancel(id) == (book.cancel(id).0, None::<Order<()>>),
{
}

/// Cancelling an order that is not in the book does nothing.
pub proof fn law_cancel_of_unknown(book: BookView, id: OrderId)
    requires
        book.order(id) is None,
    ensures
        book.cancel(id) == (book, None::<Order<()>>),
{
}

/// A level that counts its orders rightly still does after one was taken out.
proof fn lemma_counted_without(level: LevelState, id: OrderId)
    requires
        level.counted(),
        level.orders.contains_key(id),
    ensures
        level.count > 0,
        level.without_order(id).count == level.count - 1,
        level.without_order(id).counted(),
{
    assert(level.orders.dom().contains(id));
    if level.orders.dom().len() == 0 {
        assert(level.orders.dom() =~= Set::empty());
    }
    lemma_count_fits(level.count - 1);
    assert(level.orders.remove(id).dom() =~= level.orders.dom().remove(id));
}

/// A level that counts its orders rightly counts some just where there are some.
proof fn lemma_occupied(level: LevelState)
    requires
        level.counted(),
    ensures
        (level.count > 0) == (exists|id: OrderId| #[trigger] level.orders.contains_key(id)),
{
    if level.count > 0 {
        assert(level.orders.contains_key(level.orders.dom().choose()));
    } else {
        assert(level.orders.dom() =~= Set::empty());
    }
}

/// Cancelling an order leaves every other order where it is.
pub proof fn law_cancel_keeps_others(book: BookView, id: OrderId, other: OrderId)
    requires
        book.counted(),
        other != id,
    ensures
        book.cancel(id).0.order(other) == book.order(other),
{
    if book.order(id) is Some {
        let at = book.locations[id];
        let before = book.levels(at.side)[at.price];
        let after = before.without_order(id);
        lemma_counted_without(before, id);
        if after.count == 0 {
            assert(after.orders.dom() =~= Set::empty());
            assert(!after.orders.contains_key(other));
        }
    }
}

/// Cancelling through an update is cancelling.
pub proof fn law_update_cancels(book: BookView, id: OrderId)
    ensures
        book.update(OrderUpdate::Cancel { order_id: id }) == (
            book.cancel(id).0,
            Ok::<Option<Order<()>>, Refusal>(book.cancel(id).1),
        ),
{
}

/// An update of an order that has no place in the book does nothing.
pub proof fn law_update_of_unknown(book: BookView, update: OrderUpdate)
    requires
        !book.locations.contains_key(update.target()),
    ensures
        book.update(update) == (book, Ok::<Option<Order<()>>, Refusal>(None)),
{
}

/// Moving an order to the price that it has is refused and changes nothing.
pub proof fn law_same_price_is_refused(book: BookView, id: OrderId)
    requires
        book.locations.contains_key(id),
    ensures
        ({
            let update = OrderUpdate::UpdatePrice {
                order_id: id,
                new_price: book.locations[id].price,
            };
            book.update(update) == (
                book,
                Err::<Option<Order<()>>, _>(
                    Refusal::InvalidOperation {
                        message: "Cannot update price to the same value"@,
                    },
                ),
            )
        }),
{
}

/// Moving an order to another price is cancelling it, then adding it with that price and all
/// else as it was.
pub proof fn law_price_update_is_cancel_then_add(book: BookView, order_id: OrderId, new_price: u64)
    requires
        book.order(order_id) is Some,
        book.locations[order_id].price != new_price,
    ensures
        ({
            let order = Order { price: new_price, ..book.order(order_id)->0 };
            let (after, result) = book.cancel(order_id).0.add(order);
            book.update(OrderUpdate::UpdatePrice { order_id, new_price }) == (
                after,
                BookView::handed_over(order, result),
            )
        }),
{
}

/// Moving an order and giving it another quantity is cancelling it, then adding it with that
/// price and its quantity set. The price may be the one that it has.
pub proof fn law_price_and_quantity_update_is_cancel_then_add(
    book: BookView,
    order_id: OrderId,
    new_price: u64,
    new_quantity: u64,
)
    requires
        book.order(order_id) is Some,
    ensures
        ({
            let moved = Order { price: new_price, ..book.order(order_id)->0 };
            let order = moved.with_target(new_quantity);
            let (after, result) = book.cancel(order_id).0.add(order);
            book.update(
                OrderUpdate::UpdatePriceAndQuantity { order_id, new_price, new_quantity },
            ) == (after, BookView::handed_over(order, result))
        }),
{
}

/// Replacing an order is cancelling it, then adding it with that price and side, showing that
/// quantity, and all else as it was.
pub proof fn law_replacement_is_cancel_then_add(
    book: BookView,
    order_id: OrderId,
    price: u64,
    quantity: u64,
    side: Side,
)
    requires
        book.valid(),
        book.order(order_id) is Some,
    ensures
        ({
            let before = book.order(order_id)->0;
            let order = Order { price, side, kind: before.kind.showing(quantity), ..before };
            let (after, result) = book.cancel(order_id).0.add(order);
            &&& order.id == order_id
            &&& book.update(OrderUpdate::Replace { order_id, price, quantity, side }) == (
                after,
                BookView::handed_over(order, result),
            )
        }),
{
}

/// Places and levels agree after every update, whether it is refused or not, if they agreed
/// before it and matching keeps it so. A level to which an order moves must have room in
/// its count.
pub proof fn law_update_keeps_agreement(book: BookView, update: OrderUpdate)
    requires
        book.valid(),
        book.intact(),
        book.replacement(update) matches Some(order) ==> {
            let between = book.cancel(update.target()).0;
            &&& level_at(between.levels(order.side), order.price).count < usize::MAX
            &&& between.refusal(order) is None ==> between.after_match(
                order.id,
                order.side,
                order.kind.total() as u64,
                order.price,
            ).intact()
        },
    ensures
        book.update(update).0.intact(),
{
    let id = update.target();
    law_cancel_keeps(book, id);
    match update {
        OrderUpdate::UpdateQuantity { new_quantity, .. } => {
            law_requantify_keeps(book, id, new_quantity);
        },
        _ => {
            if let Some(order) = book.replacement(update) {
                let between = book.cancel(id).0;
                let total = order.kind.total() as u64;
                if between.refusal(order) is None {
                    let matched = between.after_match(order.id, order.side, total, order.price);
                    let result = between.match_result(order.id, order.side, total, order.price);
                    law_conclusion_keeps_agreement(matched, order, result);
                }
            }
        },
    }
}

/// Places and levels agree after an order was concluded, if they agreed before, the order has
/// no place, and its level has room in its count.
pub proof fn law_conclusion_keeps_agreement(book: BookView, order: Order<()>, result: MatchView)
    requires
        book.intact(),
        !book.locations.contains_key(order.id),
        level_at(book.levels(order.side), order.price).count < usize::MAX,
    ensures
        book.conclude(order, result).0.intact(),
{
    let reported = book.reporting(result);
    assert forall|s: Side| #[trigger] reported.levels(s) == book.levels(s) by {}
    assert forall|s: Side, p: u64, id: OrderId| #[trigger] rests(reported.levels(s), p, id) == rests(
        book.levels(s),
        p,
        id,
    ) by {}
    assert(reported.stocked()) by {
        assert forall|s: Side, p: u64| #[trigger] reported.levels(s).contains_key(p) implies exists|
            id: OrderId,
        | rests(reported.levels(s), p, id) by {
            assert(book.levels(s).contains_key(p));
            let id = choose|id: OrderId| rests(book.levels(s), p, id);
            assert(rests(reported.levels(s), p, id));
        }
    }
    assert(reported.intact());
    assert(!reported.holds(order.id));
    if let Ok(Added::Resting(left)) = book.conclude(order, result).1 {
        law_resting_keeps(reported, left);
    }
}

/// An order whose move is refused is no longer in the book.
pub proof fn law_refused_move_loses_the_order(book: BookView, update: OrderUpdate)
    requires
        book.replacement(update) is Some,
        book.update(update).1 is Err,
    ensures
        book.update(update).0.order(update.target()) is None,
{
}

/// An order that moved and was not filled is in the book as it was handed back, at the
/// price and on the side to which the update moves it.
pub proof fn law_moved_order_is_found(book: BookView, update: OrderUpdate, order: Order<()>, left: Order<()>)
    requires
        book.valid(),
        book.replacement(update) == Some(order),
        book.cancel(update.target()).0.add(order).1 == Ok::<Added, Refusal>(Added::Resting(left)),
    ensures
        book.update(update).1 == Ok::<Option<Order<()>>, Refusal>(Some(left)),
        book.update(update).0.order(update.target()) == Some(left),
        left.price == order.price,
        left.side == order.side,
{
}

/// An order whose quantity was changed is in the book as it was handed back, at the
/// price that it had.
pub proof fn law_requantified_order_is_found(book: BookView, id: OrderId, q: u64, changed: Order<()>)
    requires
        book.counted(),
        book.requantify(id, q).1 == Some(changed),
    ensures
        book.requantify(id, q).0.order(id) == Some(changed),
        book.requantify(id, q).0.locations == book.locations,
{
    let at = book.locations[id];
    let level = book.levels(at.side)[at.price];
    assert(level.counted());
    assert(level.orders.dom().contains(id));
    assert(level.count > 0) by {
        if level.orders.len() == 0 {
            assert(level.orders.dom() =~= Set::empty());
        }
    }
}

/// Cancelling keeps right counts right and orders findable, and brings no new prices.
pub proof fn law_cancel_keeps(book: BookView, id: OrderId)
    ensures
        book.counted() ==> book.cancel(id).0.counted(),
        book.placed() ==> book.cancel(id).0.placed(),
        book.uncrossed() ==> book.cancel(id).0.uncrossed(),
        book.intact() ==> book.cancel(id).0.intact(),
        book.lasts() ==> book.cancel(id).0.lasts(),
{
    if book.order(id) is Some {
        let at = book.locations[id];
        let before = book.levels(at.side)[at.price];
        let cancelled = book.cancel(id).0;
        if book.counted() {
            lemma_counted_without(before, id);
            assert(all_counted(cancelled.levels(at.side)));
        }
        if book.placed() {
            assert forall|side: Side, p: u64, other: OrderId| #[trigger]
                rests(cancelled.levels(side), p, other) implies {
                &&& cancelled.locations.contains_key(other)
                &&& cancelled.locations[other].price == p
                &&& cancelled.locations[other].side == side
            } by {
                assert(rests(book.levels(side), p, other));
            }
        }
        if book.intact() {
            lemma_counted_without(before, id);
            lemma_occupied(before.without_order(id));
            assert forall|other: OrderId| #[trigger]
                cancelled.locations.contains_key(other) implies rests(
                cancelled.levels(cancelled.locations[other].side),
                cancelled.locations[other].price,
                other,
            ) by {
                assert(book.locations.contains_key(other));
            }
            assert forall|side: Side, p: u64| #[trigger]
                cancelled.levels(side).contains_key(p) implies exists|other: OrderId|
                rests(cancelled.levels(side), p, other) by {
                assert(book.levels(side).contains_key(p));
                if side == at.side && p == at.price {
                    let other = choose|other: OrderId| #[trigger]
                        before.without_order(id).orders.contains_key(other);
                    assert(rests(cancelled.levels(side), p, other));
                } else {
                    let other = choose|other: OrderId| rests(book.levels(side), p, other);
                    assert(rests(cancelled.levels(side), p, other));
                }
            }
        }
        if book.lasts() {
            assert forall|side: Side, p: u64, other: OrderId| #[trigger]
                rests(cancelled.levels(side), p, other) implies lasting(
                cancelled.levels(side)[p].orders[other].kind,
            ) by {
                assert(rests(book.levels(side), p, other));
            }
        }
        if book.uncrossed() {
            assert forall|bid: u64, ask: u64| #[trigger]
                cancelled.bids.contains_key(bid) && #[trigger] cancelled.asks.contains_key(ask) implies bid
                < ask by {
                assert(book.bids.contains_key(bid) && book.asks.contains_key(ask));
            }
        }
    }
}

/// Once an order was cancelled, no order rests under its identifier.
pub proof fn law_cancelled_order_is_gone(book: BookView, id: OrderId)
    requires
        book.placed(),
        book.order(id) is Some,
    ensures
        !book.cancel(id).0.holds(id),
{
    let cancelled = book.cancel(id).0;
    assert forall|side: Side, p: u64| !#[trigger] rests(cancelled.levels(side), p, id) by {
        if rests(cancelled.levels(side), p, id) {
            assert(rests(book.levels(side), p, id));
        }
    }
}

/// Changing a quantity keeps right counts right and orders findable, and brings no new
/// prices.
pub proof fn law_requantify_keeps(book: BookView, id: OrderId, q: u64)
    ensures
        book.counted() ==> book.requantify(id, q).0.counted(),
        book.placed() ==> book.requantify(id, q).0.placed(),
        book.uncrossed() ==> book.requantify(id, q).0.uncrossed(),
        book.intact() ==> book.requantify(id, q).0.intact(),
        book.lasts() && q > 0 ==> book.requantify(id, q).0.lasts(),
{
    if book.locations.contains_key(id) {
        let at = book.locations[id];
        let changed = book.requantify(id, q).0;
        if book.counted() && book.levels(at.side).contains_key(at.price) {
            let before = book.levels(at.side)[at.price];
            assert(before.counted());
            if before.orders.contains_key(id) {
                assert(before.with_quantity(id, q).orders.dom() =~= before.orders.dom());
            }
            assert(before.with_quantity(id, q).counted());
            assert(all_counted(changed.levels(at.side)));
        }
        if book.placed() {
            assert forall|side: Side, p: u64, other: OrderId| #[trigger]
                rests(changed.levels(side), p, other) implies {
                &&& changed.locations.contains_key(other)
                &&& changed.locations[other].price == p
                &&& changed.locations[other].side == side
            } by {
                assert(rests(book.levels(side), p, other));
            }
        }
        if book.intact() {
            let before = book.levels(at.side)[at.price];
            assert(rests(book.levels(at.side), at.price, id));
            lemma_occupied(before);
            assert(changed.locations == book.locations);
            assert forall|side: Side, p: u64, other: OrderId| rests(
                changed.levels(side),
                p,
                other,
            ) == #[trigger] rests(book.levels(side), p, other) by {}
            assert forall|side: Side, p: u64| #[trigger]
                changed.levels(side).contains_key(p) implies exists|other: OrderId|
                rests(changed.levels(side), p, other) by {
                assert(book.levels(side).contains_key(p));
                let other = choose|other: OrderId| rests(book.levels(side), p, other);
                assert(rests(changed.levels(side), p, other));
            }
            assert forall|other: OrderId| #[trigger]
                changed.locations.contains_key(other) implies rests(
                changed.levels(changed.locations[other].side),
                changed.locations[other].price,
                other,
            ) by {
                assert(rests(
                    book.levels(book.locations[other].side),
                    book.locations[other].price,
                    other,
                ));
            }
        }
        if book.lasts() && q > 0 {
            assert forall|side: Side, p: u64, other: OrderId| #[trigger]
                rests(changed.levels(side), p, other) implies lasting(
                changed.levels(side)[p].orders[other].kind,
            ) by {
                assert(rests(book.levels(side), p, other));
            }
        }
        if book.uncrossed() {
            assert forall|bid: u64, ask: u64| #[trigger]
                changed.bids.contains_key(bid) && #[trigger] changed.asks.contains_key(ask) implies bid
                < ask by {
                assert(book.bids.contains_key(bid) && book.asks.contains_key(ask));
            }
        }
    }
}

/// Putting a fresh order to rest keeps right counts right and orders findable. It does
/// not cross the book if no price on the other side crosses the order.
pub proof fn law_resting_keeps(book: BookView, order: Order<()>)
    ensures
        book.counted() && book.fresh(order) ==> book.resting(order).counted(),
        book.placed() && !book.holds(order.id) ==> book.resting(order).placed(),
        book.uncrossed() && (forall|p: u64| #[trigger]
            book.levels(order.side.other()).contains_key(p) ==> !crosses(order.side, order.price, p))
            ==> book.resting(order).uncrossed(),
        book.intact() && book.fresh(order) ==> book.resting(order).intact(),
        book.lasts() && lasting(order.kind) ==> book.resting(order).lasts(),
{
    let rested = book.resting(order);
    if book.intact() && book.fresh(order) {
        assert forall|id: OrderId| #[trigger] rested.locations.contains_key(id) implies rests(
            rested.levels(rested.locations[id].side),
            rested.locations[id].price,
            id,
        ) by {
            if id != order.id {
                assert(book.locations.contains_key(id));
            }
        }
        assert forall|side: Side, p: u64| #[trigger]
            rested.levels(side).contains_key(p) implies exists|id: OrderId|
            rests(rested.levels(side), p, id) by {
            if side == order.side && p == order.price {
                assert(rests(rested.levels(side), p, order.id));
            } else {
                assert(book.levels(side).contains_key(p));
                let id = choose|id: OrderId| rests(book.levels(side), p, id);
                assert(rests(rested.levels(side), p, id));
            }
        }
    }
    if book.lasts() && lasting(order.kind) {
        assert forall|side: Side, p: u64, id: OrderId| #[trigger]
            rests(rested.levels(side), p, id) implies lasting(
            rested.levels(side)[p].orders[id].kind,
        ) by {
            if side != order.side || p != order.price || id != order.id {
                assert(rests(book.levels(side), p, id));
            }
        }
    }
    let before = level_at(book.levels(order.side), order.price);
    if book.counted() && book.fresh(order) {
        assert(!rests(book.levels(order.side), order.price, order.id));
        assert(before.counted());
        lemma_count_fits(before.count + 1);
        assert(before.with_order(order.kept()).orders.dom() =~= before.orders.dom().insert(order.id));
        assert(all_counted(rested.levels(order.side)));
    }
    if book.placed() && !book.holds(order.id) {
        assert forall|side: Side, p: u64, id: OrderId| #[trigger]
            rests(rested.levels(side), p, id) implies {
            &&& rested.locations.contains_key(id)
            &&& rested.locations[id].price == p
            &&& rested.locations[id].side == side
        } by {
            assert(rests(book.levels(side), p, id) || (side == order.side && p == order.price && id
                == order.id));
        }
    }
    if book.uncrossed() && (forall|p: u64| #[trigger]
        book.levels(order.side.other()).contains_key(p) ==> !crosses(order.side, order.price, p)) {
        assert forall|bid: u64, ask: u64| #[trigger]
            rested.bids.contains_key(bid) && #[trigger] rested.asks.contains_key(ask) implies bid
            < ask by {
            match order.side {
                Side::Buy => {
                    assert(book.levels(Side::Sell).contains_key(ask));
                    assert(book.bids.contains_key(bid) || bid == order.price);
                },
                Side::Sell => {
                    assert(book.levels(Side::Buy).contains_key(bid));
                    assert(book.asks.contains_key(ask) || ask == order.price);
                },
            }
        }
    }
}

} // verus!
