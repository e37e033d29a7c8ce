//! The requests that change the book.

use super::{
    convert_from_unit_type, convert_to_unit_type, reported, restore, with_default_data, MatchResult,
    OrderBook,
};
use crate::error::{OrderBookError, Refusal};
use crate::laws::{law_cancel_keeps, law_requantify_keeps, law_resting_keeps};
use crate::level::volume;
use crate::locations::Location;
use crate::model::{Added, BookView};
use crate::order::{Order, OrderKind, OrderUpdate, Side, TimeInForce};
use crate::promises::alike;
use crate::quantity::OrderQuantity;
use crate::sweep::{crosses, rests, shrunk};
use pricelevel::OrderId;
use std::sync::Arc;
use vstd::prelude::*;

verus! {

/// Whether `result` is what `model` says of an update.
pub open spec fn updated_as<T: Default>(
    result: Result<Option<Arc<Order<T>>>, OrderBookError>,
    model: Result<Option<Order<()>>, Refusal>,
) -> bool {
    match (result, model) {
        (Ok(Some(updated)), Ok(Some(order))) => with_default_data(*updated, order),
        (Ok(None), Ok(None)) => true,
        (Err(error), Err(refusal)) => error@ == refusal,
        _ => false,
    }
}

/// Whether `result` is what `model` says of adding `order`. An order that was filled
/// comes back as it came.
pub open spec fn added_as<T: Default>(
    order: Order<T>,
    result: Result<Arc<Order<T>>, OrderBookError>,
    model: Result<Added, Refusal>,
) -> bool {
    match (result, model) {
        (Ok(added), Ok(Added::Filled)) => *added == order,
        (Ok(added), Ok(Added::Resting(left))) => with_default_data(*added, left),
        (Err(error), Err(refusal)) => error@ == refusal,
        _ => false,
    }
}

/// Matching an order on `side` crosses no book that was not crossed, and brings no order
/// `id`.
proof fn lemma_matching_keeps(before: BookView, after: BookView, side: Side, id: OrderId)
    requires
        after.levels(side) == before.levels(side),
        shrunk(before.levels(side.other()), after.levels(side.other())),
        forall|p: u64| #[trigger]
            after.levels(side.other()).contains_key(p) ==> before.levels(side.other()).contains_key(p),
    ensures
        before.uncrossed() ==> after.uncrossed(),
        after.holds(id) ==> before.holds(id),
{
    if before.uncrossed() {
        assert forall|bid: u64, ask: u64| #[trigger]
            after.bids.contains_key(bid) && #[trigger] after.asks.contains_key(ask) implies bid < ask by {
            assert(after.levels(Side::Buy).contains_key(bid));
            assert(after.levels(Side::Sell).contains_key(ask));
            assert(before.bids.contains_key(bid) && before.asks.contains_key(ask));
        }
    }
    if after.holds(id) {
        let (s, p) = choose|s: Side, p: u64| #[trigger] rests(after.levels(s), p, id);
        assert(rests(before.levels(s), p, id));
    }
}

impl<T: Default> OrderBook<T> {
    /// Changes an order in the book, and hands it over as it is then if it was there.
    /// An order whose price changes is cancelled and added again, and lost if that is
    /// refused.
    pub fn update_order(&mut self, update: OrderUpdate) -> (result: Result<
        Option<Arc<Order<T>>>,
        OrderBookError,
    >)
        requires
            old(self).wf(),
            old(self)@.can_update(update),
        ensures
            final(self).wf(),
            final(self)@ == old(self)@.update(update).0,
            updated_as(result, old(self)@.update(update).1),
            result matches Ok(Some(updated)) ==> updated.id == update.target(),
            old(self)@.replacement(update) matches Some(order) ==> old(self)@.cancel(
                update.target(),
            ).0.fair(order),
            old(self)@.kept_by_update(update, final(self)@),
            old(self).reports().is_prefix_of(final(self).reports()),
    {
        proof {
            self.lemma_valid();
            law_cancel_keeps(self@, update.target());
        }
        match update {
            OrderUpdate::UpdateQuantity { order_id, new_quantity } => match self.locations.get(&order_id) {
                Some(at) => {
                    proof {
                        law_requantify_keeps(self@, order_id, new_quantity);
                    }
                    let (changed, dropped) = match at.side {
                        Side::Buy => self.bids.requantify(at.price, order_id, new_quantity),
                        Side::Sell => self.asks.requantify(at.price, order_id, new_quantity),
                    };
                    if dropped {
                        self.locations.remove(&order_id);
                    }
                    match changed {
                        Some(order) => {
                            let order = restore(order, at.market);
                            Ok(Some(Arc::new(convert_from_unit_type(&order))))
                        },
                        None => Ok(None),
                    }
                },
                None => Ok(None),
            },
            OrderUpdate::Cancel { order_id } => self.cancel_order(order_id),
            _ => {
                if let OrderUpdate::UpdatePrice { order_id, new_price } = update {
                    if let Some(at) = self.locations.get(&order_id) {
                        if at.price == new_price {
                            return Err(
                                OrderBookError::InvalidOperation {
                                    message: "Cannot update price to the same value".to_string(),
                                },
                            );
                        }
                    }
                }
                match self.replacement(&update) {
                    Some(new_order) => {
                        self.cancel_order(update.order_id())?;
                        let result = self.add_order(new_order)?;
                        Ok(Some(result))
                    },
                    None => Ok(None),
                }
            },
        }
    }

    /// Takes the order `order_id` out of the book, and hands it over if it was there.
    pub fn cancel_order(&mut self, order_id: OrderId) -> (result: Result<
        Option<Arc<Order<T>>>,
        OrderBookError,
    >)
        requires
            old(self).wf(),
        ensures
            final(self).wf(),
            final(self)@ == old(self)@.cancel(order_id).0,
            match (result, old(self)@.cancel(order_id).1) {
                (Ok(Some(cancelled)), Some(order)) => with_default_data(*cancelled, order),
                (Ok(None), None) => true,
                _ => false,
            },
            result matches Ok(Some(cancelled)) ==> cancelled.id == order_id,
            final(self).reports() == old(self).reports(),
    {
        proof {
            self.lemma_valid();
        }
        match self.locations.get(&order_id) {
            Some(at) => {
                let cancelled = match at.side {
                    Side::Buy => self.bids.cancel(at.price, order_id),
                    Side::Sell => self.asks.cancel(at.price, order_id),
                };
                match cancelled {
                    Some(order) => {
                        self.locations.remove(&order_id);
                        let order = restore(order, at.market);
                        Ok(Some(Arc::new(convert_from_unit_type(&order))))
                    },
                    None => Ok(None),
                }
            },
            None => Ok(None),
        }
    }

    /// Adds an order to the book, and matches it first if it is aggressive. Hands the
    /// order back: as it came if it was filled, and as it rests otherwise.
    pub fn add_order(&mut self, order: Order<T>) -> (result: Result<Arc<Order<T>>, OrderBookError>)
        requires
            old(self).wf(),
            old(self)@.can_add(order.bare()),
        ensures
            final(self).wf(),
            final(self)@ == old(self)@.add(order.bare()).0,
            added_as(order, result, old(self)@.add(order.bare()).1),
            result matches Ok(added) ==> {
                &&& added.id == order.id
                &&& added.price == order.price
                &&& added.side == order.side
                &&& added.timestamp == order.timestamp
                &&& added.time_in_force == order.time_in_force
                &&& alike(added.kind, order.kind)
            },
            old(self)@.refusal(order.bare()) is None ==> ({
                let total = order.kind.visible() + order.kind.hidden();
                let trades = old(self)@.swept(order.id, order.side, total as u64, order.price).executions;
                let filled = old(self)@.supplied(order.side, order.price) >= total;
                &&& filled == (volume(trades) == total)
                &&& filled == (old(self)@.add(order.bare()).1 == Ok::<_, Refusal>(Added::Filled))
                &&& filled ==> (result matches Ok(added) && *added == order)
                &&& !filled ==> (result is Err == (order.time_in_force == TimeInForce::Ioc
                    || order.time_in_force == TimeInForce::Fok))
            }),
            order.time_in_force == TimeInForce::Fok && !(order.kind is PostOnly) ==> result is Ok
                == (old(self)@.supplied(order.side, order.price) >= order.kind.visible()
                + order.kind.hidden()),
            old(self)@.counted() && old(self)@.refusal(order.bare()) is None && old(self)@.supplied(
                order.side,
                order.price,
            ) < order.kind.visible() + order.kind.hidden() ==> {
                &&& order.side == Side::Buy ==> forall|p: u64| #[trigger]
                    final(self)@.asks.contains_key(p) ==> p > order.price
                &&& order.side == Side::Sell ==> forall|p: u64| #[trigger]
                    final(self)@.bids.contains_key(p) ==> p < order.price
            },
            old(self)@.fair(order.bare()),
            order.time_in_force is Fok ==> match result {
                Ok(_) => old(self)@.add(order.bare()).1 == Ok::<_, Refusal>(Added::Filled),
                Err(_) => final(self)@ == old(self)@,
            },
            old(self)@.kept_by_add(order.bare(), final(self)@),
            old(self).reports().is_prefix_of(final(self).reports()),
    {
        if self.has_expired(&order) {
            return Err(
                OrderBookError::InvalidOperation {
                    message: "Order has already expired".to_string(),
                },
            );
        }
        if order.is_post_only() && self.will_cross_market(order.price, order.side) {
            let opposite = match order.side {
                Side::Buy => self.best_ask(),
                Side::Sell => self.best_bid(),
            };
            return Err(
                OrderBookError::PriceCrossing {
                    price: order.price,
                    side: order.side,
                    opposite_price: match opposite {
                        Some(price) => price,
                        None => 0,
                    },
                },
            );
        }
        let total: u64 = order.total_quantity();
        // A fill-or-kill order must be known to fill before the book is changed.
        if order.is_fill_or_kill() {
            let potential_match: u64 = self.peek_match(order.side, total, order.price);
            if potential_match < total {
                return Err(
                    OrderBookError::InsufficientLiquidity {
                        side: order.side,
                        requested: total,
                        available: potential_match,
                    },
                );
            }
        }
        let match_result = self.match_order(order.id, order.side, total, order.price);
        proof {
            lemma_matching_keeps(old(self)@, self@, order.side, order.id);
        }
        self.conclude(order, match_result)
    }

    /// Concludes the adding of an order that was matched: keeps a report, and puts what is
    /// left of the order to rest or drops it. Hands the order back: as it came if it was
    /// filled, and as it rests otherwise.
    pub fn conclude(&mut self, order: Order<T>, match_result: MatchResult) -> (result: Result<
        Arc<Order<T>>,
        OrderBookError,
    >)
        requires
            old(self).wf(),
            order.kind.total() <= u64::MAX,
        ensures
            final(self).wf(),
            final(self)@ == old(self)@.conclude(order.bare(), match_result@).0,
            added_as(order, result, old(self)@.conclude(order.bare(), match_result@).1),
            result matches Ok(added) ==> {
                &&& added.id == order.id
                &&& added.price == order.price
                &&& added.side == order.side
                &&& added.timestamp == order.timestamp
                &&& added.time_in_force == order.time_in_force
                &&& alike(added.kind, order.kind)
            },
            match_result.remaining_quantity == 0 ==> (result matches Ok(added) && *added == order),
            match_result.remaining_quantity > 0 ==> result is Err == (order.time_in_force
                == TimeInForce::Ioc || order.time_in_force == TimeInForce::Fok),
            0 < match_result.remaining_quantity <= order.kind.visible() + order.kind.hidden() ==> (
            result matches Ok(added) ==> added.kind.visible() + added.kind.hidden()
                == match_result.remaining_quantity),
            result matches Err(error) ==> {
                &&& error matches OrderBookError::InsufficientLiquidity { side, requested, available }
                &&& side == order.side && requested == order.kind.visible()
                &&& requested >= match_result.remaining_quantity ==> available
                    + match_result.remaining_quantity == requested
                &&& requested < match_result.remaining_quantity ==> available == 0
            },
            old(self)@.placed() && !old(self)@.holds(order.id) ==> final(self)@.placed(),
            old(self)@.uncrossed() && (match_result.remaining_quantity > 0 ==> forall|p: u64| #[trigger]
                old(self)@.levels(order.side.other()).contains_key(p) ==> !crosses(
                    order.side,
                    order.price,
                    p,
                )) ==> final(self)@.uncrossed(),
            old(self)@.counted() && old(self)@.fresh(order.bare()) ==> final(self)@.counted(),
            old(self)@.intact() && old(self)@.fresh(order.bare()) ==> final(self)@.intact(),
            old(self)@.lasts() && BookView::rests_lasting(
                old(self)@.conclude(order.bare(), match_result@).1,
            ) ==> final(self)@.lasts(),
            reported(old(self)@, old(self).reports(), match_result, final(self).reports()),
    {
        let ghost bare = order.bare();
        let remaining: u64 = match_result.remaining_quantity;
        self.report(match_result);
        let ghost reported = self@;
        proof {
            assert forall|s: Side| #[trigger] reported.levels(s) == old(self)@.levels(s) by {}
            assert forall|s: Side, p: u64, id: OrderId| #[trigger]
                rests(reported.levels(s), p, id) == rests(old(self)@.levels(s), p, id) by {}
            assert(reported.holds(order.id) ==> old(self)@.holds(order.id));
        }
        if remaining > 0 {
            if order.is_immediate() {
                let requested: u64 = order.quantity();
                return Err(
                    OrderBookError::InsufficientLiquidity {
                        side: order.side,
                        requested,
                        available: requested.saturating_sub(remaining),
                    },
                );
            }
            let mut order = order;
            if remaining < order.total_quantity() {
                order.reduce_to(remaining);
            }
            let unit_order = convert_to_unit_type(&order);
            let added = self.rest(&unit_order);
            proof {
                assert(unit_order == if remaining < bare.kind.total() {
                    bare.reduced(remaining)
                } else {
                    bare
                });
                law_resting_keeps(reported, unit_order);
            }
            Ok(Arc::new(convert_from_unit_type(&added)))
        } else {
            Ok(Arc::new(order))
        }
    }

    /// Whether adding `order` can be carried through.
    pub fn can_add(&self, order: &Order<T>) -> (b: bool)
        requires
            self.wf(),
        ensures
            b == self@.can_add(order.bare()),
    {
        if self.has_expired(order) || (order.is_post_only() && self.will_cross_market(
            order.price,
            order.side,
        )) {
            return true;
        }
        match order.quantity().checked_add(order.hidden_quantity()) {
            Some(total) => {
                if order.is_fill_or_kill() && self.peek_match(order.side, total, order.price) < total {
                    true
                } else {
                    self.ladder(order.side.opposite()).settles(order.side, order.price, total)
                }
            },
            None => false,
        }
    }

    /// Whether `update` can set the quantity that it is to set.
    fn can_resize(&self, update: &OrderUpdate) -> (b: bool)
        requires
            self.wf(),
        ensures
            b == self@.can_resize(*update),
    {
        match *update {
            OrderUpdate::UpdatePriceAndQuantity { order_id, .. } => match self.find(order_id) {
                Some(order) => match order.kind {
                    OrderKind::ReserveOrder { visible_quantity, hidden_quantity, .. } => {
                        hidden_quantity <= u64::MAX - visible_quantity
                    },
                    _ => true,
                },
                None => true,
            },
            _ => true,
        }
    }

    /// Adds an order to the book as `add_order` does, if that can be carried through,
    /// and leaves the book as it is otherwise.
    pub fn try_add_order(&mut self, order: Order<T>) -> (result: Option<
        Result<Arc<Order<T>>, OrderBookError>,
    >)
        requires
            old(self).wf(),
        ensures
            final(self).wf(),
            match result {
                Some(added) => {
                    &&& old(self)@.can_add(order.bare())
                    &&& final(self)@ == old(self)@.add(order.bare()).0
                    &&& added_as(order, added, old(self)@.add(order.bare()).1)
                },
                None => !old(self)@.can_add(order.bare()) && final(self)@ == old(self)@,
            },
            result is Some ==> old(self)@.fair(order.bare()),
            order.time_in_force is Fok ==> match result {
                Some(Ok(_)) => old(self)@.add(order.bare()).1 == Ok::<_, Refusal>(Added::Filled),
                _ => final(self)@ == old(self)@,
            },
            old(self)@.kept_by_add(order.bare(), final(self)@),
            old(self).reports().is_prefix_of(final(self).reports()),
    {
        if self.can_add(&order) {
            Some(self.add_order(order))
        } else {
            None
        }
    }

    /// Changes an order in the book as `update_order` does, if that can be carried
    /// through. Otherwise the order is taken out of the book and nothing is added.
    pub fn try_update_order(&mut self, update: OrderUpdate) -> (result: Option<
        Result<Option<Arc<Order<T>>>, OrderBookError>,
    >)
        requires
            old(self).wf(),
        ensures
            final(self).wf(),
            match result {
                Some(updated) => {
                    &&& old(self)@.can_update(update)
                    &&& final(self)@ == old(self)@.update(update).0
                    &&& updated_as(updated, old(self)@.update(update).1)
                },
                None => {
                    &&& !old(self)@.can_update(update)
                    &&& final(self)@ == old(self)@.cancel(update.target()).0
                },
            },
            result is Some ==> (old(self)@.replacement(update) matches Some(order) ==> old(
                self,
            )@.cancel(update.target()).0.fair(order)),
            old(self)@.kept_by_update(update, final(self)@),
            old(self).reports().is_prefix_of(final(self).reports()),
    {
        proof {
            self.lemma_valid();
            law_cancel_keeps(self@, update.target());
        }
        if !self.can_resize(&update) {
            let _ = self.cancel_order(update.order_id());
            return None;
        }
        match self.replacement(&update) {
            Some(order) => {
                let _ = self.cancel_order(update.order_id());
                match self.try_add_order(order) {
                    Some(Ok(added)) => Some(Ok(Some(added))),
                    Some(Err(error)) => Some(Err(error)),
                    None => None,
                }
            },
            None => Some(self.update_order(update)),
        }
    }

    /// The order with which `update` puts another in its place, if it does.
    fn replacement(&self, update: &OrderUpdate) -> (order: Option<Order<T>>)
        requires
            self.wf(),
            self@.can_resize(*update),
        ensures
            match (order, self@.replacement(*update)) {
                (Some(order), Some(bare)) => with_default_data(order, bare),
                (None, None) => true,
                _ => false,
            },
    {
        let mut order: Order<T> = match self.find(update.order_id()) {
            Some(original) => convert_from_unit_type(&original),
            None => {
                return None;
            },
        };
        match *update {
            OrderUpdate::UpdatePrice { order_id, new_price } => {
                match self.locations.get(&order_id) {
                    Some(at) => {
                        if at.price == new_price {
                            return None;
                        }
                    },
                    None => {
                        return None;
                    },
                }
                order.price = new_price;
            },
            OrderUpdate::UpdatePriceAndQuantity { new_price, new_quantity, .. } => {
                order.price = new_price;
                order.set_quantity(new_quantity);
            },
            OrderUpdate::Replace { order_id, price, quantity, side } => {
                order.id = order_id;
                order.price = price;
                order.kind = order.kind.with_visible(quantity);
                order.side = side;
            },
            _ => {
                return None;
            },
        }
        Some(order)
    }

    /// Puts an order to rest in the book, and hands it back.
    fn rest(&mut self, order: &Order<()>) -> (added: Order<()>)
        requires
            old(self).wf(),
        ensures
            final(self).wf(),
            final(self)@ == old(self)@.resting(*order),
            added == *order,
            final(self).reports() == old(self).reports(),
    {
        let added = match order.side {
            Side::Buy => self.bids.add(order),
            Side::Sell => self.asks.add(order),
        };
        let market = match order.kind {
            OrderKind::Market { .. } => true,
            _ => false,
        };
        self.locations.insert(
            added.id,
            Location { price: order.price, side: order.side, market },
        );
        restore(added, market)
    }
}

} // verus!
