//! What the book is, and what each request does to it.

use crate::error::Refusal;
use crate::level::{lasting, requantified, unmet, volume, Execution, LevelState};
use crate::locations::Location;
use crate::order::{Order, OrderUpdate, Side};
use crate::quantity::{lesser, OrderQuantity};
use crate::sweep::{
    all_counted, best, crosses, genuine, in_turn, level_at, line_kept, reach, rests, settle, settled,
    sound, squared, sweep, Sweep,
};
use pricelevel::OrderId;
use vstd::prelude::*;

verus! {

/// What came of matching an incoming order.
pub struct MatchView {
    /// The incoming order.
    pub order_id: OrderId,
    /// The trades, in the order in which they happened.
    pub executions: Seq<Execution>,
    /// The quantity of the incoming order that found no resting order.
    pub remaining: u64,
    /// Whether the incoming order was filled entirely.
    pub complete: bool,
    /// The resting orders that were used up.
    pub filled: Seq<OrderId>,
}

/// What a trade report says.
pub struct TradeView {
    /// The instrument.
    pub symbol: Seq<char>,
    /// What came of matching the order.
    pub result: MatchView,
}

/// The book: what rests on each side, where each order rests, the time, and the
/// trade reports that were not fetched yet.
#[verifier::ext_equal]
pub struct BookView {
    pub symbol: Seq<char>,
    pub bids: Map<u64, LevelState>,
    pub asks: Map<u64, LevelState>,
    pub locations: Map<OrderId, Location>,
    pub now: u64,
    pub market_close: Option<u64>,
    pub listening: bool,
    pub trades: Seq<TradeView>,
}

/// What became of an order that the book took.
pub enum Added {
    /// It was filled entirely on arrival.
    Filled,
    /// It rests, as this order.
    Resting(Order<()>),
}

impl BookView {
    /// What rests on `side`.
    pub open spec fn levels(self, side: Side) -> Map<u64, LevelState> {
        match side {
            Side::Buy => self.bids,
            Side::Sell => self.asks,
        }
    }

    /// The book with `levels` resting on `side`.
    pub open spec fn with_levels(self, side: Side, levels: Map<u64, LevelState>) -> BookView {
        match side {
            Side::Buy => BookView { bids: levels, ..self },
            Side::Sell => BookView { asks: levels, ..self },
        }
    }

    /// The order `id`, if it rests where the book expects it.
    pub open spec fn order(self, id: OrderId) -> Option<Order<()>> {
        match self.locations.get(id) {
            Some(at) => match level_at(self.levels(at.side), at.price).orders.get(id) {
                Some(order) => Some(order.restored(at.market)),
                None => None,
            },
            None => None,
        }
    }

    /// The highest price at which someone buys.
    pub open spec fn best_bid(self) -> Option<u64> {
        best(self.bids, Side::Buy)
    }

    /// The lowest price at which someone sells.
    pub open spec fn best_ask(self) -> Option<u64> {
        best(self.asks, Side::Sell)
    }

    /// The best price on the side that an order on `side` trades with.
    pub open spec fn best_opposite(self, side: Side) -> Option<u64> {
        best(self.levels(side.other()), side.other())
    }

    /// Whether an order on `side` at `price` would trade on arrival.
    pub open spec fn would_cross(self, price: u64, side: Side) -> bool {
        match self.best_opposite(side) {
            Some(opposite) => crosses(side, price, opposite),
            None => false,
        }
    }

    /// How much of an incoming order of `quantity` the book could fill.
    pub open spec fn fillable(self, side: Side, quantity: int, limit: u64) -> int {
        lesser(quantity, self.supplied(side, limit) as int)
    }

    /// What the orders with which an incoming order may trade give up.
    pub open spec fn supplied(self, side: Side, limit: u64) -> nat {
        reach(self.levels(side.other()), side, limit)
    }

    /// Whether `order` is over.
    pub open spec fn expired(self, order: Order<()>) -> bool {
        order.time_in_force.expired(self.now, self.market_close)
    }

    /// Whether `order` must not trade on arrival, but would.
    pub open spec fn crossing(self, order: Order<()>) -> bool {
        order.kind is PostOnly && self.would_cross(order.price, order.side)
    }

    /// Why the book refuses `order` before matching it, if it does.
    pub open spec fn refusal(self, order: Order<()>) -> Option<Refusal> {
        if self.expired(order) {
            Some(Refusal::InvalidOperation { message: "Order has already expired"@ })
        } else if self.crossing(order) {
            Some(
                Refusal::PriceCrossing {
                    price: order.price,
                    side: order.side,
                    opposite_price: match self.best_opposite(order.side) {
                        Some(price) => price,
                        None => 0,
                    },
                },
            )
        } else if order.time_in_force is Fok && self.fillable(
            order.side,
            order.kind.total(),
            order.price,
        ) < order.kind.total() {
            Some(
                Refusal::InsufficientLiquidity {
                    side: order.side,
                    requested: order.kind.total() as u64,
                    available: self.fillable(order.side, order.kind.total(), order.price) as u64,
                },
            )
        } else {
            None
        }
    }

    /// What matching `quantity` of the incoming order `id` does to the other side.
    pub open spec fn swept(self, id: OrderId, side: Side, quantity: u64, limit: u64) -> Sweep {
        sweep(self.levels(side.other()), id, side, limit, quantity)
    }

    /// Whether matching `order` trades nothing and changes nothing.
    pub open spec fn meets_nothing(self, order: Order<()>) -> bool {
        let total = order.kind.total() as u64;
        self.swept(order.id, order.side, total, order.price) == (Sweep {
            levels: self.levels(order.side.other()),
            executions: Seq::empty(),
            filled: Seq::empty(),
            remaining: total,
        })
    }

    /// The book after matching `quantity` of the incoming order `id`. The orders
    /// that were used up have no place any more.
    pub open spec fn after_match(self, id: OrderId, side: Side, quantity: u64, limit: u64) -> BookView {
        let swept = self.swept(id, side, quantity, limit);
        BookView {
            locations: self.locations.remove_keys(swept.filled.to_set()),
            ..self.with_levels(side.other(), swept.levels)
        }
    }

    /// What comes of matching `quantity` of the incoming order `id`.
    pub open spec fn match_result(self, id: OrderId, side: Side, quantity: u64, limit: u64) -> MatchView {
        let swept = self.swept(id, side, quantity, limit);
        MatchView {
            order_id: id,
            executions: swept.executions,
            remaining: swept.remaining,
            complete: swept.remaining == 0,
            filled: swept.filled,
        }
    }

    /// The book with a report waiting, if reports are wanted and there was a trade.
    pub open spec fn reporting(self, result: MatchView) -> BookView {
        if self.listening && result.executions.len() > 0 {
            BookView { trades: self.trades.push(TradeView { symbol: self.symbol, result }), ..self }
        } else {
            self
        }
    }

    /// The book with `order` resting in it.
    pub open spec fn resting(self, order: Order<()>) -> BookView {
        let levels = self.levels(order.side);
        BookView {
            locations: self.locations.insert(
                order.id,
                Location {
                    price: order.price,
                    side: order.side,
                    market: order.kind is Market,
                },
            ),
            ..self.with_levels(
                order.side,
                levels.insert(
                    order.price,
                    level_at(levels, order.price).with_order(order.kept()),
                ),
            )
        }
    }

    /// What becomes of `order` once matching it came to `result`, in the book that
    /// matching left. What is left of an order that must trade at once is dropped;
    /// what is left of any other order rests in the book.
    pub open spec fn conclude(self, order: Order<()>, result: MatchView) -> (
        BookView,
        Result<Added, Refusal>,
    ) {
        let book = self.reporting(result);
        if result.remaining == 0 {
            (book, Ok(Added::Filled))
        } else if order.time_in_force.immediate() {
            (
                book,
                Err(
                    Refusal::InsufficientLiquidity {
                        side: order.side,
                        requested: order.kind.visible(),
                        available: if order.kind.visible() >= result.remaining {
                            (order.kind.visible() - result.remaining) as u64
                        } else {
                            0
                        },
                    },
                ),
            )
        } else {
            let left = if result.remaining < order.kind.total() {
                order.reduced(result.remaining)
            } else {
                order
            };
            (book.resting(left), Ok(Added::Resting(left)))
        }
    }

    /// What adding `order` does, and what comes of the order. It is matched first.
    pub open spec fn add(self, order: Order<()>) -> (BookView, Result<Added, Refusal>) {
        let total = order.kind.total() as u64;
        match self.refusal(order) {
            Some(refusal) => (self, Err(refusal)),
            None => self.after_match(order.id, order.side, total, order.price).conclude(
                order,
                self.match_result(order.id, order.side, total, order.price),
            ),
        }
    }

    /// What cancelling the order `id` does, and the order, if it was there.
    pub open spec fn cancel(self, id: OrderId) -> (BookView, Option<Order<()>>) {
        match self.order(id) {
            Some(order) => {
                let at = self.locations[id];
                let levels = self.levels(at.side);
                (
                    BookView {
                        locations: self.locations.remove(id),
                        ..self.with_levels(
                            at.side,
                            settle(levels, at.price, levels[at.price].without_order(id)),
                        )
                    },
                    Some(order),
                )
            },
            None => (self, None),
        }
    }

    /// What changing the quantity of the order `id` to `q` does, and the order as
    /// it is then, if it was there. It stays at its level.
    pub open spec fn requantify(self, id: OrderId, q: u64) -> (BookView, Option<Order<()>>) {
        match self.locations.get(id) {
            Some(at) => {
                let levels = self.levels(at.side);
                let book = if levels.contains_key(at.price) {
                    self.with_levels(
                        at.side,
                        settle(levels, at.price, levels[at.price].with_quantity(id, q)),
                    )
                } else {
                    self
                };
                (
                    if levels.contains_key(at.price) && levels[at.price].count == 0 {
                        BookView { locations: self.locations.remove(id), ..book }
                    } else {
                        book
                    },
                    match level_at(levels, at.price).orders.get(id) {
                        Some(order) => Some(requantified(order, q).restored(at.market)),
                        None => None,
                    },
                )
            },
            None => (self, None),
        }
    }

    /// The order with which `update` puts another in its place: the order as it is
    /// now, but for what the update changes.
    pub open spec fn replacement(self, update: OrderUpdate) -> Option<Order<()>> {
        match update {
            OrderUpdate::UpdatePrice { order_id, new_price } => match self.order(order_id) {
                Some(order) => if self.locations[order_id].price == new_price {
                    None
                } else {
                    Some(Order { price: new_price, ..order })
                },
                None => None,
            },
            OrderUpdate::UpdatePriceAndQuantity { order_id, new_price, new_quantity } => match self.order(
                order_id,
            ) {
                Some(order) => Some(
                    Order { price: new_price, ..order.with_target(new_quantity) },
                ),
                None => None,
            },
            OrderUpdate::Replace { order_id, price, quantity, side } => match self.order(order_id) {
                Some(order) => Some(
                    Order { id: order_id, price, side, kind: order.kind.showing(quantity), ..order },
                ),
                None => None,
            },
            _ => None,
        }
    }

    /// Whether `update` moves an order to the price that it has.
    pub open spec fn moves_nowhere(self, update: OrderUpdate) -> bool {
        match update {
            OrderUpdate::UpdatePrice { order_id, new_price } => self.locations.contains_key(order_id)
                && self.locations[order_id].price == new_price,
            _ => false,
        }
    }

    /// What an update hands over where adding `order` came to `result`.
    pub open spec fn handed_over(order: Order<()>, result: Result<Added, Refusal>) -> Result<
        Option<Order<()>>,
        Refusal,
    > {
        match result {
            Ok(Added::Filled) => Ok(Some(order)),
            Ok(Added::Resting(left)) => Ok(Some(left)),
            Err(refusal) => Err(refusal),
        }
    }

    /// What `update` does, and what comes of the order, if it was there. An order
    /// that moves is cancelled and added again.
    pub open spec fn update(self, update: OrderUpdate) -> (BookView, Result<Option<Order<()>>, Refusal>) {
        match update {
            OrderUpdate::Cancel { order_id } => {
                let (book, order) = self.cancel(order_id);
                (book, Ok(order))
            },
            OrderUpdate::UpdateQuantity { order_id, new_quantity } => {
                let (book, order) = self.requantify(order_id, new_quantity);
                (book, Ok(order))
            },
            _ => if self.moves_nowhere(update) {
                (
                    self,
                    Err(
                        Refusal::InvalidOperation {
                            message: "Cannot update price to the same value"@,
                        },
                    ),
                )
            } else {
                match self.replacement(update) {
                    Some(order) => {
                        let (book, result) = self.cancel(update.target()).0.add(order);
                        (book, BookView::handed_over(order, result))
                    },
                    None => (self, Ok(None)),
                }
            },
        }
    }

    /// Whether adding `order` can be carried through: its quantities add up to one
    /// that fits in a machine word, and it can be matched with whatever it meets.
    /// Neither matters if the order is refused before that.
    pub open spec fn can_add(self, order: Order<()>) -> bool {
        ||| self.expired(order)
        ||| self.crossing(order)
        ||| {
            &&& order.kind.total() <= u64::MAX
            &&& self.refusal(order) is None ==> settled(
                self.levels(order.side.other()),
                order.side,
                order.price,
                order.kind.total() as u64,
            )
        }
    }

    /// Whether `update` can set the quantity that it is to set: the quantities of a
    /// reserve order must add up to one that fits in a machine word.
    pub open spec fn can_resize(self, update: OrderUpdate) -> bool {
        update matches OrderUpdate::UpdatePriceAndQuantity { order_id, .. } ==> (self.order(
            order_id,
        ) matches Some(order) ==> order.kind is ReserveOrder ==> order.kind.total() <= u64::MAX)
    }

    /// Whether `update` can be carried through.
    pub open spec fn can_update(self, update: OrderUpdate) -> bool {
        &&& self.can_resize(update)
        &&& self.replacement(update) matches Some(order) ==> self.cancel(
            update.target(),
        ).0.can_add(order)
    }

    /// Whether there are finitely many levels, each is at its price, and the orders at
    /// it are where they belong.
    pub open spec fn valid(self) -> bool {
        sound(self.bids, Side::Buy) && sound(self.asks, Side::Sell)
    }

    /// Whether the instrument, the time and the wish for reports are those of `other`.
    pub open spec fn same_settings(self, other: BookView) -> bool {
        &&& self.symbol == other.symbol
        &&& self.now == other.now
        &&& self.market_close == other.market_close
        &&& self.listening == other.listening
    }

    /// Whether every level counts its orders rightly.
    pub open spec fn counted(self) -> bool {
        all_counted(self.bids) && all_counted(self.asks)
    }

    /// Whether every bid is below every ask.
    pub open spec fn uncrossed(self) -> bool {
        forall|bid: u64, ask: u64| #[trigger]
            self.bids.contains_key(bid) && #[trigger] self.asks.contains_key(ask) ==> bid < ask
    }

    /// Whether every order that rests in the book rests where the book expects it.
    pub open spec fn placed(self) -> bool {
        forall|side: Side, p: u64, id: OrderId| #[trigger]
            rests(self.levels(side), p, id) ==> {
                &&& self.locations.contains_key(id)
                &&& self.locations[id].price == p
                &&& self.locations[id].side == side
            }
    }

    /// Whether an order rests at every place that the book expects one at.
    pub open spec fn housed(self) -> bool {
        forall|id: OrderId| #[trigger]
            self.locations.contains_key(id) ==> rests(
                self.levels(self.locations[id].side),
                self.locations[id].price,
                id,
            )
    }

    /// Whether there is an order at every level.
    pub open spec fn stocked(self) -> bool {
        forall|side: Side, p: u64| #[trigger]
            self.levels(side).contains_key(p) ==> exists|id: OrderId|
                rests(self.levels(side), p, id)
    }

    /// Whether places and levels agree: every order rests where the book expects it, the
    /// book expects none elsewhere, no level is empty, and each counts its orders rightly.
    pub open spec fn intact(self) -> bool {
        self.counted() && self.placed() && self.housed() && self.stocked()
    }

    /// Whether every order in the book shows something until it is used up.
    pub open spec fn lasts(self) -> bool {
        forall|side: Side, p: u64, id: OrderId| #[trigger]
            rests(self.levels(side), p, id) ==> lasting(self.levels(side)[p].orders[id].kind)
    }

    /// Whether an order `id` rests in the book.
    pub open spec fn holds(self, id: OrderId) -> bool {
        exists|side: Side, p: u64| #[trigger] rests(self.levels(side), p, id)
    }

    /// Whether no order in the book has the identifier of `order`, and its level has
    /// room for another.
    pub open spec fn fresh(self, order: Order<()>) -> bool {
        &&& !self.holds(order.id)
        &&& level_at(self.levels(order.side), order.price).count < usize::MAX
    }

    /// Whether what comes to rest, where something does, shows something until it is used
    /// up.
    pub open spec fn rests_lasting(result: Result<Added, Refusal>) -> bool {
        result matches Ok(Added::Resting(left)) ==> lasting(left.kind)
    }

    /// Whether `order` is matched fairly where it is matched. What it trades and what
    /// remains of it add up, every trade is with an order that rested at its price, and
    /// no more remains than the resting orders could not give up. The orders at a price
    /// trade in turn, and those that do not trade keep theirs. Each has what it had but
    /// for what it traded. Where something remains, nothing is left to trade with, and
    /// what rests amounts to it.
    pub open spec fn fair(self, order: Order<()>) -> bool {
        let total = order.kind.total() as u64;
        let swept = self.swept(order.id, order.side, total, order.price);
        self.refusal(order) is None ==> {
            &&& volume(swept.executions) + swept.remaining == order.kind.total()
            &&& swept.remaining == unmet(total, self.supplied(order.side, order.price))
            &&& forall|k: int|
                0 <= k < swept.executions.len() ==> genuine(
                    self.levels(order.side.other()),
                    order.side,
                    #[trigger] swept.executions[k],
                )
            &&& in_turn(self.levels(order.side.other()), swept.executions)
            &&& line_kept(self.levels(order.side.other()), swept.levels, swept.executions)
            &&& self.counted() ==> squared(
                self.levels(order.side.other()),
                swept.levels,
                swept.executions,
            )
            &&& self.counted() && swept.remaining > 0 ==> forall|p: u64| #[trigger]
                swept.levels.contains_key(p) ==> !crosses(order.side, order.price, p)
            &&& self.add(order).1 matches Ok(Added::Resting(left)) ==> left.kind.total()
                == swept.remaining
        }
    }

    /// Whether adding `order` keeps what holds of the book, if the book is then `after`.
    pub open spec fn kept_by_add(self, order: Order<()>, after: BookView) -> bool {
        &&& self.placed() && !self.holds(order.id) ==> after.placed()
        &&& self.counted() && self.uncrossed() ==> after.uncrossed()
        &&& self.counted() && self.fresh(order) ==> after.counted()
        &&& self.intact() && self.lasts() && self.fresh(order) ==> after.intact()
        &&& self.lasts() && BookView::rests_lasting(self.add(order).1) ==> after.lasts()
    }

    /// Whether `update` keeps what holds of the book, if the book is then `after`.
    pub open spec fn kept_by_update(self, update: OrderUpdate, after: BookView) -> bool {
        let between = self.cancel(update.target()).0;
        let fresh = self.replacement(update) matches Some(order) ==> between.fresh(order);
        let shows = {
            &&& update matches OrderUpdate::UpdateQuantity { new_quantity, .. } ==> new_quantity > 0
            &&& self.replacement(update) matches Some(order) ==> BookView::rests_lasting(
                between.add(order).1,
            )
        };
        &&& self.placed() ==> after.placed()
        &&& self.counted() && self.uncrossed() ==> after.uncrossed()
        &&& self.counted() && fresh ==> after.counted()
        &&& self.intact() && self.lasts() && fresh ==> after.intact()
        &&& self.lasts() && shows ==> after.lasts()
    }
}

} // verus!
