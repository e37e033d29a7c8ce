//! The order book and what can be asked of it.

use crate::ladder::{may_trade, Ladder};
use crate::level::{lasting, trades, unmet, volume, Transaction};
use crate::locations::Locations;
use crate::model::{BookView, MatchView, TradeView};
use crate::order::{Order, OrderKind, Side};
use crate::promises::{law_best_prices, law_would_cross, over};
use crate::quantity::OrderQuantity;
use crate::sweep::{
    accounted, crosses, enduring, genuine, gone, in_turn, lemma_sweep_trade, line_kept, none_empty,
    rests, settled, shrunk, squared,
};
use pricelevel::{OrderId, UuidGenerator};
use std::marker::PhantomData;
use std::sync::Arc;
use vstd::prelude::*;

pub mod modifications;

verus! {

/// What came of matching an incoming order.
#[derive(Debug, PartialEq, Eq)]
pub struct MatchResult {
    /// The incoming order.
    pub order_id: OrderId,
    /// The trades, in the order in which they happened.
    pub transactions: Vec<Transaction>,
    /// The quantity of the incoming order that found no resting order.
    pub remaining_quantity: u64,
    /// Whether the incoming order was filled entirely.
    pub is_complete: bool,
    /// The resting orders that were used up.
    pub filled_order_ids: Vec<OrderId>,
}

/// A report on the trades of an incoming order.
#[derive(Debug, PartialEq, Eq)]
pub struct TradeResult {
    /// The instrument.
    pub symbol: String,
    /// What came of matching the order.
    pub match_result: MatchResult,
}

impl View for MatchResult {
    type V = MatchView;

    open spec fn view(&self) -> MatchView {
        MatchView {
            order_id: self.order_id,
            executions: trades(self.transactions@),
            remaining: self.remaining_quantity,
            complete: self.is_complete,
            filled: self.filled_order_ids@,
        }
    }
}

impl View for TradeResult {
    type V = TradeView;

    open spec fn view(&self) -> TradeView {
        TradeView { symbol: self.symbol@, result: self.match_result@ }
    }
}

/// A limit order book for one instrument. `T` is data of the caller's own that
/// comes with an order; the book does not keep it.
pub struct OrderBook<T> {
    symbol: String,
    bids: Ladder,
    asks: Ladder,
    locations: Locations,
    transaction_ids: UuidGenerator,
    current_time: u64,
    market_close: Option<u64>,
    listening: bool,
    trades: Vec<TradeResult>,
    extra_fields: PhantomData<T>,
}

impl<T> View for OrderBook<T> {
    type V = BookView;

    closed spec fn view(&self) -> BookView {
        BookView {
            symbol: self.symbol@,
            bids: self.bids@,
            asks: self.asks@,
            locations: self.locations@,
            now: self.current_time,
            market_close: self.market_close,
            listening: self.listening,
            trades: self.trades@.map_values(|t: TradeResult| t@),
        }
    }
}

/// Whether `order` is the order `bare` of the book, with default data.
pub open spec fn with_default_data<T: Default>(order: Order<T>, bare: Order<()>) -> bool {
    order.bare() == bare && call_ensures(T::default, (), order.extra_fields)
}

/// Whether `after` are the reports `before` of `book` with one more on `match_result`, if
/// reports are wanted and there was a trade.
pub open spec fn reported(
    book: BookView,
    before: Seq<TradeResult>,
    match_result: MatchResult,
    after: Seq<TradeResult>,
) -> bool {
    if book.listening && match_result.transactions.len() > 0 {
        &&& after.len() == before.len() + 1
        &&& after.drop_last() == before
        &&& after.last().symbol@ == book.symbol
        &&& after.last().match_result == match_result
    } else {
        after == before
    }
}

impl<T> OrderBook<T> {
    /// Each side is in order, and no order has two places.
    pub closed spec fn wf(self) -> bool {
        &&& self.bids.wf() && self.bids.side() == Side::Buy
        &&& self.asks.wf() && self.asks.side() == Side::Sell
        &&& self.locations.wf()
    }

    /// The trade reports that were not fetched yet, with the identifiers and times of the
    /// trades.
    pub closed spec fn reports(self) -> Seq<TradeResult> {
        self.trades@
    }

    /// What the book holds of its reports is what they say.
    pub proof fn lemma_reports(&self)
        ensures
            self@.trades == self.reports().map_values(|t: TradeResult| t@),
    {
    }

    /// What the book holds is valid.
    pub proof fn lemma_valid(&self)
        requires
            self.wf(),
        ensures
            self@.valid(),
    {
        self.bids.lemma_sound();
        self.asks.lemma_sound();
    }

    /// A book without orders for the instrument `symbol`. Its trades get their
    /// identifiers from `transaction_ids`.
    pub fn new(symbol: String, transaction_ids: UuidGenerator) -> (book: OrderBook<T>)
        ensures
            book.wf(),
            book@ == (BookView {
                symbol: symbol@,
                bids: Map::empty(),
                asks: Map::empty(),
                locations: Map::empty(),
                now: 0,
                market_close: None,
                listening: false,
                trades: Seq::empty(),
            }),
            book.reports().len() == 0,
    {
        let book = OrderBook {
            symbol,
            bids: Ladder::new(Side::Buy),
            asks: Ladder::new(Side::Sell),
            locations: Locations::new(),
            transaction_ids,
            current_time: 0,
            market_close: None,
            listening: false,
            trades: Vec::new(),
            extra_fields: PhantomData,
        };
        assert(book@.trades =~= Seq::empty());
        book
    }

    /// The instrument.
    pub fn symbol(&self) -> (symbol: &String)
        ensures
            symbol@ == self@.symbol,
    {
        &self.symbol
    }

    /// Tells the book the time, by which it sees whether an order is over.
    pub fn set_current_time(&mut self, now: u64)
        requires
            old(self).wf(),
        ensures
            final(self).wf(),
            final(self)@ == (BookView { now, ..old(self)@ }),
            final(self).reports() == old(self).reports(),
    {
        self.current_time = now;
    }

    /// Tells the book when the market closes, if it does.
    pub fn set_market_close(&mut self, market_close: Option<u64>)
        requires
            old(self).wf(),
        ensures
            final(self).wf(),
            final(self)@ == (BookView { market_close, ..old(self)@ }),
            final(self).reports() == old(self).reports(),
    {
        self.market_close = market_close;
    }

    /// Tells the book whether to keep reports on trades.
    pub fn set_listening(&mut self, listening: bool)
        requires
            old(self).wf(),
        ensures
            final(self).wf(),
            final(self)@ == (BookView { listening, ..old(self)@ }),
            final(self).reports() == old(self).reports(),
    {
        self.listening = listening;
    }

    /// Hands over the reports on trades that the book kept, oldest first.
    pub fn take_trades(&mut self) -> (taken: Vec<TradeResult>)
        requires
            old(self).wf(),
        ensures
            final(self).wf(),
            taken@ == old(self).reports(),
            taken@.map_values(|t: TradeResult| t@) == old(self)@.trades,
            final(self)@ == (BookView { trades: Seq::empty(), ..old(self)@ }),
            final(self).reports().len() == 0,
    {
        let mut taken: Vec<TradeResult> = Vec::new();
        taken.append(&mut self.trades);
        assert(taken@ =~= old(self).trades@);
        assert(self@.trades =~= Seq::empty());
        taken
    }

    /// The side of the book on which orders of `side` rest.
    fn ladder(&self, side: Side) -> (ladder: &Ladder)
        requires
            self.wf(),
        ensures
            ladder.wf(),
            ladder.side() == side,
            ladder@ == self@.levels(side),
    {
        match side {
            Side::Buy => &self.bids,
            Side::Sell => &self.asks,
        }
    }

    /// The highest price at which someone buys.
    pub fn best_bid(&self) -> (price: Option<u64>)
        requires
            self.wf(),
        ensures
            price == self@.best_bid(),
            match price {
                Some(bid) => self@.bids.contains_key(bid) && forall|p: u64| #[trigger]
                    self@.bids.contains_key(p) ==> p <= bid,
                None => forall|p: u64| !self@.bids.contains_key(p),
            },
    {
        proof {
            self.lemma_valid();
            assert forall|p: u64| #[trigger] self@.bids.contains_key(p) implies self@.best_bid() matches Some(
                bid,
            ) && p <= bid by {
                law_best_prices(self@, p);
            }
            law_best_prices(self@, self@.best_bid()->0);
        }
        self.bids.best_price()
    }

    /// The lowest price at which someone sells.
    pub fn best_ask(&self) -> (price: Option<u64>)
        requires
            self.wf(),
        ensures
            price == self@.best_ask(),
            match price {
                Some(ask) => self@.asks.contains_key(ask) && forall|p: u64| #[trigger]
                    self@.asks.contains_key(p) ==> p >= ask,
                None => forall|p: u64| !self@.asks.contains_key(p),
            },
    {
        proof {
            self.lemma_valid();
            assert forall|p: u64| #[trigger] self@.asks.contains_key(p) implies self@.best_ask() matches Some(
                ask,
            ) && p >= ask by {
                law_best_prices(self@, p);
            }
            law_best_prices(self@, self@.best_ask()->0);
        }
        self.asks.best_price()
    }

    /// Whether an order on `side` at `price` would trade on arrival.
    pub fn will_cross_market(&self, price: u64, side: Side) -> (b: bool)
        requires
            self.wf(),
        ensures
            b == self@.would_cross(price, side),
            side == Side::Buy ==> b == (exists|ask: u64| #[trigger]
                self@.asks.contains_key(ask) && ask <= price),
            side == Side::Sell ==> b == (exists|bid: u64| #[trigger]
                self@.bids.contains_key(bid) && bid >= price),
    {
        proof {
            self.lemma_valid();
            law_would_cross(self@, price);
        }
        let opposite = match side {
            Side::Buy => self.best_ask(),
            Side::Sell => self.best_bid(),
        };
        match opposite {
            Some(opposite) => may_trade(side, price, opposite),
            None => false,
        }
    }

    /// Whether `order` is over.
    pub fn has_expired(&self, order: &Order<T>) -> (b: bool)
        ensures
            b == self@.expired(order.bare()),
            b == over(order.time_in_force, self@.now, self@.market_close),
    {
        order.time_in_force.is_expired(self.current_time, self.market_close)
    }

    /// How much of an incoming order of `quantity` on `side` the book could fill, at
    /// no price beyond `limit`. Nothing is changed.
    pub fn peek_match(&self, side: Side, quantity: u64, limit: u64) -> (available: u64)
        requires
            self.wf(),
        ensures
            available == self@.fillable(side, quantity as int, limit),
            available <= quantity && available <= self@.supplied(side, limit),
            available == quantity || available == self@.supplied(side, limit),
    {
        self.ladder(side.opposite()).available(side, limit, quantity)
    }

    /// Matches `quantity` of the incoming order `order_id` on `side` with what rests
    /// on the other side, at no price beyond `limit`.
    pub fn match_order(&mut self, order_id: OrderId, side: Side, quantity: u64, limit: u64) -> (result:
        MatchResult)
        requires
            old(self).wf(),
            settled(old(self)@.levels(side.other()), side, limit, quantity),
        ensures
            final(self).wf(),
            final(self)@ == old(self)@.after_match(order_id, side, quantity, limit),
            result@ == old(self)@.match_result(order_id, side, quantity, limit),
            volume(trades(result.transactions@)) + result.remaining_quantity == quantity,
            result.remaining_quantity == unmet(quantity, old(self)@.supplied(side, limit)),
            result.remaining_quantity == 0 <==> old(self)@.supplied(side, limit) >= quantity,
            result.remaining_quantity > 0 ==> result.remaining_quantity + old(self)@.supplied(
                side,
                limit,
            ) == quantity,
            result.order_id == order_id,
            result.is_complete == (result.remaining_quantity == 0),
            forall|k: int|
                0 <= k < result.transactions.len() ==> {
                    let trade = #[trigger] result.transactions[k];
                    &&& trade.taker_order_id == order_id
                    &&& side == Side::Buy ==> trade.price <= limit
                    &&& side == Side::Sell ==> trade.price >= limit
                },
            old(self)@.counted() && result.remaining_quantity > 0 ==> {
                &&& side == Side::Buy ==> forall|p: u64| #[trigger]
                    final(self)@.asks.contains_key(p) ==> p > limit
                &&& side == Side::Sell ==> forall|p: u64| #[trigger]
                    final(self)@.bids.contains_key(p) ==> p < limit
            },
            forall|k: int|
                0 <= k < result.transactions.len() ==> genuine(
                    old(self)@.levels(side.other()),
                    side,
                    (#[trigger] result.transactions[k])@,
                ),
            in_turn(old(self)@.levels(side.other()), result@.executions),
            line_kept(
                old(self)@.levels(side.other()),
                final(self)@.levels(side.other()),
                result@.executions,
            ),
            old(self)@.counted() ==> squared(
                old(self)@.levels(side.other()),
                final(self)@.levels(side.other()),
                result@.executions,
            ),
            forall|p: u64| #[trigger]
                final(self)@.levels(side.other()).contains_key(p) ==> old(self)@.levels(
                    side.other(),
                ).contains_key(p),
            shrunk(old(self)@.levels(side.other()), final(self)@.levels(side.other())),
            old(self)@.placed() ==> final(self)@.placed(),
            old(self)@.counted() ==> final(self)@.counted(),
            old(self)@.counted() && result.remaining_quantity > 0 ==> forall|p: u64| #[trigger]
                final(self)@.levels(side.other()).contains_key(p) ==> !crosses(side, limit, p),
            old(self)@.lasts() ==> final(self)@.lasts(),
            old(self)@.intact() && old(self)@.lasts() ==> final(self)@.intact(),
            final(self).reports() == old(self).reports(),
    {
        let (transactions, filled, remaining) = match side {
            Side::Buy => self.asks.match_order(
                order_id,
                side,
                limit,
                quantity,
                &self.transaction_ids,
            ),
            Side::Sell => self.bids.match_order(
                order_id,
                side,
                limit,
                quantity,
                &self.transaction_ids,
            ),
        };
        self.locations.remove_all(&filled);
        proof {
            old(self).lemma_valid();
            let swept = old(self)@.swept(order_id, side, quantity, limit);
            assert forall|k: int| 0 <= k < transactions.len() implies {
                let trade = #[trigger] transactions[k];
                &&& trade.taker_order_id == order_id
                &&& side == Side::Buy ==> trade.price <= limit
                &&& side == Side::Sell ==> trade.price >= limit
            } by {
                assert(swept.executions[k] == transactions[k]@);
                lemma_sweep_trade(old(self)@.levels(side.other()), order_id, side, limit, quantity, k);
            }
            assert forall|p: u64| #[trigger] self@.asks.contains_key(p) == self@.levels(
                Side::Sell,
            ).contains_key(p) by {}
            assert forall|p: u64| #[trigger] self@.bids.contains_key(p) == self@.levels(
                Side::Buy,
            ).contains_key(p) by {}
            if old(self)@.placed() {
                lemma_placed_after_match(old(self)@, self@, side, filled@);
            }
            if old(self)@.lasts() {
                lemma_lasts_after_match(old(self)@, self@, side);
            }
            if old(self)@.intact() && old(self)@.lasts() {
                lemma_intact_after_match(old(self)@, self@, side, filled@);
            }
        }
        MatchResult {
            order_id,
            transactions,
            remaining_quantity: remaining,
            is_complete: remaining == 0,
            filled_order_ids: filled,
        }
    }

    /// Keeps a report on a match, if reports are wanted and there was a trade.
    fn report(&mut self, match_result: MatchResult)
        requires
            old(self).wf(),
        ensures
            final(self).wf(),
            final(self)@ == old(self)@.reporting(match_result@),
            reported(old(self)@, old(self).reports(), match_result, final(self).reports()),
    {
        if self.listening && match_result.transactions.len() > 0 {
            let trade = TradeResult { symbol: self.symbol.clone(), match_result };
            self.trades.push(trade);
            assert(self@.trades =~= old(self)@.trades.push(trade@));
            assert(self.reports().drop_last() =~= old(self).reports());
        }
    }

    /// The order `id`, if it rests where the book expects it.
    fn find(&self, id: OrderId) -> (order: Option<Order<()>>)
        requires
            self.wf(),
        ensures
            order == self@.order(id),
    {
        match self.locations.get(&id) {
            Some(at) => match self.ladder(at.side).order(at.price, id) {
                Some(order) => Some(restore(order, at.market)),
                None => None,
            },
            None => None,
        }
    }
}

/// Taking away the places of orders that left their levels leaves every order that
/// still rests its place.
proof fn lemma_placed_after_match(before: BookView, after: BookView, side: Side, filled: Seq<OrderId>)
    requires
        before.placed(),
        after.levels(side) == before.levels(side),
        shrunk(before.levels(side.other()), after.levels(side.other())),
        forall|k: int|
            0 <= k < filled.len() ==> gone(
                before.levels(side.other()),
                after.levels(side.other()),
                #[trigger] filled[k],
            ),
        after.locations == before.locations.remove_keys(filled.to_set()),
    ensures
        after.placed(),
{
    assert forall|s: Side, p: u64, id: OrderId| #[trigger] rests(after.levels(s), p, id) implies {
        &&& after.locations.contains_key(id)
        &&& after.locations[id].price == p
        &&& after.locations[id].side == s
    } by {
        assert(rests(before.levels(s), p, id));
        if filled.contains(id) {
            let k = choose|k: int| 0 <= k < filled.len() && filled[k] == id;
            assert(gone(before.levels(side.other()), after.levels(side.other()), filled[k]));
            let q = choose|q: u64| #[trigger]
                rests(before.levels(side.other()), q, id) && !rests(
                    after.levels(side.other()),
                    q,
                    id,
                );
            assert(before.locations[id].price == q);
        }
    }
}

/// An order that shows something until it is used up still does after matching.
proof fn lemma_lasts_after_match(before: BookView, after: BookView, side: Side)
    requires
        before.lasts(),
        after.levels(side) == before.levels(side),
        shrunk(before.levels(side.other()), after.levels(side.other())),
        enduring(before.levels(side.other()), after.levels(side.other())),
    ensures
        after.lasts(),
{
    assert forall|s: Side, p: u64, id: OrderId| #[trigger] rests(after.levels(s), p, id) implies lasting(
        after.levels(s)[p].orders[id].kind,
    ) by {
        assert(rests(before.levels(s), p, id));
        if s != side {
            assert(s == side.other());
        }
    }
}

/// Where every order that left its level lost its place, places and levels still agree.
proof fn lemma_intact_after_match(before: BookView, after: BookView, side: Side, filled: Seq<OrderId>)
    requires
        before.intact(),
        before.lasts(),
        after.placed(),
        after.counted(),
        after.levels(side) == before.levels(side),
        none_empty(before.levels(side.other())) ==> none_empty(after.levels(side.other())),
        accounted(before.levels(side.other()), after.levels(side.other()), filled),
        after.locations == before.locations.remove_keys(filled.to_set()),
    ensures
        after.intact(),
{
    assert forall|p: u64| #[trigger] before.levels(side.other()).contains_key(p) implies before.levels(
        side.other(),
    )[p].count > 0 by {
        let state = before.levels(side.other())[p];
        assert(state.counted());
        let id = choose|id: OrderId| rests(before.levels(side.other()), p, id);
        assert(state.orders.dom().contains(id));
        if state.orders.dom().len() == 0 {
            assert(state.orders.dom() =~= Set::empty());
        }
    }
    assert forall|id: OrderId| #[trigger] after.locations.contains_key(id) implies rests(
        after.levels(after.locations[id].side),
        after.locations[id].price,
        id,
    ) by {
        let at = before.locations[id];
        assert(before.locations.contains_key(id));
        assert(rests(before.levels(at.side), at.price, id));
        if at.side != side {
            assert(at.side == side.other());
            assert(lasting(before.levels(at.side)[at.price].orders[id].kind));
            if !rests(after.levels(at.side), at.price, id) {
                assert(filled.contains(id));
            }
        }
    }
    assert forall|s: Side, p: u64| #[trigger] after.levels(s).contains_key(p) implies exists|id: OrderId|
        rests(after.levels(s), p, id) by {
        if s == side {
            assert(before.levels(s).contains_key(p));
            let id = choose|id: OrderId| rests(before.levels(s), p, id);
            assert(rests(after.levels(s), p, id));
        } else {
            assert(s == side.other());
            let state = after.levels(s)[p];
            assert(state.counted());
            let id = state.orders.dom().choose();
            assert(rests(after.levels(s), p, id));
        }
    }
}

/// The order that a level keeps, with the kind that it came with.
fn restore(order: Order<()>, market: bool) -> (restored: Order<()>)
    ensures
        restored == order.restored(market),
{
    if market {
        Order { kind: OrderKind::Market { quantity: order.quantity() }, ..order }
    } else {
        order
    }
}

/// The order without the caller's data.
fn convert_to_unit_type<T>(order: &Order<T>) -> (bare: Order<()>)
    ensures
        bare == order.bare(),
{
    Order {
        id: order.id,
        price: order.price,
        side: order.side,
        timestamp: order.timestamp,
        time_in_force: order.time_in_force,
        kind: order.kind,
        extra_fields: (),
    }
}

/// The order with default data.
fn convert_from_unit_type<T: Default>(order: &Order<()>) -> (full: Order<T>)
    ensures
        with_default_data(full, *order),
{
    assert(order.extra_fields == ());
    Order {
        id: order.id,
        price: order.price,
        side: order.side,
        timestamp: order.timestamp,
        time_in_force: order.time_in_force,
        kind: order.kind,
        extra_fields: T::default(),
    }
}

impl<T: Default> OrderBook<T> {
    /// The order `order_id`, if it rests in the book, with default data.
    pub fn get_order(&self, order_id: OrderId) -> (order: Option<Arc<Order<T>>>)
        requires
            self.wf(),
        ensures
            match (order, self@.order(order_id)) {
                (Some(found), Some(order)) => with_default_data(*found, order),
                (None, None) => true,
                _ => false,
            },
            order matches Some(found) ==> found.id == order_id,
    {
        proof {
            self.lemma_valid();
        }
        match self.find(order_id) {
            Some(order) => Some(Arc::new(convert_from_unit_type(&order))),
            None => None,
        }
    }
}

} // verus!
