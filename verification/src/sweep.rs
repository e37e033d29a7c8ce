//! What an incoming order finds on the other side of the book.
//!
//! One side of the book is a map from prices to what rests there.

use crate::level::{
    ahead_in_line, executions, lasting, left_as, lemma_traded_none, lemma_traded_sum, matched, supply,
    traded, unmet, yielded, Execution, LevelState,
};
use crate::order::Side;
use pricelevel::OrderId;
use vstd::prelude::*;

verus! {

/// Whether price `p` of a resting order on `side` comes before price `q`: bids from
/// the highest, asks from the lowest.
pub open spec fn ahead(side: Side, p: u64, q: u64) -> bool {
    match side {
        Side::Buy => p > q,
        Side::Sell => p < q,
    }
}

/// Whether an incoming order on `side` with the limit price `limit` may trade at
/// `price`.
pub open spec fn crosses(side: Side, limit: u64, price: u64) -> bool {
    match side {
        Side::Buy => price <= limit,
        Side::Sell => price >= limit,
    }
}

/// Whether `p` is the price at which matching with the orders on `side` starts.
pub open spec fn is_best(levels: Map<u64, LevelState>, side: Side, p: u64) -> bool {
    &&& levels.contains_key(p)
    &&& forall|q: u64| #[trigger] levels.contains_key(q) && q != p ==> ahead(side, p, q)
}

/// The price at which matching with the orders on `side` starts, if there is any.
pub open spec fn best(levels: Map<u64, LevelState>, side: Side) -> Option<u64> {
    if exists|p: u64| is_best(levels, side, p) {
        Some(choose|p: u64| is_best(levels, side, p))
    } else {
        None
    }
}

/// One side of the book after its level at `price` came to hold `state`. A level
/// that counts no order is dropped.
pub open spec fn settle(levels: Map<u64, LevelState>, price: u64, state: LevelState) -> Map<u64, LevelState> {
    if state.count == 0 {
        levels.remove(price)
    } else {
        levels.insert(price, state)
    }
}

/// What one side of the book holds at `price`.
pub open spec fn level_at(levels: Map<u64, LevelState>, price: u64) -> LevelState {
    if levels.contains_key(price) {
        levels[price]
    } else {
        LevelState::empty(price)
    }
}

/// What the orders give up with which an incoming order on `side` with the limit price
/// `limit` may trade.
pub open spec fn reach(levels: Map<u64, LevelState>, side: Side, limit: u64) -> nat
    decreases levels.dom().len(),
    when levels.dom().finite()
{
    match best(levels, side.other()) {
        Some(p) => if crosses(side, limit, p) && levels.contains_key(p) {
            supply(levels[p].orders) + reach(levels.remove(p), side, limit)
        } else {
            0
        },
        None => 0,
    }
}

/// What matching an incoming order does to one side of the book.
pub struct Sweep {
    /// What rests there afterwards.
    pub levels: Map<u64, LevelState>,
    /// The trades, in the order in which they happened.
    pub executions: Seq<Execution>,
    /// The resting orders that were used up, in the order in which they were.
    pub filled: Seq<OrderId>,
    /// The quantity that found no resting order.
    pub remaining: u64,
}

/// What matching `quantity` of the incoming order `taker` on `side` does to the
/// other side of the book, at no price beyond `limit`. Levels are taken from the
/// best price on, each is matched with what the ones before it left, and one that
/// counts no order after that is dropped.
pub open spec fn sweep(
    levels: Map<u64, LevelState>,
    taker: OrderId,
    side: Side,
    limit: u64,
    quantity: u64,
) -> Sweep
    decreases levels.dom().len(),
    when levels.dom().finite()
{
    let nothing = Sweep { levels, executions: Seq::empty(), filled: Seq::empty(), remaining: quantity };
    match best(levels, side.other()) {
        Some(p) => if quantity > 0 && crosses(side, limit, p) && levels.contains_key(p) {
            let here = matched(levels[p], quantity);
            let rest = sweep(levels.remove(p), taker, side, limit, here.remaining);
            Sweep {
                levels: if here.after.count == 0 {
                    rest.levels
                } else {
                    rest.levels.insert(p, here.after)
                },
                executions: executions(taker, levels[p].price, here.fills) + rest.executions,
                filled: here.filled + rest.filled,
                remaining: rest.remaining,
            }
        } else {
            nothing
        },
        None => nothing,
    }
}

/// Whether `quantity` of an incoming order on `side` with the limit price `limit` can be
/// matched with what it comes to: with each level as far as the ones before it leave
/// something.
pub open spec fn settled(levels: Map<u64, LevelState>, side: Side, limit: u64, quantity: u64) -> bool
    decreases levels.dom().len(),
    when levels.dom().finite()
{
    match best(levels, side.other()) {
        Some(p) => if quantity > 0 && crosses(side, limit, p) && levels.contains_key(p) {
            &&& levels[p].settles(quantity)
            &&& settled(
                levels.remove(p),
                side,
                limit,
                unmet(quantity, supply(levels[p].orders)) as u64,
            )
        } else {
            true
        },
        None => true,
    }
}

/// Whether every level counts its orders rightly.
pub open spec fn all_counted(levels: Map<u64, LevelState>) -> bool {
    forall|p: u64| #[trigger] levels.contains_key(p) ==> levels[p].counted()
}

/// Whether there are finitely many levels on `side`, each is at its price, and the
/// orders at it are where they belong.
pub open spec fn sound(levels: Map<u64, LevelState>, side: Side) -> bool {
    &&& levels.dom().finite()
    &&& forall|p: u64| #[trigger]
        levels.contains_key(p) ==> levels[p].price == p && levels[p].homed(side)
}

/// Whether the order `id` rests at `price`.
pub open spec fn rests(levels: Map<u64, LevelState>, price: u64, id: OrderId) -> bool {
    levels.contains_key(price) && levels[price].orders.contains_key(id)
}

/// Whether no order came to any level between `before` and `after`.
pub open spec fn shrunk(before: Map<u64, LevelState>, after: Map<u64, LevelState>) -> bool {
    forall|p: u64, id: OrderId| #[trigger] rests(after, p, id) ==> rests(before, p, id)
}

/// Whether the order `id` left its level between `before` and `after`.
pub open spec fn gone(before: Map<u64, LevelState>, after: Map<u64, LevelState>, id: OrderId) -> bool {
    exists|p: u64| #[trigger] rests(before, p, id) && !rests(after, p, id)
}

/// Whether no level counts none.
pub open spec fn none_empty(levels: Map<u64, LevelState>) -> bool {
    forall|p: u64| #[trigger] levels.contains_key(p) ==> levels[p].count > 0
}

/// Whether every order that shows something until it is used up still does.
pub open spec fn enduring(before: Map<u64, LevelState>, after: Map<u64, LevelState>) -> bool {
    forall|p: u64, id: OrderId| #[trigger]
        rests(after, p, id) && lasting(before[p].orders[id].kind) ==> lasting(
            after[p].orders[id].kind,
        )
}

/// Whether every order that showed something and left its level is among `filled`.
pub open spec fn accounted(
    before: Map<u64, LevelState>,
    after: Map<u64, LevelState>,
    filled: Seq<OrderId>,
) -> bool {
    forall|p: u64, id: OrderId| #[trigger]
        rests(before, p, id) && before[p].orders[id].kind.visible() > 0 && !rests(after, p, id)
            ==> filled.contains(id)
}

/// Whether `trade` is of some quantity, made by an order on `side` with one of `levels`.
pub open spec fn genuine(levels: Map<u64, LevelState>, side: Side, trade: Execution) -> bool {
    &&& trade.quantity > 0
    &&& trade.taker_side == side
    &&& rests(levels, trade.price, trade.maker)
}

/// Whether each order that rests and shows something trades all that it shows before one
/// behind it in the queue of its level trades.
pub open spec fn in_turn(levels: Map<u64, LevelState>, trades: Seq<Execution>) -> bool {
    forall|i: int, a: OrderId|
        0 <= i < trades.len() && rests(levels, trades[i].price, a)
            && levels[trades[i].price].orders[a].kind.visible() > 0 && #[trigger] ahead_in_line(
            levels[trades[i].price].queue,
            a,
            trades[i].maker,
        ) ==> exists|j: int|
            0 <= j < i && #[trigger] trades[j].price == trades[i].price && trades[j].maker == a
                && trades[j].quantity == levels[trades[i].price].orders[a].kind.visible()
}

/// Whether each order that rested has what it had but for what it traded, or is gone and
/// traded all that it gives up.
pub open spec fn squared(
    before: Map<u64, LevelState>,
    after: Map<u64, LevelState>,
    trades: Seq<Execution>,
) -> bool {
    forall|p: u64, id: OrderId| #[trigger]
        rests(before, p, id) ==> if rests(after, p, id) {
            left_as(
                before[p].orders[id].kind,
                traded(trades, p, id),
                after[p].orders[id].kind,
            )
        } else {
            traded(trades, p, id) == yielded(before[p].orders[id].kind)
        }
}

/// Whether each order that shows something and did not trade is before those that it was
/// before in the queue of its level.
pub open spec fn line_kept(
    before: Map<u64, LevelState>,
    after: Map<u64, LevelState>,
    trades: Seq<Execution>,
) -> bool {
    forall|p: u64, a: OrderId, b: OrderId|
        rests(before, p, a) && before[p].orders[a].kind.visible() > 0 && traded(trades, p, a) == 0
            && after.contains_key(p) && #[trigger] ahead_in_line(before[p].queue, a, b)
            ==> ahead_in_line(after[p].queue, a, b)
}

/// Matching with the level at `price`, after `had` at other prices, adds `gained` to the
/// trades and leaves `state` there.
pub proof fn lemma_match_at(
    start: Map<u64, LevelState>,
    before: Map<u64, LevelState>,
    price: u64,
    state: LevelState,
    had: Seq<Execution>,
    gained: Seq<Execution>,
)
    requires
        start.contains_key(price) && before.contains_key(price) && before[price] == start[price],
        forall|k: int| 0 <= k < had.len() ==> (#[trigger] had[k]).price != price,
        forall|k: int| 0 <= k < gained.len() ==> (#[trigger] gained[k]).price == price,
        in_turn(start, had),
        in_turn(start, gained),
        line_kept(start, before, had),
        forall|a: OrderId, b: OrderId|
            start[price].orders.contains_key(a) && start[price].orders[a].kind.visible() > 0 && traded(
                gained,
                price,
                a,
            ) == 0 && #[trigger] ahead_in_line(start[price].queue, a, b) ==> ahead_in_line(
                state.queue,
                a,
                b,
            ),
        forall|id: OrderId| #[trigger]
            start[price].orders.contains_key(id) ==> if state.orders.contains_key(id) {
                left_as(
                    start[price].orders[id].kind,
                    traded(gained, price, id),
                    state.orders[id].kind,
                )
            } else {
                traded(gained, price, id) == yielded(start[price].orders[id].kind)
            },
    ensures
        in_turn(start, had + gained),
        line_kept(start, before.insert(price, state), had + gained),
        squared(start, before, had) ==> squared(start, before.insert(price, state), had + gained),
{
    let after = before.insert(price, state);
    let trades = had + gained;
    assert forall|p: u64, id: OrderId| p == price implies #[trigger] traded(trades, p, id) == traded(
        gained,
        p,
        id,
    ) by {
        lemma_traded_sum(had, gained, p, id);
        lemma_traded_none(had, p, id);
    }
    assert forall|p: u64, id: OrderId| p != price implies #[trigger] traded(trades, p, id) == traded(
        had,
        p,
        id,
    ) by {
        lemma_traded_sum(had, gained, p, id);
        lemma_traded_none(gained, p, id);
    }
    assert forall|i: int, a: OrderId|
        0 <= i < trades.len() && rests(start, trades[i].price, a)
            && start[trades[i].price].orders[a].kind.visible() > 0 && #[trigger] ahead_in_line(
            start[trades[i].price].queue,
            a,
            trades[i].maker,
        ) implies exists|j: int|
        0 <= j < i && #[trigger] trades[j].price == trades[i].price && trades[j].maker == a
            && trades[j].quantity == start[trades[i].price].orders[a].kind.visible() by {
        if i < had.len() {
            assert(trades[i] == had[i]);
            let j = choose|j: int|
                0 <= j < i && #[trigger] had[j].price == had[i].price && had[j].maker == a
                    && had[j].quantity == start[had[i].price].orders[a].kind.visible();
            assert(trades[j] == had[j]);
        } else {
            let m = i - had.len();
            assert(trades[i] == gained[m]);
            let j = choose|j: int|
                0 <= j < m && #[trigger] gained[j].price == gained[m].price && gained[j].maker == a
                    && gained[j].quantity == start[gained[m].price].orders[a].kind.visible();
            assert(trades[had.len() + j] == gained[j]);
        }
    }
    if squared(start, before, had) {
        assert forall|p: u64, id: OrderId| #[trigger] rests(start, p, id) implies if rests(
            after,
            p,
            id,
        ) {
            left_as(start[p].orders[id].kind, traded(trades, p, id), after[p].orders[id].kind)
        } else {
            traded(trades, p, id) == yielded(start[p].orders[id].kind)
        } by {
            if p != price {
                assert(rests(after, p, id) == rests(before, p, id));
            }
        }
    }
}

/// There is one best price at most.
pub proof fn lemma_best(levels: Map<u64, LevelState>, side: Side, p: u64)
    requires
        is_best(levels, side, p),
    ensures
        best(levels, side) == Some(p),
{
    let q = choose|q: u64| is_best(levels, side, q);
    assert(is_best(levels, side, q));
    assert(levels.contains_key(q) && levels.contains_key(p));
}

/// A side with orders has a best price.
pub proof fn lemma_best_exists(levels: Map<u64, LevelState>, side: Side, price: u64)
    requires
        levels.dom().finite(),
        levels.contains_key(price),
    ensures
        best(levels, side) is Some,
        is_best(levels, side, best(levels, side)->0),
    decreases levels.dom().len(),
{
    let others = levels.remove(price);
    if exists|q: u64| others.contains_key(q) {
        let q = choose|q: u64| others.contains_key(q);
        lemma_best_exists(others, side, q);
        let b = best(others, side)->0;
        assert(is_best(others, side, b));
        let top = if ahead(side, price, b) {
            price
        } else {
            b
        };
        assert forall|r: u64| #[trigger] levels.contains_key(r) && r != top implies ahead(side, top, r) by {
            if r != price {
                assert(others.contains_key(r));
            }
        }
        assert(is_best(levels, side, top));
        lemma_best(levels, side, top);
    } else {
        assert forall|r: u64| #[trigger] levels.contains_key(r) && r != price implies ahead(
            side,
            price,
            r,
        ) by {
            assert(others.contains_key(r));
        }
        assert(is_best(levels, side, price));
        lemma_best(levels, side, price);
    }
}

/// What can be traded with adds up over the levels within the limit, in any order.
pub proof fn lemma_reach_splits(levels: Map<u64, LevelState>, side: Side, limit: u64, price: u64)
    requires
        levels.dom().finite(),
        levels.contains_key(price),
        crosses(side, limit, price),
    ensures
        reach(levels, side, limit) == supply(levels[price].orders) + reach(
            levels.remove(price),
            side,
            limit,
        ),
    decreases levels.dom().len(),
{
    lemma_best_exists(levels, side.other(), price);
    let b = best(levels, side.other())->0;
    assert(levels.contains_key(b));
    if b != price {
        assert(ahead(side.other(), b, price));
        assert(crosses(side, limit, b));
        lemma_reach_splits(levels.remove(b), side, limit, price);
        let others = levels.remove(price);
        assert(others.contains_key(b));
        assert(is_best(others, side.other(), b)) by {
            assert forall|q: u64| #[trigger] others.contains_key(q) && q != b implies ahead(
                side.other(),
                b,
                q,
            ) by {
                assert(levels.contains_key(q));
            }
        }
        lemma_best(others, side.other(), b);
        assert(levels.remove(b).remove(price) =~= others.remove(b));
    }
}

/// A side without orders has no best price.
pub proof fn lemma_no_best(levels: Map<u64, LevelState>, side: Side)
    requires
        forall|p: u64| !levels.contains_key(p),
    ensures
        best(levels, side) is None,
{
}

/// Matching brings no new prices.
pub proof fn lemma_sweep_prices(
    levels: Map<u64, LevelState>,
    taker: OrderId,
    side: Side,
    limit: u64,
    quantity: u64,
    price: u64,
)
    requires
        levels.dom().finite(),
        sweep(levels, taker, side, limit, quantity).levels.contains_key(price),
    ensures
        levels.contains_key(price),
    decreases levels.dom().len(),
{
    match best(levels, side.other()) {
        Some(p) => {
            if quantity > 0 && crosses(side, limit, p) && levels.contains_key(p) && price != p {
                let here = matched(levels[p], quantity);
                lemma_sweep_prices(levels.remove(p), taker, side, limit, here.remaining, price);
            }
        },
        None => {},
    }
}

/// Every trade is one of the incoming order, at a price that was on the other side and
/// that the limit allows.
pub proof fn lemma_sweep_trade(
    levels: Map<u64, LevelState>,
    taker: OrderId,
    side: Side,
    limit: u64,
    quantity: u64,
    i: int,
)
    requires
        sound(levels, side.other()),
        0 <= i < sweep(levels, taker, side, limit, quantity).executions.len(),
    ensures
        ({
            let trade = sweep(levels, taker, side, limit, quantity).executions[i];
            &&& trade.taker == taker
            &&& levels.contains_key(trade.price)
            &&& crosses(side, limit, trade.price)
        }),
    decreases levels.dom().len(),
{
    if let Some(p) = best(levels, side.other()) {
        if quantity > 0 && crosses(side, limit, p) && levels.contains_key(p) {
            let here = matched(levels[p], quantity);
            let n = executions(taker, levels[p].price, here.fills).len();
            if i >= n {
                lemma_sweep_trade(levels.remove(p), taker, side, limit, here.remaining, i - n);
            }
        }
    }
}

/// No trade is at a better price than one before it.
pub proof fn lemma_sweep_order(
    levels: Map<u64, LevelState>,
    taker: OrderId,
    side: Side,
    limit: u64,
    quantity: u64,
    i: int,
    j: int,
)
    requires
        sound(levels, side.other()),
        0 <= i < j < sweep(levels, taker, side, limit, quantity).executions.len(),
    ensures
        ({
            let trades = sweep(levels, taker, side, limit, quantity).executions;
            !ahead(side.other(), trades[j].price, trades[i].price)
        }),
    decreases levels.dom().len(),
{
    if let Some(p) = best(levels, side.other()) {
        if quantity > 0 && crosses(side, limit, p) && levels.contains_key(p) {
            assert(is_best(levels, side.other(), p));
            let here = matched(levels[p], quantity);
            let n = executions(taker, levels[p].price, here.fills).len();
            if j >= n {
                lemma_sweep_trade(levels.remove(p), taker, side, limit, here.remaining, j - n);
                let q = sweep(levels, taker, side, limit, quantity).executions[j].price;
                assert(levels.remove(p).contains_key(q));
                assert(levels.contains_key(q));
                if i >= n {
                    lemma_sweep_order(
                        levels.remove(p),
                        taker,
                        side,
                        limit,
                        here.remaining,
                        i - n,
                        j - n,
                    );
                }
            }
        }
    }
}

/// What rests at a price that the limit does not allow stays as it is.
pub proof fn lemma_sweep_beyond(
    levels: Map<u64, LevelState>,
    taker: OrderId,
    side: Side,
    limit: u64,
    quantity: u64,
    price: u64,
)
    requires
        levels.dom().finite(),
        !crosses(side, limit, price),
    ensures
        ({
            let after = sweep(levels, taker, side, limit, quantity).levels;
            &&& after.contains_key(price) == levels.contains_key(price)
            &&& levels.contains_key(price) ==> after[price] == levels[price]
        }),
    decreases levels.dom().len(),
{
    if let Some(p) = best(levels, side.other()) {
        if quantity > 0 && crosses(side, limit, p) && levels.contains_key(p) {
            let here = matched(levels[p], quantity);
            lemma_sweep_beyond(levels.remove(p), taker, side, limit, here.remaining, price);
        }
    }
}

} // verus!
