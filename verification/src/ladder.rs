//! One side of the book: its price levels, best price first.

use crate::level::{
    add_to_level, ahead_in_line, cancel_at_level, executions, find_at_level, lasting, lemma_volume_positive,
    lemma_volume_sum, level_match_order, level_order_count, level_settles, level_state, level_supply,
    matched, new_level, requantified, requantify_at_level, supply, trades, unmet, volume, Execution,
    LevelState, Transaction,
};
use crate::order::{Order, Side};
use crate::quantity::lesser;
use crate::sweep::{
    accounted, ahead, all_counted, best, crosses, enduring, genuine, gone, in_turn, is_best,
    lemma_best, lemma_match_at, lemma_no_best, lemma_sweep_prices, level_at, line_kept, none_empty,
    reach, rests, settle, settled, shrunk, sound, squared, sweep, Sweep,
};
use pricelevel::{OrderId, PriceLevel, UuidGenerator};
use vstd::prelude::*;

verus! {

/// A price level and its price.
pub struct Rung {
    pub price: u64,
    pub level: PriceLevel,
}

/// The price levels of one side of the book, best price first.
pub struct Ladder {
    side: Side,
    rungs: Vec<Rung>,
}

/// Whether one of `rungs` is at `price`.
spec fn priced(rungs: Seq<Rung>, price: u64) -> bool {
    exists|i: int| 0 <= i < rungs.len() && (#[trigger] rungs[i]).price == price
}

/// The position among `rungs` of the one at `price`.
spec fn rung_at(rungs: Seq<Rung>, price: u64) -> int {
    choose|i: int| 0 <= i < rungs.len() && (#[trigger] rungs[i]).price == price
}

/// What `rungs` hold, by price.
spec fn held(rungs: Seq<Rung>) -> Map<u64, LevelState> {
    Map::new(
        |price: u64| priced(rungs, price),
        |price: u64| level_state(rungs[rung_at(rungs, price)].level),
    )
}

/// Whether `rungs` are in the order of `side`, each level knows its price, and the
/// orders at it are where they belong.
spec fn ordered(rungs: Seq<Rung>, side: Side) -> bool {
    &&& forall|i: int, j: int|
        0 <= i < j < rungs.len() ==> ahead(
            side,
            (#[trigger] rungs[i]).price,
            (#[trigger] rungs[j]).price,
        )
    &&& forall|i: int|
        0 <= i < rungs.len() ==> {
            let state = level_state((#[trigger] rungs[i]).level);
            state.price == rungs[i].price && state.homed(side)
        }
}

impl View for Ladder {
    type V = Map<u64, LevelState>;

    closed spec fn view(&self) -> Map<u64, LevelState> {
        held(self.rungs@)
    }
}

/// What is held at the price of a rung is what that rung holds.
proof fn lemma_held_at(rungs: Seq<Rung>, side: Side, i: int)
    requires
        ordered(rungs, side),
        0 <= i < rungs.len(),
    ensures
        held(rungs).contains_key(rungs[i].price),
        held(rungs)[rungs[i].price] == level_state(rungs[i].level),
        rung_at(rungs, rungs[i].price) == i,
{
    assert(priced(rungs, rungs[i].price));
    let k = rung_at(rungs, rungs[i].price);
    assert(rungs[k].price == rungs[i].price);
}

/// There are finitely many prices.
proof fn lemma_held_finite(rungs: Seq<Rung>)
    ensures
        held(rungs).dom().finite(),
{
    let prices = rungs.map_values(|r: Rung| r.price);
    vstd::seq_lib::seq_to_set_is_finite(prices);
    assert forall|p: u64| held(rungs).dom().contains(p) implies prices.to_set().contains(p) by {
        let i = rung_at(rungs, p);
        assert(prices[i] == p);
    }
    assert(held(rungs).dom().subset_of(prices.to_set()));
    vstd::set_lib::lemma_set_subset_finite(prices.to_set(), held(rungs).dom());
}

/// Changing what one rung holds changes what is held at its price.
proof fn lemma_change(rungs: Seq<Rung>, side: Side, i: int, rung: Rung)
    requires
        ordered(rungs, side),
        0 <= i < rungs.len(),
        rung.price == rungs[i].price,
        level_state(rung.level).price == rung.price,
        level_state(rung.level).homed(side),
    ensures
        ordered(rungs.update(i, rung), side),
        held(rungs.update(i, rung)) == held(rungs).insert(rung.price, level_state(rung.level)),
{
    let after = rungs.update(i, rung);
    assert forall|j: int| 0 <= j < rungs.len() implies (#[trigger] after[j]).price == rungs[j].price by {}
    assert(ordered(after, side));
    assert forall|p: u64| priced(after, p) == priced(rungs, p) by {
        if priced(after, p) {
            let j = rung_at(after, p);
            assert(rungs[j].price == p);
        }
        if priced(rungs, p) {
            let j = rung_at(rungs, p);
            assert(after[j].price == p);
        }
    }
    assert(rungs[i].price == rung.price);
    assert forall|p: u64| priced(rungs, p) implies rung_at(after, p) == rung_at(rungs, p) by {
        let j = rung_at(rungs, p);
        assert(after[j].price == p);
        let k = rung_at(after, p);
        assert(after[k].price == p);
    }
    lemma_held_at(rungs, side, i);
    assert(held(after) =~= held(rungs).insert(rung.price, level_state(rung.level)));
}

/// Taking out a rung takes away what is held at its price.
proof fn lemma_drop(rungs: Seq<Rung>, side: Side, i: int)
    requires
        ordered(rungs, side),
        0 <= i < rungs.len(),
    ensures
        ordered(rungs.remove(i), side),
        held(rungs.remove(i)) == held(rungs).remove(rungs[i].price),
{
    let after = rungs.remove(i);
    assert forall|j: int| 0 <= j < after.len() implies #[trigger] after[j] == rungs[if j < i {
        j
    } else {
        j + 1
    }] by {}
    assert(ordered(after, side));
    assert forall|p: u64| priced(after, p) == (priced(rungs, p) && p != rungs[i].price) by {
        if priced(after, p) {
            let j = rung_at(after, p);
            let k = if j < i {
                j
            } else {
                j + 1
            };
            assert(rungs[k].price == p);
        }
        if priced(rungs, p) && p != rungs[i].price {
            let j = rung_at(rungs, p);
            let k = if j < i {
                j
            } else {
                j - 1
            };
            assert(after[k].price == p);
        }
    }
    assert forall|p: u64| priced(after, p) implies held(after)[p] == held(rungs)[p] by {
        let j = rung_at(after, p);
        let k = if j < i {
            j
        } else {
            j + 1
        };
        assert(rungs[k] == after[j]);
        lemma_held_at(rungs, side, k);
        lemma_held_at(after, side, j);
    }
    assert(held(after) =~= held(rungs).remove(rungs[i].price));
}

/// Putting in a rung where it belongs adds what it holds.
proof fn lemma_put(rungs: Seq<Rung>, side: Side, i: int, rung: Rung)
    requires
        ordered(rungs, side),
        0 <= i <= rungs.len(),
        forall|j: int| 0 <= j < i ==> ahead(side, (#[trigger] rungs[j]).price, rung.price),
        forall|j: int| i <= j < rungs.len() ==> ahead(side, rung.price, (#[trigger] rungs[j]).price),
        level_state(rung.level).price == rung.price,
        level_state(rung.level).homed(side),
    ensures
        ordered(rungs.insert(i, rung), side),
        held(rungs.insert(i, rung)) == held(rungs).insert(rung.price, level_state(rung.level)),
{
    let after = rungs.insert(i, rung);
    assert forall|j: int| 0 <= j < after.len() && j != i implies #[trigger] after[j] == rungs[if j < i {
        j
    } else {
        j - 1
    }] by {}
    assert(after[i] == rung);
    assert(ordered(after, side));
    lemma_drop(after, side, i);
    assert(after.remove(i) =~= rungs);
    lemma_held_at(after, side, i);
    assert(held(after) =~= held(rungs).insert(rung.price, level_state(rung.level)));
}

/// The first rung is at the best price.
proof fn lemma_first_is_best(rungs: Seq<Rung>, side: Side)
    requires
        ordered(rungs, side),
        rungs.len() > 0,
    ensures
        is_best(held(rungs), side, rungs[0].price),
{
    lemma_held_at(rungs, side, 0);
    assert forall|q: u64| #[trigger]
        held(rungs).contains_key(q) && q != rungs[0].price implies ahead(side, rungs[0].price, q) by {
        let k = rung_at(rungs, q);
        assert(rungs[k].price == q);
    }
}

/// Whether every rung counts its orders rightly.
spec fn rungs_counted(rungs: Seq<Rung>) -> bool {
    forall|i: int| 0 <= i < rungs.len() ==> level_state((#[trigger] rungs[i]).level).counted()
}

/// Whether `whole` is what was done so far, with `rest` still to do: `passed` is
/// what the levels behind hold, `trades` and `filled` are what happened there.
spec fn part_done(
    whole: Sweep,
    rest: Sweep,
    passed: Map<u64, LevelState>,
    trades: Seq<Execution>,
    filled: Seq<OrderId>,
) -> bool {
    &&& whole.levels == rest.levels.union_prefer_right(passed)
    &&& whole.executions == trades + rest.executions
    &&& whole.filled == filled + rest.filled
    &&& whole.remaining == rest.remaining
}

/// Matching from the rung at `i` on: first that rung, then the ones behind it.
proof fn lemma_sweep_step(
    rungs: Seq<Rung>,
    ladder_side: Side,
    i: int,
    taker: OrderId,
    side: Side,
    limit: u64,
    quantity: u64,
)
    requires
        ordered(rungs, ladder_side),
        ladder_side == side.other(),
        0 <= i < rungs.len(),
        quantity > 0,
        crosses(side, limit, rungs[i].price),
    ensures
        ({
            let state = level_state(rungs[i].level);
            let here = matched(state, quantity);
            let rest = sweep(held(rungs.skip(i + 1)), taker, side, limit, here.remaining);
            sweep(held(rungs.skip(i)), taker, side, limit, quantity) == (Sweep {
                levels: if here.after.count == 0 {
                    rest.levels
                } else {
                    rest.levels.insert(rungs[i].price, here.after)
                },
                executions: executions(taker, rungs[i].price, here.fills) + rest.executions,
                filled: here.filled + rest.filled,
                remaining: rest.remaining,
            })
        }),
{
    let ahead_of = rungs.skip(i);
    assert(ordered(ahead_of, ladder_side)) by {
        assert forall|j: int| 0 <= j < ahead_of.len() implies #[trigger] ahead_of[j] == rungs[i + j] by {}
    }
    assert(ahead_of[0] == rungs[i]);
    lemma_held_finite(ahead_of);
    lemma_held_at(ahead_of, ladder_side, 0);
    lemma_first_is_best(ahead_of, ladder_side);
    lemma_best(held(ahead_of), ladder_side, ahead_of[0].price);
    lemma_drop(ahead_of, ladder_side, 0);
    assert(ahead_of.remove(0) =~= rungs.skip(i + 1));
}

/// What is given up from the rung at `i` on, and whether it can be matched with: first
/// that rung, then the ones behind it.
proof fn lemma_reach_step(
    rungs: Seq<Rung>,
    ladder_side: Side,
    i: int,
    side: Side,
    limit: u64,
    quantity: u64,
)
    requires
        ordered(rungs, ladder_side),
        ladder_side == side.other(),
        0 <= i < rungs.len(),
        crosses(side, limit, rungs[i].price),
    ensures
        ({
            let state = level_state(rungs[i].level);
            let behind = held(rungs.skip(i + 1));
            &&& reach(held(rungs.skip(i)), side, limit) == supply(state.orders) + reach(
                behind,
                side,
                limit,
            )
            &&& quantity > 0 ==> settled(held(rungs.skip(i)), side, limit, quantity) == (
            state.settles(quantity) && settled(
                behind,
                side,
                limit,
                unmet(quantity, supply(state.orders)) as u64,
            ))
        }),
{
    let ahead_of = rungs.skip(i);
    assert(ordered(ahead_of, ladder_side)) by {
        assert forall|j: int| 0 <= j < ahead_of.len() implies #[trigger] ahead_of[j] == rungs[i + j] by {}
    }
    assert(ahead_of[0] == rungs[i]);
    lemma_held_finite(ahead_of);
    lemma_held_at(ahead_of, ladder_side, 0);
    lemma_first_is_best(ahead_of, ladder_side);
    lemma_best(held(ahead_of), ladder_side, ahead_of[0].price);
    lemma_drop(ahead_of, ladder_side, 0);
    assert(ahead_of.remove(0) =~= rungs.skip(i + 1));
}

/// Nothing is given up, and nothing need be matched with, from a rung on at which matching
/// stops.
proof fn lemma_reach_end(rungs: Seq<Rung>, ladder_side: Side, i: int, side: Side, limit: u64)
    requires
        ordered(rungs, ladder_side),
        ladder_side == side.other(),
        0 <= i <= rungs.len(),
        i < rungs.len() ==> !crosses(side, limit, rungs[i].price),
    ensures
        reach(held(rungs.skip(i)), side, limit) == 0,
        forall|quantity: u64| settled(held(rungs.skip(i)), side, limit, quantity),
{
    let rest = rungs.skip(i);
    lemma_held_finite(rest);
    if i < rungs.len() {
        assert(ordered(rest, ladder_side));
        lemma_first_is_best(rest, ladder_side);
        lemma_best(held(rest), ladder_side, rest[0].price);
    } else {
        lemma_no_best(held(rest), ladder_side);
    }
}

/// An order that left its level has left it later on, if none came back.
proof fn lemma_gone_later(
    start: Map<u64, LevelState>,
    middle: Map<u64, LevelState>,
    end: Map<u64, LevelState>,
    id: OrderId,
)
    requires
        gone(start, middle, id),
        shrunk(middle, end),
    ensures
        gone(start, end, id),
{
    let p = choose|p: u64| #[trigger] rests(start, p, id) && !rests(middle, p, id);
    assert(!rests(end, p, id));
}

/// What rungs hold is what the first `i` of them hold and what the others hold.
proof fn lemma_halves(rungs: Seq<Rung>, side: Side, i: int)
    requires
        ordered(rungs, side),
        0 <= i <= rungs.len(),
    ensures
        held(rungs.skip(i)).union_prefer_right(held(rungs.take(i))) == held(rungs),
{
    let front = rungs.take(i);
    let back = rungs.skip(i);
    assert(ordered(front, side));
    assert(ordered(back, side)) by {
        assert forall|j: int| 0 <= j < back.len() implies #[trigger] back[j] == rungs[i + j] by {}
    }
    assert forall|p: u64| priced(rungs, p) == (priced(front, p) || priced(back, p)) by {
        if priced(rungs, p) {
            let k = rung_at(rungs, p);
            if k < i {
                assert(front[k].price == p);
            } else {
                assert(back[k - i].price == p);
            }
        }
        if priced(front, p) {
            assert(rungs[rung_at(front, p)].price == p);
        }
        if priced(back, p) {
            assert(rungs[i + rung_at(back, p)].price == p);
        }
    }
    assert forall|p: u64| priced(front, p) implies held(front)[p] == held(rungs)[p] by {
        let k = rung_at(front, p);
        assert(rungs[k] == front[k]);
        lemma_held_at(rungs, side, k);
    }
    assert forall|p: u64| priced(back, p) implies held(back)[p] == held(rungs)[p] by {
        let k = rung_at(back, p);
        assert(rungs[i + k] == back[k]);
        lemma_held_at(rungs, side, i + k);
    }
    assert(held(back).union_prefer_right(held(front)) =~= held(rungs));
}

impl Ladder {
    /// The side of the orders that rest here.
    pub closed spec fn side(self) -> Side {
        self.side
    }

    /// The levels are in the order of the side, none twice, each is at its price, and
    /// the orders at it are where they belong.
    pub closed spec fn wf(self) -> bool {
        ordered(self.rungs@, self.side)
    }

    /// The levels are finitely many and sound.
    pub proof fn lemma_sound(&self)
        requires
            self.wf(),
        ensures
            sound(self@, self.side()),
    {
        lemma_held_finite(self.rungs@);
        assert forall|p: u64| #[trigger] self@.contains_key(p) implies self@[p].price == p && self@[p].homed(
            self.side,
        ) by {
            let k = rung_at(self.rungs@, p);
            assert(self.rungs@[k].price == p);
        }
    }

    /// A side of the book without orders.
    pub(crate) fn new(side: Side) -> (ladder: Ladder)
        ensures
            ladder.wf(),
            ladder.side() == side,
            ladder@ == Map::<u64, LevelState>::empty(),
    {
        let ladder = Ladder { side, rungs: Vec::new() };
        assert(ladder@ =~= Map::<u64, LevelState>::empty());
        ladder
    }

    /// Whether price `p` comes before price `q` here.
    fn is_ahead(&self, p: u64, q: u64) -> (b: bool)
        ensures
            b == ahead(self.side, p, q),
    {
        match self.side {
            Side::Buy => p > q,
            Side::Sell => p < q,
        }
    }

    /// The number of levels at prices ahead of `price`.
    fn position(&self, price: u64) -> (position: usize)
        requires
            self.wf(),
        ensures
            position <= self.rungs.len(),
            forall|j: int| 0 <= j < position ==> ahead(self.side, (#[trigger] self.rungs[j]).price, price),
            forall|j: int|
                position <= j < self.rungs.len() ==> !ahead(
                    self.side,
                    (#[trigger] self.rungs[j]).price,
                    price,
                ),
    {
        let mut low: usize = 0;
        let mut high: usize = self.rungs.len();
        while low < high
            invariant
                self.wf(),
                low <= high <= self.rungs.len(),
                forall|j: int| 0 <= j < low ==> ahead(self.side, (#[trigger] self.rungs[j]).price, price),
                forall|j: int|
                    high <= j < self.rungs.len() ==> !ahead(
                        self.side,
                        (#[trigger] self.rungs[j]).price,
                        price,
                    ),
            decreases high - low,
        {
            let middle: usize = low + (high - low) / 2;
            if self.is_ahead(self.rungs[middle].price, price) {
                low = middle + 1;
            } else {
                high = middle;
            }
        }
        low
    }

    /// The position of the level at `price`, if there is one.
    fn find(&self, price: u64) -> (found: Option<usize>)
        requires
            self.wf(),
        ensures
            match found {
                Some(i) => i < self.rungs.len() && self.rungs[i as int].price == price
                    && self@.contains_key(price) && self@[price] == level_state(
                    self.rungs[i as int].level,
                ),
                None => !self@.contains_key(price),
            },
    {
        let i: usize = self.position(price);
        if i < self.rungs.len() && self.rungs[i].price == price {
            proof {
                lemma_held_at(self.rungs@, self.side, i as int);
            }
            Some(i)
        } else {
            assert(!priced(self.rungs@, price)) by {
                if priced(self.rungs@, price) {
                    let k = rung_at(self.rungs@, price);
                    assert(self.rungs@[k].price == price);
                    assert(!ahead(self.side, self.rungs@[k].price, price));
                    assert(k > i);
                    assert(ahead(self.side, self.rungs@[i as int].price, self.rungs@[k].price));
                }
            }
            None
        }
    }

    /// The price at which matching starts.
    pub(crate) fn best_price(&self) -> (price: Option<u64>)
        requires
            self.wf(),
        ensures
            price == best(self@, self.side()),
    {
        if self.rungs.len() == 0 {
            proof {
                lemma_no_best(self@, self.side);
            }
            None
        } else {
            proof {
                lemma_first_is_best(self.rungs@, self.side);
                lemma_best(self@, self.side, self.rungs@[0].price);
            }
            Some(self.rungs[0].price)
        }
    }

    /// The order `id` at `price`, if it is there.
    pub(crate) fn order(&self, price: u64, id: OrderId) -> (order: Option<Order<()>>)
        requires
            self.wf(),
        ensures
            order == level_at(self@, price).orders.get(id),
    {
        match self.find(price) {
            Some(i) => find_at_level(&self.rungs[i].level, id),
            None => None,
        }
    }

    /// Puts an order to rest at its price, and hands it back as its level keeps it.
    pub(crate) fn add(&mut self, order: &Order<()>) -> (added: Order<()>)
        requires
            old(self).wf(),
            order.side == old(self).side(),
        ensures
            final(self).wf(),
            final(self).side() == old(self).side(),
            final(self)@ == old(self)@.insert(
                order.price,
                level_at(old(self)@, order.price).with_order(order.kept()),
            ),
            added == order.kept(),
    {
        let price: u64 = order.price;
        let ghost before = self.rungs@;
        match self.find(price) {
            Some(i) => {
                let added = add_to_level(&mut self.rungs[i].level, order);
                proof {
                    lemma_held_at(before, self.side, i as int);
                    lemma_change(before, self.side, i as int, self.rungs@[i as int]);
                    assert(self.rungs@ =~= before.update(i as int, self.rungs@[i as int]));
                }
                added
            },
            None => {
                let i: usize = self.position(price);
                let mut level = new_level(price);
                let added = add_to_level(&mut level, order);
                proof {
                    assert forall|j: int| i <= j < before.len() implies ahead(
                        self.side,
                        price,
                        (#[trigger] before[j]).price,
                    ) by {
                        assert(!priced(before, price));
                        assert(before[j].price != price);
                    }
                    lemma_put(before, self.side, i as int, Rung { price, level });
                }
                self.rungs.insert(i, Rung { price, level });
                added
            },
        }
    }

    /// Takes out the level at position `i` if it counts no order.
    fn drop_if_empty(&mut self, i: usize) -> (dropped: bool)
        requires
            old(self).wf(),
            i < old(self).rungs.len(),
        ensures
            final(self).wf(),
            final(self).side() == old(self).side(),
            dropped == (level_state(old(self).rungs[i as int].level).count == 0),
            final(self)@ == settle(
                old(self)@,
                old(self).rungs[i as int].price,
                level_state(old(self).rungs[i as int].level),
            ),
    {
        proof {
            lemma_held_at(self.rungs@, self.side, i as int);
        }
        if level_order_count(&self.rungs[i].level) == 0 {
            proof {
                lemma_drop(self.rungs@, self.side, i as int);
            }
            self.rungs.remove(i);
            true
        } else {
            assert(self@ =~= settle(
                self@,
                self.rungs[i as int].price,
                level_state(self.rungs[i as int].level),
            ));
            false
        }
    }

    /// Takes the order `id` out of the level at `price`, and hands it over if it
    /// was there.
    pub(crate) fn cancel(&mut self, price: u64, id: OrderId) -> (cancelled: Option<Order<()>>)
        requires
            old(self).wf(),
        ensures
            final(self).wf(),
            final(self).side() == old(self).side(),
            cancelled == level_at(old(self)@, price).orders.get(id),
            final(self)@ == match cancelled {
                Some(_) => settle(old(self)@, price, old(self)@[price].without_order(id)),
                None => old(self)@,
            },
    {
        let ghost before = self.rungs@;
        match self.find(price) {
            Some(i) => {
                let cancelled = cancel_at_level(&mut self.rungs[i].level, id);
                proof {
                    lemma_held_at(before, self.side, i as int);
                    lemma_change(before, self.side, i as int, self.rungs@[i as int]);
                    assert(self.rungs@ =~= before.update(i as int, self.rungs@[i as int]));
                }
                match cancelled {
                    Some(_) => {
                        self.drop_if_empty(i);
                        assert(self@ =~= settle(old(self)@, price, old(self)@[price].without_order(id)));
                    },
                    None => {
                        assert(self@ =~= old(self)@);
                    },
                }
                cancelled
            },
            None => None,
        }
    }

    /// Tells the level at `price` to give the order `id` the quantity `q`. Hands
    /// over the order as it is then, if it was there, and whether the level counts
    /// no order and was dropped.
    pub(crate) fn requantify(&mut self, price: u64, id: OrderId, q: u64) -> (result: (
        Option<Order<()>>,
        bool,
    ))
        requires
            old(self).wf(),
        ensures
            final(self).wf(),
            final(self).side() == old(self).side(),
            result.0 == match level_at(old(self)@, price).orders.get(id) {
                Some(order) => Some(requantified(order, q)),
                None => None,
            },
            result.1 == (old(self)@.contains_key(price) && old(self)@[price].count == 0),
            final(self)@ == if old(self)@.contains_key(price) {
                settle(old(self)@, price, old(self)@[price].with_quantity(id, q))
            } else {
                old(self)@
            },
    {
        let ghost before = self.rungs@;
        match self.find(price) {
            Some(i) => {
                let changed = requantify_at_level(&mut self.rungs[i].level, id, q);
                proof {
                    lemma_held_at(before, self.side, i as int);
                    lemma_change(before, self.side, i as int, self.rungs@[i as int]);
                    assert(self.rungs@ =~= before.update(i as int, self.rungs@[i as int]));
                }
                let dropped = self.drop_if_empty(i);
                assert(self@ =~= settle(old(self)@, price, old(self)@[price].with_quantity(id, q)));
                (changed, dropped)
            },
            None => (None, false),
        }
    }

    /// Matches `quantity` of the incoming order `taker` on `side` with what rests
    /// here, at no price beyond `limit`. Hands over the trades, the orders that were
    /// used up, and the quantity that is left.
    pub(crate) fn match_order(
        &mut self,
        taker: OrderId,
        side: Side,
        limit: u64,
        quantity: u64,
        transaction_ids: &UuidGenerator,
    ) -> (result: (Vec<Transaction>, Vec<OrderId>, u64))
        requires
            old(self).wf(),
            old(self).side() == side.other(),
            settled(old(self)@, side, limit, quantity),
        ensures
            final(self).wf(),
            final(self).side() == old(self).side(),
            final(self)@ == sweep(old(self)@, taker, side, limit, quantity).levels,
            trades(result.0@) == sweep(old(self)@, taker, side, limit, quantity).executions,
            result.1@ == sweep(old(self)@, taker, side, limit, quantity).filled,
            result.2 == sweep(old(self)@, taker, side, limit, quantity).remaining,
            volume(trades(result.0@)) + result.2 == quantity,
            result.2 == unmet(quantity, reach(old(self)@, side, limit)),
            forall|k: int|
                0 <= k < result.0.len() ==> genuine(old(self)@, side, (#[trigger] result.0[k])@),
            forall|p: u64| #[trigger] final(self)@.contains_key(p) ==> old(self)@.contains_key(p),
            in_turn(old(self)@, trades(result.0@)),
            line_kept(old(self)@, final(self)@, trades(result.0@)),
            all_counted(old(self)@) ==> squared(old(self)@, final(self)@, trades(result.0@)),
            shrunk(old(self)@, final(self)@),
            forall|k: int|
                0 <= k < result.1.len() ==> gone(old(self)@, final(self)@, #[trigger] result.1[k]),
            enduring(old(self)@, final(self)@),
            all_counted(old(self)@) ==> accounted(old(self)@, final(self)@, result.1@),
            none_empty(old(self)@) ==> none_empty(final(self)@),
            all_counted(old(self)@) ==> all_counted(final(self)@),
            all_counted(old(self)@) && result.2 > 0 ==> forall|p: u64| #[trigger]
                final(self)@.contains_key(p) ==> !crosses(side, limit, p),
    {
        let ghost start = self.rungs@;
        let ghost whole = sweep(held(start), taker, side, limit, quantity);
        let mut transactions: Vec<Transaction> = Vec::new();
        let mut filled: Vec<OrderId> = Vec::new();
        let mut remaining: u64 = quantity;
        let mut i: usize = 0;
        proof {
            assert(start.skip(0) =~= start);
            assert(held(start.take(0)) =~= Map::<u64, LevelState>::empty());
            assert(whole.levels.union_prefer_right(held(start.take(0))) =~= whole.levels);
            assert(trades(transactions@) =~= Seq::<Execution>::empty());
            assert(trades(transactions@) + whole.executions =~= whole.executions);
            assert(filled@ + whole.filled =~= whole.filled);
            assert forall|j: int| 0 <= j < start.len() implies held(start).contains_key(
                (#[trigger] start[j]).price,
            ) && held(start)[start[j].price] == level_state(start[j].level) by {
                lemma_held_at(start, self.side, j);
            }
            assert(all_counted(held(start)) ==> rungs_counted(start)) by {
                if all_counted(held(start)) {
                    assert forall|j: int| 0 <= j < start.len() implies level_state(
                        (#[trigger] start[j]).level,
                    ).counted() by {
                        lemma_held_at(start, self.side, j);
                    }
                }
            }
        }
        while remaining > 0 && i < self.rungs.len() && may_trade(side, limit, self.rungs[i].price)
            invariant
                ordered(self.rungs@, self.side),
                self.side == old(self).side,
                self.side == side.other(),
                i <= self.rungs.len(),
                remaining <= quantity,
                part_done(
                    whole,
                    sweep(held(self.rungs@.skip(i as int)), taker, side, limit, remaining),
                    held(self.rungs@.take(i as int)),
                    trades(transactions@),
                    filled@,
                ),
                volume(trades(transactions@)) + remaining == quantity,
                unmet(quantity, reach(held(start), side, limit)) == unmet(
                    remaining,
                    reach(held(self.rungs@.skip(i as int)), side, limit),
                ),
                settled(held(self.rungs@.skip(i as int)), side, limit, remaining),
                forall|k: int|
                    0 <= k < transactions.len() ==> genuine(
                        held(start),
                        side,
                        (#[trigger] transactions[k])@,
                    ),
                forall|j: int|
                    i <= j < self.rungs.len() ==> held(start).contains_key(
                        (#[trigger] self.rungs[j]).price,
                    ) && held(start)[self.rungs[j].price] == level_state(self.rungs[j].level),
                shrunk(held(start), held(self.rungs@)),
                forall|k: int|
                    0 <= k < filled.len() ==> gone(
                        held(start),
                        held(self.rungs@),
                        #[trigger] filled[k],
                    ),
                forall|k: int, j: int|
                    0 <= k < transactions.len() && i <= j < self.rungs.len() ==> (
                    #[trigger] transactions[k]).price != (#[trigger] self.rungs[j]).price,
                in_turn(held(start), trades(transactions@)),
                line_kept(held(start), held(self.rungs@), trades(transactions@)),
                all_counted(held(start)) ==> squared(
                    held(start),
                    held(self.rungs@),
                    trades(transactions@),
                ),
                enduring(held(start), held(self.rungs@)),
                all_counted(held(start)) ==> accounted(held(start), held(self.rungs@), filled@),
                none_empty(held(start)) ==> forall|j: int|
                    0 <= j < self.rungs.len() ==> level_state((#[trigger] self.rungs[j]).level).count > 0,
                all_counted(held(start)) ==> rungs_counted(self.rungs@),
                all_counted(held(start)) && remaining > 0 ==> i == 0,
            decreases self.rungs.len() - i,
        {
            let ghost before = self.rungs@;
            let ghost had = trades(transactions@);
            let ghost had_filled = filled@;
            let ghost had_transactions = transactions@;
            let ghost left = remaining;
            let ghost p = self.rungs[i as int].price;
            let ghost state = level_state(self.rungs[i as int].level);
            proof {
                lemma_reach_step(before, self.side, i as int, side, limit, remaining);
            }
            let (mut here, mut used_up, unmatched) = level_match_order(
                &mut self.rungs[i].level,
                remaining,
                taker,
                transaction_ids,
            );
            let ghost gained = trades(here@);
            let ghost gained_filled = used_up@;
            let ghost gained_transactions = here@;
            transactions.append(&mut here);
            filled.append(&mut used_up);
            remaining = unmatched;
            let ghost rung = self.rungs@[i as int];
            proof {
                assert(trades(transactions@) =~= had + gained);
                lemma_volume_sum(had, gained);
                lemma_volume_positive(gained);
                assert(self.rungs@ =~= before.update(i as int, rung));
                lemma_change(before, self.side, i as int, rung);
                lemma_sweep_step(before, self.side, i as int, taker, side, limit, left);
                let rest = sweep(held(before.skip(i + 1)), taker, side, limit, remaining);
                assert(had + (gained + rest.executions) =~= had + gained + rest.executions);
                assert(had_filled + (gained_filled + rest.filled) =~= filled@ + rest.filled);
            }
            let ghost changed = self.rungs@;
            proof {
                lemma_held_at(before, self.side, i as int);
                assert(shrunk(held(before), held(changed)));
                assert forall|k: int| 0 <= k < transactions.len() implies genuine(
                    held(start),
                    side,
                    (#[trigger] transactions[k])@,
                ) by {
                    if k < had_transactions.len() {
                        assert(transactions[k] == had_transactions[k]);
                    } else {
                        let m = k - had_transactions.len();
                        assert(transactions[k] == gained_transactions[m]);
                        assert(gained[m] == gained_transactions[m]@);
                        assert(rests(held(start), p, gained_transactions[m].maker_order_id));
                    }
                }
                assert forall|k: int| 0 <= k < had.len() implies (#[trigger] had[k]).price != p by {
                    assert(had[k] == had_transactions[k]@);
                    assert(had_transactions[k].price != before[i as int].price);
                }
                assert forall|k: int| 0 <= k < gained.len() implies (#[trigger] gained[k]).price == p by {}
                assert(in_turn(held(start), gained)) by {
                    assert forall|k: int, a: OrderId|
                        0 <= k < gained.len() && rests(held(start), gained[k].price, a) && held(
                            start,
                        )[gained[k].price].orders[a].kind.visible() > 0
                            && #[trigger] ahead_in_line(
                            held(start)[gained[k].price].queue,
                            a,
                            gained[k].maker,
                        ) implies exists|j: int|
                        0 <= j < k && #[trigger] gained[j].price == gained[k].price
                            && gained[j].maker == a && gained[j].quantity == held(
                            start,
                        )[gained[k].price].orders[a].kind.visible() by {
                        assert(gained[k] == gained_transactions[k]@);
                        let j = choose|j: int|
                            0 <= j < k && (#[trigger] gained_transactions[j]).maker_order_id == a
                                && gained_transactions[j].quantity == state.orders[a].kind.visible();
                        assert(gained[j] == gained_transactions[j]@);
                    }
                }
                lemma_match_at(
                    held(start),
                    held(before),
                    p,
                    level_state(rung.level),
                    had,
                    gained,
                );
                assert forall|k: int, j: int|
                    0 <= k < transactions.len() && i < j < changed.len() implies (
                #[trigger] transactions[k]).price != (#[trigger] changed[j]).price by {
                    assert(changed[j] == before[j]);
                    if k < had_transactions.len() {
                        assert(transactions[k] == had_transactions[k]);
                    } else {
                        let m = k - had_transactions.len();
                        assert(transactions[k] == gained_transactions[m]);
                        assert(gained[m] == gained_transactions[m]@);
                        assert(before[i as int].price == p);
                    }
                }
                assert(enduring(held(start), held(changed))) by {
                    assert forall|q: u64, id: OrderId| #[trigger]
                        rests(held(changed), q, id) && lasting(
                            held(start)[q].orders[id].kind,
                        ) implies lasting(held(changed)[q].orders[id].kind) by {
                        assert(rests(held(before), q, id));
                    }
                }
                if all_counted(held(start)) {
                    assert forall|q: u64, id: OrderId| #[trigger]
                        rests(held(start), q, id) && held(start)[q].orders[id].kind.visible() > 0
                            && !rests(held(changed), q, id) implies filled@.contains(id) by {
                        if q == p {
                            assert(gained_filled.contains(id));
                            let k = choose|k: int|
                                0 <= k < gained_filled.len() && gained_filled[k] == id;
                            assert(filled@[had_filled.len() + k] == id);
                        } else {
                            assert(!rests(held(before), q, id));
                            let k = choose|k: int| 0 <= k < had_filled.len() && had_filled[k] == id;
                            assert(filled@[k] == id);
                        }
                    }
                }
                assert forall|k: int| 0 <= k < filled.len() implies gone(
                    held(start),
                    held(changed),
                    #[trigger] filled[k],
                ) by {
                    if k < had_filled.len() {
                        assert(filled[k] == had_filled[k]);
                        lemma_gone_later(held(start), held(before), held(changed), filled[k]);
                    } else {
                        assert(filled[k] == gained_filled[k - had_filled.len()]);
                        assert(rests(held(start), p, filled[k]));
                        assert(!rests(held(changed), p, filled[k]));
                    }
                }
            }
            if level_order_count(&self.rungs[i].level) == 0 {
                proof {
                    lemma_drop(self.rungs@, self.side, i as int);
                }
                self.rungs.remove(i);
                proof {
                    assert(self.rungs@.skip(i as int) =~= before.skip(i + 1));
                    assert(self.rungs@.take(i as int) =~= before.take(i as int));
                    assert forall|j: int| i <= j < self.rungs.len() implies #[trigger] self.rungs[j]
                        == before[j + 1] by {}
                    assert forall|j: int| 0 <= j < i implies #[trigger] self.rungs[j] == before[j] by {}
                    assert(shrunk(held(changed), held(self.rungs@)));
                    if all_counted(held(start)) {
                        lemma_held_at(changed, self.side, i as int);
                        assert(level_state(changed[i as int].level).counted());
                        assert(level_state(rung.level).orders.dom() =~= Set::empty());
                        assert forall|q: u64, id: OrderId| rests(held(changed), q, id) implies rests(
                            held(self.rungs@),
                            q,
                            id,
                        ) by {}
                    }
                    assert forall|k: int| 0 <= k < filled.len() implies gone(
                        held(start),
                        held(self.rungs@),
                        #[trigger] filled[k],
                    ) by {
                        lemma_gone_later(held(start), held(changed), held(self.rungs@), filled[k]);
                    }
                }
            } else {
                proof {
                    assert(self.rungs@.skip(i + 1) =~= before.skip(i + 1));
                    assert(self.rungs@.take(i + 1) =~= before.take(i as int).insert(i as int, rung));
                    assert(ordered(before.take(i as int), self.side));
                    lemma_put(before.take(i as int), self.side, i as int, rung);
                    assert(!priced(before.take(i as int), p));
                    let rest = sweep(
                        held(before.skip(i + 1)),
                        taker,
                        side,
                        limit,
                        remaining,
                    );
                    assert(rest.levels.insert(p, level_state(rung.level)).union_prefer_right(
                        held(before.take(i as int)),
                    ) =~= rest.levels.union_prefer_right(held(self.rungs@.take(i + 1))));
                }
                i += 1;
            }
        }
        proof {
            let rungs = self.rungs@;
            lemma_held_finite(rungs.skip(i as int));
            if i < rungs.len() {
                assert(ordered(rungs.skip(i as int), self.side));
                lemma_first_is_best(rungs.skip(i as int), self.side);
                lemma_best(held(rungs.skip(i as int)), self.side, rungs.skip(i as int)[0].price);
            } else {
                lemma_no_best(held(rungs.skip(i as int)), self.side);
            }
            lemma_halves(rungs, self.side, i as int);
            lemma_held_finite(start);
            assert forall|p: u64| #[trigger] self@.contains_key(p) implies old(self)@.contains_key(p) by {
                lemma_sweep_prices(held(start), taker, side, limit, quantity, p);
            }
        }
        (transactions, filled, remaining)
    }
}

impl Ladder {
    /// How much of `quantity` of an incoming order on `side` the orders here could
    /// fill, at no price beyond `limit`. Nothing is changed.
    pub(crate) fn available(&self, side: Side, limit: u64, quantity: u64) -> (available: u64)
        requires
            self.wf(),
            self.side() == side.other(),
        ensures
            available == lesser(quantity as int, reach(self@, side, limit) as int),
    {
        let rungs = &self.rungs;
        let mut found: u64 = 0;
        let mut i: usize = 0;
        proof {
            assert(rungs@.skip(0) =~= rungs@);
        }
        while found < quantity && i < rungs.len() && may_trade(side, limit, rungs[i].price)
            invariant
                ordered(rungs@, self.side),
                self.side == side.other(),
                i <= rungs.len(),
                found <= quantity,
                lesser(quantity as int, reach(held(rungs@), side, limit) as int) == lesser(
                    quantity as int,
                    found + reach(held(rungs@.skip(i as int)), side, limit),
                ),
            decreases rungs.len() - i,
        {
            proof {
                lemma_reach_step(rungs@, self.side, i as int, side, limit, quantity);
            }
            found = found + level_supply(&rungs[i].level, quantity - found);
            i += 1;
        }
        proof {
            if found < quantity {
                lemma_reach_end(rungs@, self.side, i as int, side, limit);
            }
        }
        found
    }

    /// Whether `quantity` of an incoming order on `side` with the limit price `limit` can
    /// be matched with what it comes to here.
    pub(crate) fn settles(&self, side: Side, limit: u64, quantity: u64) -> (b: bool)
        requires
            self.wf(),
            self.side() == side.other(),
        ensures
            b == settled(self@, side, limit, quantity),
    {
        let rungs = &self.rungs;
        let mut remaining: u64 = quantity;
        let mut i: usize = 0;
        proof {
            assert(rungs@.skip(0) =~= rungs@);
        }
        while remaining > 0 && i < rungs.len() && may_trade(side, limit, rungs[i].price)
            invariant
                rungs@ == self.rungs@,
                ordered(rungs@, self.side),
                self.side == side.other(),
                i <= rungs.len(),
                settled(held(rungs@), side, limit, quantity) == settled(
                    held(rungs@.skip(i as int)),
                    side,
                    limit,
                    remaining,
                ),
            decreases rungs.len() - i,
        {
            proof {
                lemma_reach_step(rungs@, self.side, i as int, side, limit, remaining);
            }
            if !level_settles(&rungs[i].level, remaining) {
                return false;
            }
            remaining = remaining - level_supply(&rungs[i].level, remaining);
            i += 1;
        }
        proof {
            lemma_held_finite(rungs@.skip(i as int));
            if remaining > 0 {
                lemma_reach_end(rungs@, self.side, i as int, side, limit);
            }
        }
        true
    }
}

/// Whether an incoming order on `side` with the limit price `limit` may trade at
/// `price`.
pub(crate) fn may_trade(side: Side, limit: u64, price: u64) -> (b: bool)
    ensures
        b == crosses(side, limit, price),
{
    match side {
        Side::Buy => price <= limit,
        Side::Sell => price >= limit,
    }
}

} // verus!
