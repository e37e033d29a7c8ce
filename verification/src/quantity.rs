//! The quantities of an order, and how they change.

use crate::order::{Order, OrderKind};
use vstd::prelude::*;

verus! {

/// The smaller of two quantities.
pub open spec fn lesser(a: int, b: int) -> int {
    if a <= b {
        a
    } else {
        b
    }
}

/// The quantity left in a reserve order of `visible` and `hidden` when its total
/// is brought down to `target`, as what it shows and what it hides. The visible
/// part is used up first. Once it is gone, `refill` comes out of hiding, or all
/// of the hidden part where that is less.
pub open spec fn reserve_left(visible: int, hidden: int, refill: int, target: int) -> (int, int) {
    let kept = lesser(visible + hidden, target);
    let still_hidden = lesser(hidden, kept);
    if kept == still_hidden && still_hidden > 0 {
        (lesser(refill, still_hidden), still_hidden - lesser(refill, still_hidden))
    } else {
        (kept - still_hidden, still_hidden)
    }
}

impl OrderKind {
    /// The order after its quantity was set to `target`. A reserve order is
    /// brought down to that total; every other order shows that quantity.
    pub open spec fn resized(self, target: u64) -> OrderKind {
        match self {
            OrderKind::ReserveOrder {
                visible_quantity,
                hidden_quantity,
                replenish_threshold,
                replenish_amount,
                auto_replenish,
            } => {
                let refill = match replenish_amount {
                    Some(amount) => amount as int,
                    None => 0,
                };
                let left = reserve_left(
                    visible_quantity as int,
                    hidden_quantity as int,
                    refill,
                    target as int,
                );
                OrderKind::ReserveOrder {
                    visible_quantity: left.0 as u64,
                    hidden_quantity: left.1 as u64,
                    replenish_threshold,
                    replenish_amount,
                    auto_replenish,
                }
            },
            _ => self.showing(target),
        }
    }

    /// What is left of the order when all but `remaining` of it was traded. An iceberg
    /// order goes on to show what it showed, or all that is left where that is less.
    pub open spec fn remainder(self, remaining: u64) -> OrderKind {
        match self {
            OrderKind::IcebergOrder { visible_quantity, .. } => {
                let visible = lesser(visible_quantity as int, remaining as int);
                OrderKind::IcebergOrder {
                    visible_quantity: visible as u64,
                    hidden_quantity: (remaining - visible) as u64,
                }
            },
            _ => self.resized(remaining),
        }
    }
}

/// Access to the quantities of an order, whatever its kind.
pub trait OrderQuantity<T = ()>: Sized {
    /// The quantity that the order shows.
    spec fn shown(self) -> u64;

    /// The quantity that the order shows and the quantity that it hides, together.
    spec fn whole(self) -> int;

    /// Whether setting the quantity needs the total to fit in a machine word.
    spec fn sums_on_resize(self) -> bool;

    /// The order with its quantity set to `target`.
    spec fn with_target(self, target: u64) -> Self;

    /// The quantity that the order shows. Of an iceberg order this is the
    /// visible part.
    fn quantity(&self) -> (q: u64)
        ensures
            q == self.shown(),
    ;

    /// The whole quantity of the order, visible and hidden.
    fn total_quantity(&self) -> (q: u64)
        requires
            self.whole() <= u64::MAX,
        ensures
            q == self.whole(),
    ;

    /// Sets the quantity of the order, by the rule of its kind.
    fn set_quantity(&mut self, new_total_quantity: u64)
        requires
            old(self).sums_on_resize() ==> old(self).whole() <= u64::MAX,
        ensures
            *final(self) == old(self).with_target(new_total_quantity),
    ;
}

impl<T> OrderQuantity<T> for Order<T> {
    open spec fn shown(self) -> u64 {
        self.kind.visible()
    }

    open spec fn whole(self) -> int {
        self.kind.total()
    }

    open spec fn sums_on_resize(self) -> bool {
        self.kind is ReserveOrder
    }

    open spec fn with_target(self, target: u64) -> Self {
        Order { kind: self.kind.resized(target), ..self }
    }

    fn quantity(&self) -> (q: u64) {
        match self.kind {
            OrderKind::Market { quantity } => quantity,
            OrderKind::Standard { quantity } => quantity,
            OrderKind::IcebergOrder { visible_quantity, .. } => visible_quantity,
            OrderKind::PostOnly { quantity } => quantity,
            OrderKind::TrailingStop { quantity, .. } => quantity,
            OrderKind::PeggedOrder { quantity, .. } => quantity,
            OrderKind::MarketToLimit { quantity } => quantity,
            OrderKind::ReserveOrder { visible_quantity, .. } => visible_quantity,
        }
    }

    fn total_quantity(&self) -> (q: u64) {
        match self.kind {
            OrderKind::Market { quantity } => quantity,
            OrderKind::Standard { quantity } => quantity,
            OrderKind::IcebergOrder { visible_quantity, hidden_quantity } => visible_quantity
                + hidden_quantity,
            OrderKind::PostOnly { quantity } => quantity,
            OrderKind::TrailingStop { quantity, .. } => quantity,
            OrderKind::PeggedOrder { quantity, .. } => quantity,
            OrderKind::MarketToLimit { quantity } => quantity,
            OrderKind::ReserveOrder { visible_quantity, hidden_quantity, .. } => visible_quantity
                + hidden_quantity,
        }
    }

    fn set_quantity(&mut self, new_total_quantity: u64) {
        match self.kind {
            OrderKind::ReserveOrder {
                visible_quantity,
                hidden_quantity,
                replenish_threshold,
                replenish_amount,
                auto_replenish,
            } => {
                let original_total: u64 = visible_quantity + hidden_quantity;
                let amount_to_reduce: u64 = original_total.saturating_sub(new_total_quantity);
                let filled_from_visible: u64 = if amount_to_reduce <= visible_quantity {
                    amount_to_reduce
                } else {
                    visible_quantity
                };
                let mut visible: u64 = visible_quantity - filled_from_visible;
                let remaining_to_reduce: u64 = amount_to_reduce - filled_from_visible;
                let mut hidden: u64 = hidden_quantity.saturating_sub(remaining_to_reduce);
                if visible == 0 && hidden > 0 {
                    let amount: u64 = match replenish_amount {
                        Some(amount) => amount,
                        None => 0,
                    };
                    let refresh: u64 = if amount <= hidden {
                        amount
                    } else {
                        hidden
                    };
                    visible = refresh;
                    hidden = hidden - refresh;
                }
                self.kind = OrderKind::ReserveOrder {
                    visible_quantity: visible,
                    hidden_quantity: hidden,
                    replenish_threshold,
                    replenish_amount,
                    auto_replenish,
                };
            },
            _ => {
                self.kind = self.kind.with_visible(new_total_quantity);
            },
        }
    }
}

impl<T> Order<T> {
    /// The order when all but `remaining` of it was traded.
    pub open spec fn reduced(self, remaining: u64) -> Order<T> {
        Order { kind: self.kind.remainder(remaining), ..self }
    }

    /// Reduces the order to what is left of it when all but `remaining` was traded.
    pub fn reduce_to(&mut self, remaining: u64)
        requires
            old(self).kind.total() <= u64::MAX,
        ensures
            *final(self) == old(self).reduced(remaining),
    {
        match self.kind {
            OrderKind::IcebergOrder { visible_quantity, .. } => {
                let visible: u64 = if visible_quantity <= remaining {
                    visible_quantity
                } else {
                    remaining
                };
                self.kind = OrderKind::IcebergOrder {
                    visible_quantity: visible,
                    hidden_quantity: remaining - visible,
                };
            },
            _ => self.set_quantity(remaining),
        }
    }
}

} // verus!
