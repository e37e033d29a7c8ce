# orderbook

A limit order book for one instrument, verified with Verus.

Orders are added, matched against what rests on the other side, changed and cancelled. A price
level is kept by the `pricelevel` crate; the book around it is proved correct against a model of
what each request does.

- `src/order.rs`, `src/quantity.rs`: orders and their quantities.
- `src/level.rs`: what a price level holds and what the operations of the `pricelevel` crate do to
  it. This is what the proofs take on trust, beside two types of that crate that `src/order.rs`
  carries unread.
- `src/sweep.rs`: what an incoming order finds on the other side of the book.
- `src/ladder.rs`, `src/locations.rs`: one side of the book, and where each order rests.
- `src/model.rs`: the book as a mathematical value, and what each request does to it.
- `src/book.rs`, `src/book/modifications.rs`: the book itself.
- `src/laws.rs`: what holds of the book whatever is asked of it.
- `app/`: a book that several threads share, with a clock, a log and a listener for trades.

Quantities, prices and times are unsigned 64-bit integers. `try_add_order` and `try_update_order`
may be called with any order; `add_order` and `update_order` ask that the order can be matched with
what it meets, which `can_add` tells.
