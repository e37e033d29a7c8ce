//! Changing and cancelling orders in the book.

use orderbook::book::OrderBook;
use orderbook::error::OrderBookError;
use orderbook::order::{Order, OrderKind, OrderUpdate, Side, TimeInForce};
use pricelevel::{OrderId, UuidGenerator};
use uuid::Uuid;

fn empty_book() -> OrderBook<u32> {
    OrderBook::new("TEST".to_string(), UuidGenerator::new(Uuid::from_u128(2)))
}

fn id(n: u64) -> OrderId {
    OrderId::from_u64(n)
}

fn order(n: u64, side: Side, price: u64, kind: OrderKind) -> Order<u32> {
    Order {
        id: id(n),
        price,
        side,
        timestamp: n,
        time_in_force: TimeInForce::Gtc,
        kind,
        extra_fields: 0,
    }
}

fn limit(n: u64, side: Side, price: u64, quantity: u64) -> Order<u32> {
    order(n, side, price, OrderKind::Standard { quantity })
}

fn found(book: &OrderBook<u32>, n: u64) -> Option<Order<u32>> {
    book.get_order(id(n)).map(|order| *order)
}

#[test]
fn cancelling_hands_the_order_back_and_takes_it_out() {
    let mut book = empty_book();
    book.add_order(limit(1, Side::Buy, 100, 10)).unwrap();
    book.add_order(limit(2, Side::Buy, 100, 20)).unwrap();
    let cancelled = book.cancel_order(id(1)).unwrap().unwrap();
    assert_eq!(*cancelled, limit(1, Side::Buy, 100, 10));
    assert_eq!(found(&book, 1), None);
    assert_eq!(found(&book, 2), Some(limit(2, Side::Buy, 100, 20)));
    assert_eq!(book.best_bid(), Some(100));
    assert_eq!(book.peek_match(Side::Sell, 100, 100), 20);
}

#[test]
fn the_last_order_takes_its_level_with_it() {
    let mut book = empty_book();
    book.add_order(limit(1, Side::Sell, 100, 10)).unwrap();
    book.add_order(limit(2, Side::Sell, 105, 10)).unwrap();
    book.cancel_order(id(1)).unwrap();
    assert_eq!(book.best_ask(), Some(105));
    book.cancel_order(id(2)).unwrap();
    assert_eq!(book.best_ask(), None);
}

#[test]
fn cancelling_twice_does_nothing_more() {
    let mut book = empty_book();
    book.add_order(limit(1, Side::Buy, 100, 10)).unwrap();
    assert!(book.cancel_order(id(1)).unwrap().is_some());
    assert!(book.cancel_order(id(1)).unwrap().is_none());
    assert!(book.cancel_order(id(99)).unwrap().is_none());
}

#[test]
fn cancelling_through_an_update_is_cancelling() {
    let mut book = empty_book();
    book.add_order(limit(1, Side::Buy, 100, 10)).unwrap();
    let cancelled = book.update_order(OrderUpdate::Cancel { order_id: id(1) }).unwrap().unwrap();
    assert_eq!(*cancelled, limit(1, Side::Buy, 100, 10));
    assert_eq!(found(&book, 1), None);
    assert_eq!(book.best_bid(), None);
    assert!(book.update_order(OrderUpdate::Cancel { order_id: id(1) }).unwrap().is_none());
}

#[test]
fn an_update_of_an_unknown_order_does_nothing() {
    let mut book = empty_book();
    book.add_order(limit(1, Side::Buy, 100, 10)).unwrap();
    let updates = vec![
        OrderUpdate::UpdatePrice { order_id: id(9), new_price: 100 },
        OrderUpdate::UpdateQuantity { order_id: id(9), new_quantity: 1 },
        OrderUpdate::UpdatePriceAndQuantity { order_id: id(9), new_price: 5, new_quantity: 1 },
        OrderUpdate::Cancel { order_id: id(9) },
        OrderUpdate::Replace { order_id: id(9), price: 5, quantity: 1, side: Side::Sell },
    ];
    for update in updates {
        assert!(book.update_order(update).unwrap().is_none());
    }
    assert_eq!(found(&book, 1), Some(limit(1, Side::Buy, 100, 10)));
}

#[test]
fn an_order_moves_to_its_new_price() {
    let mut book = empty_book();
    book.add_order(limit(1, Side::Buy, 100, 10)).unwrap();
    let update = OrderUpdate::UpdatePrice { order_id: id(1), new_price: 95 };
    let moved = book.update_order(update).unwrap().unwrap();
    assert_eq!(*moved, limit(1, Side::Buy, 95, 10));
    assert_eq!(found(&book, 1), Some(limit(1, Side::Buy, 95, 10)));
    assert_eq!(book.best_bid(), Some(95));
}

#[test]
fn moving_an_order_to_its_own_price_is_refused() {
    let mut book = empty_book();
    book.add_order(limit(1, Side::Buy, 100, 10)).unwrap();
    let update = OrderUpdate::UpdatePrice { order_id: id(1), new_price: 100 };
    assert_eq!(
        book.update_order(update).unwrap_err(),
        OrderBookError::InvalidOperation {
            message: "Cannot update price to the same value".to_string()
        }
    );
    assert_eq!(found(&book, 1), Some(limit(1, Side::Buy, 100, 10)));
}

#[test]
fn an_order_that_moves_across_the_market_trades() {
    let mut book = empty_book();
    book.set_listening(true);
    book.add_order(limit(1, Side::Sell, 100, 4)).unwrap();
    book.add_order(limit(2, Side::Buy, 90, 10)).unwrap();
    let update = OrderUpdate::UpdatePrice { order_id: id(2), new_price: 100 };
    let moved = book.update_order(update).unwrap().unwrap();
    assert_eq!(*moved, limit(2, Side::Buy, 100, 6));
    assert_eq!(found(&book, 1), None);
    assert_eq!(book.take_trades().len(), 1);
}

#[test]
fn an_order_whose_move_is_refused_is_lost() {
    let mut book = empty_book();
    book.add_order(limit(1, Side::Sell, 100, 4)).unwrap();
    book.add_order(order(2, Side::Buy, 90, OrderKind::PostOnly { quantity: 10 })).unwrap();
    let update = OrderUpdate::UpdatePrice { order_id: id(2), new_price: 100 };
    assert_eq!(
        book.update_order(update).unwrap_err(),
        OrderBookError::PriceCrossing { price: 100, side: Side::Buy, opposite_price: 100 }
    );
    assert_eq!(found(&book, 2), None);
    assert_eq!(found(&book, 1), Some(limit(1, Side::Sell, 100, 4)));
}

#[test]
fn an_order_is_given_another_quantity_where_it_is() {
    let mut book = empty_book();
    book.add_order(limit(1, Side::Buy, 100, 10)).unwrap();
    let update = OrderUpdate::UpdateQuantity { order_id: id(1), new_quantity: 25 };
    let changed = book.update_order(update).unwrap().unwrap();
    assert_eq!(*changed, limit(1, Side::Buy, 100, 25));
    assert_eq!(found(&book, 1), Some(limit(1, Side::Buy, 100, 25)));
    assert_eq!(book.peek_match(Side::Sell, 100, 100), 25);
}

#[test]
fn levels_change_the_quantity_of_some_kinds_only() {
    let mut book = empty_book();
    let iceberg = |visible_quantity| OrderKind::IcebergOrder { visible_quantity, hidden_quantity: 9 };
    let stop = |quantity| OrderKind::TrailingStop { quantity, trail_amount: 1, last_reference_price: 2 };
    book.add_order(order(1, Side::Buy, 101, iceberg(5))).unwrap();
    book.add_order(order(2, Side::Buy, 102, OrderKind::PostOnly { quantity: 5 })).unwrap();
    book.add_order(order(3, Side::Buy, 103, stop(5))).unwrap();
    book.add_order(order(4, Side::Buy, 104, OrderKind::Market { quantity: 5 })).unwrap();
    for n in 1..=4 {
        let update = OrderUpdate::UpdateQuantity { order_id: id(n), new_quantity: 8 };
        let changed = book.update_order(update).unwrap().unwrap();
        assert_eq!(Some(*changed), found(&book, n));
    }
    assert_eq!(found(&book, 1).unwrap().kind, iceberg(8));
    assert_eq!(found(&book, 2).unwrap().kind, OrderKind::PostOnly { quantity: 8 });
    assert_eq!(found(&book, 3).unwrap().kind, stop(5));
    assert_eq!(found(&book, 4).unwrap().kind, OrderKind::Market { quantity: 8 });
}

#[test]
fn an_order_with_another_quantity_keeps_its_turn() {
    let mut book = empty_book();
    book.set_listening(true);
    book.add_order(limit(1, Side::Sell, 100, 5)).unwrap();
    book.add_order(limit(2, Side::Sell, 100, 5)).unwrap();
    book.update_order(OrderUpdate::UpdateQuantity { order_id: id(1), new_quantity: 8 }).unwrap();
    book.add_order(limit(3, Side::Buy, 100, 3)).unwrap();
    let reports = book.take_trades();
    assert_eq!(reports[0].match_result.transactions[0].maker_order_id, id(1));
    assert_eq!(found(&book, 1).unwrap().kind, OrderKind::Standard { quantity: 5 });
}

#[test]
fn an_order_moves_and_takes_another_quantity() {
    let mut book = empty_book();
    book.add_order(limit(1, Side::Sell, 100, 10)).unwrap();
    let update =
        OrderUpdate::UpdatePriceAndQuantity { order_id: id(1), new_price: 110, new_quantity: 3 };
    let moved = book.update_order(update).unwrap().unwrap();
    assert_eq!(*moved, limit(1, Side::Sell, 110, 3));
    assert_eq!(found(&book, 1), Some(limit(1, Side::Sell, 110, 3)));
    assert_eq!(book.best_ask(), Some(110));
}

#[test]
fn a_reserve_order_moves_with_its_total_brought_down() {
    let reserve = |visible_quantity, hidden_quantity| OrderKind::ReserveOrder {
        visible_quantity,
        hidden_quantity,
        replenish_threshold: 1,
        replenish_amount: Some(4),
        auto_replenish: true,
    };
    let mut book = empty_book();
    book.add_order(order(1, Side::Sell, 100, reserve(5, 20))).unwrap();
    let update =
        OrderUpdate::UpdatePriceAndQuantity { order_id: id(1), new_price: 110, new_quantity: 12 };
    let moved = book.update_order(update).unwrap().unwrap();
    assert_eq!(*moved, order(1, Side::Sell, 110, reserve(4, 8)));
}

#[test]
fn moving_with_a_quantity_may_stay_at_the_price() {
    let mut book = empty_book();
    book.add_order(limit(1, Side::Sell, 100, 10)).unwrap();
    let update =
        OrderUpdate::UpdatePriceAndQuantity { order_id: id(1), new_price: 100, new_quantity: 3 };
    assert_eq!(*book.update_order(update).unwrap().unwrap(), limit(1, Side::Sell, 100, 3));
}

#[test]
fn an_order_is_replaced_on_the_other_side() {
    let mut book = empty_book();
    book.add_order(limit(1, Side::Buy, 100, 10)).unwrap();
    let update =
        OrderUpdate::Replace { order_id: id(1), price: 120, quantity: 7, side: Side::Sell };
    let replaced = book.update_order(update).unwrap().unwrap();
    assert_eq!(*replaced, limit(1, Side::Sell, 120, 7));
    assert_eq!(book.best_bid(), None);
    assert_eq!(book.best_ask(), Some(120));
    assert_eq!(found(&book, 1), Some(limit(1, Side::Sell, 120, 7)));
}

#[test]
fn replacing_changes_what_an_order_shows_and_not_what_it_hides() {
    let mut book = empty_book();
    let iceberg = |visible_quantity| OrderKind::IcebergOrder { visible_quantity, hidden_quantity: 9 };
    let reserve = |visible_quantity| OrderKind::ReserveOrder {
        visible_quantity,
        hidden_quantity: 9,
        replenish_threshold: 1,
        replenish_amount: None,
        auto_replenish: false,
    };
    book.add_order(order(1, Side::Buy, 100, iceberg(5))).unwrap();
    book.add_order(order(2, Side::Buy, 100, reserve(5))).unwrap();
    for n in 1..=2 {
        let update = OrderUpdate::Replace { order_id: id(n), price: 90, quantity: 7, side: Side::Buy };
        book.update_order(update).unwrap().unwrap();
    }
    assert_eq!(found(&book, 1), Some(order(1, Side::Buy, 90, iceberg(7))));
    assert_eq!(found(&book, 2), Some(order(2, Side::Buy, 90, reserve(7))));
}

#[test]
fn a_replacement_that_is_filled_comes_back_as_it_was_made() {
    let mut book = empty_book();
    book.add_order(limit(1, Side::Sell, 100, 10)).unwrap();
    book.add_order(limit(2, Side::Buy, 90, 3)).unwrap();
    let update =
        OrderUpdate::Replace { order_id: id(2), price: 100, quantity: 4, side: Side::Buy };
    assert_eq!(*book.update_order(update).unwrap().unwrap(), limit(2, Side::Buy, 100, 4));
    assert_eq!(found(&book, 2), None);
    assert_eq!(found(&book, 1), Some(limit(1, Side::Sell, 100, 6)));
}

#[test]
fn every_resting_order_can_be_cancelled() {
    let mut book = empty_book();
    for n in 1..=8u64 {
        book.add_order(limit(n, Side::Buy, 90 + n % 3, n)).unwrap();
        book.add_order(limit(100 + n, Side::Sell, 100 + n % 3, n)).unwrap();
    }
    book.add_order(limit(50, Side::Buy, 101, 20)).unwrap();
    book.update_order(OrderUpdate::UpdatePrice { order_id: id(3), new_price: 80 }).unwrap();
    let mut left = 0;
    for n in 1..=200u64 {
        if let Some(order) = found(&book, n) {
            assert_eq!(order.id, id(n));
            assert_eq!(*book.cancel_order(id(n)).unwrap().unwrap(), order);
            left += 1;
        }
    }
    assert!(left > 8);
    assert_eq!(book.best_bid(), None);
    assert_eq!(book.best_ask(), None);
}

#[test]
fn an_update_that_cannot_be_carried_through_takes_the_order_out() {
    let mut book = empty_book();
    let empty_iceberg = OrderKind::IcebergOrder { visible_quantity: 0, hidden_quantity: 5 };
    book.add_order(order(1, Side::Sell, 100, empty_iceberg)).unwrap();
    book.add_order(limit(2, Side::Buy, 90, 10)).unwrap();
    let update = OrderUpdate::UpdatePrice { order_id: id(2), new_price: 100 };
    assert!(book.try_update_order(update).is_none());
    assert_eq!(found(&book, 2), None);
    assert_eq!(found(&book, 1), Some(order(1, Side::Sell, 100, empty_iceberg)));
}

#[test]
fn an_update_that_can_be_carried_through_is() {
    let mut book = empty_book();
    book.add_order(limit(1, Side::Buy, 90, 10)).unwrap();
    let update = OrderUpdate::UpdatePrice { order_id: id(1), new_price: 95 };
    assert_eq!(*book.try_update_order(update).unwrap().unwrap().unwrap(), limit(1, Side::Buy, 95, 10));
    assert!(book.try_update_order(update).unwrap().is_err());
    let update = OrderUpdate::UpdateQuantity { order_id: id(1), new_quantity: 2 };
    assert_eq!(*book.try_update_order(update).unwrap().unwrap().unwrap(), limit(1, Side::Buy, 95, 2));
    let update = OrderUpdate::Cancel { order_id: id(1) };
    assert!(book.try_update_order(update).unwrap().unwrap().is_some());
    assert!(book.try_update_order(update).unwrap().unwrap().is_none());
}

#[test]
fn a_move_that_is_filled_before_it_comes_to_an_iceberg_showing_nothing_is_made() {
    let mut book = empty_book();
    book.add_order(limit(1, Side::Sell, 100, 10)).unwrap();
    let iceberg = |visible_quantity| OrderKind::IcebergOrder { visible_quantity, hidden_quantity: 5 };
    book.add_order(order(2, Side::Sell, 101, iceberg(1))).unwrap();
    book.update_order(OrderUpdate::UpdateQuantity { order_id: id(2), new_quantity: 0 }).unwrap();
    assert_eq!(found(&book, 2).unwrap().kind, iceberg(0));
    book.add_order(limit(3, Side::Buy, 90, 5)).unwrap();
    let update = OrderUpdate::UpdatePrice { order_id: id(3), new_price: 105 };
    let moved = book.try_update_order(update).unwrap().unwrap().unwrap();
    assert_eq!(*moved, limit(3, Side::Buy, 105, 5));
    assert_eq!(found(&book, 3), None);
    assert_eq!(found(&book, 1), Some(limit(1, Side::Sell, 100, 5)));
}

#[test]
fn cancelling_what_was_just_added_restores_the_book() {
    let mut book = empty_book();
    book.add_order(limit(1, Side::Buy, 100, 10)).unwrap();
    for (n, price) in [(2, 100), (3, 99), (4, 101)] {
        let added = book.add_order(limit(n, Side::Buy, price, 7)).unwrap();
        assert_eq!(*book.cancel_order(id(n)).unwrap().unwrap(), *added);
        assert_eq!(found(&book, n), None);
        assert_eq!(book.best_bid(), Some(100));
        assert_eq!(book.peek_match(Side::Sell, 100, 1), 10);
    }
}

#[test]
fn moving_and_replacing_are_cancelling_then_adding() {
    let fill = |book: &mut OrderBook<u32>| {
        book.add_order(limit(1, Side::Sell, 100, 4)).unwrap();
        book.add_order(limit(2, Side::Buy, 90, 10)).unwrap();
        book.add_order(limit(3, Side::Buy, 80, 5)).unwrap();
    };
    let cases = vec![
        (
            OrderUpdate::UpdatePrice { order_id: id(2), new_price: 100 },
            limit(2, Side::Buy, 100, 10),
        ),
        (
            OrderUpdate::UpdatePriceAndQuantity { order_id: id(2), new_price: 90, new_quantity: 6 },
            limit(2, Side::Buy, 90, 6),
        ),
        (
            OrderUpdate::Replace { order_id: id(2), price: 80, quantity: 8, side: Side::Sell },
            limit(2, Side::Sell, 80, 8),
        ),
    ];
    for (update, changed) in cases {
        let mut updated = empty_book();
        fill(&mut updated);
        let result = updated.update_order(update).unwrap().unwrap();
        let mut stepwise = empty_book();
        fill(&mut stepwise);
        stepwise.cancel_order(id(2)).unwrap().unwrap();
        assert_eq!(*result, *stepwise.add_order(changed).unwrap());
        for n in 1..=3 {
            assert_eq!(found(&updated, n), found(&stepwise, n));
        }
        assert_eq!(updated.best_bid(), stepwise.best_bid());
        assert_eq!(updated.best_ask(), stepwise.best_ask());
    }
}
