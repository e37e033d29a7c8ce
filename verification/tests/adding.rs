//! Adding orders to the book.

use orderbook::book::{MatchResult, OrderBook};
use orderbook::error::OrderBookError;
use orderbook::order::{Order, OrderKind, Side, TimeInForce};
use orderbook::quantity::OrderQuantity;
use pricelevel::{OrderId, PegReferenceType, UuidGenerator};
use uuid::Uuid;

fn empty_book() -> OrderBook<u32> {
    OrderBook::new("TEST".to_string(), UuidGenerator::new(Uuid::from_u128(1)))
}

fn id(n: u64) -> OrderId {
    OrderId::from_u64(n)
}

fn order(n: u64, side: Side, price: u64, time_in_force: TimeInForce, kind: OrderKind) -> Order<u32> {
    Order { id: id(n), price, side, timestamp: n, time_in_force, kind, extra_fields: 9 }
}

fn limit(n: u64, side: Side, price: u64, quantity: u64) -> Order<u32> {
    order(n, side, price, TimeInForce::Gtc, OrderKind::Standard { quantity })
}

fn kind_of(book: &OrderBook<u32>, n: u64) -> Option<OrderKind> {
    book.get_order(id(n)).map(|found| found.kind)
}

#[test]
fn a_new_book_is_empty() {
    let book = empty_book();
    assert_eq!(book.symbol(), "TEST");
    assert_eq!(book.best_bid(), None);
    assert_eq!(book.best_ask(), None);
    assert!(book.get_order(id(1)).is_none());
    assert!(!book.will_cross_market(u64::MAX, Side::Buy));
    assert_eq!(book.peek_match(Side::Buy, 10, u64::MAX), 0);
}

#[test]
fn an_order_that_meets_nothing_rests_with_default_data() {
    let mut book = empty_book();
    let added = book.add_order(limit(1, Side::Buy, 100, 10)).unwrap();
    assert_eq!(*added, Order { extra_fields: 0, ..limit(1, Side::Buy, 100, 10) });
    assert_eq!(*book.get_order(id(1)).unwrap(), *added);
    assert_eq!(book.best_bid(), Some(100));
}

#[test]
fn orders_of_every_kind_rest_as_they_came() {
    let kinds = vec![
        OrderKind::Market { quantity: 3 },
        OrderKind::Standard { quantity: 4 },
        OrderKind::IcebergOrder { visible_quantity: 5, hidden_quantity: 6 },
        OrderKind::PostOnly { quantity: 7 },
        OrderKind::TrailingStop { quantity: 8, trail_amount: 9, last_reference_price: 10 },
        OrderKind::PeggedOrder {
            quantity: 11,
            reference_price_offset: -12,
            reference_price_type: PegReferenceType::BestAsk,
        },
        OrderKind::MarketToLimit { quantity: 13 },
        OrderKind::ReserveOrder {
            visible_quantity: 14,
            hidden_quantity: 15,
            replenish_threshold: 16,
            replenish_amount: Some(17),
            auto_replenish: true,
        },
    ];
    let policies = vec![TimeInForce::Gtc, TimeInForce::Gtd(50), TimeInForce::Day];
    for side in [Side::Buy, Side::Sell] {
        let mut book = empty_book();
        let mut n: u64 = 0;
        for kind in &kinds {
            for policy in &policies {
                n += 1;
                let incoming = order(n, side, 100 + n, *policy, *kind);
                let expected = Order { extra_fields: 0, ..incoming };
                assert_eq!(*book.add_order(incoming).unwrap(), expected);
                assert_eq!(*book.get_order(id(n)).unwrap(), expected);
                assert_eq!(*book.cancel_order(id(n)).unwrap().unwrap(), expected);
                assert!(book.get_order(id(n)).is_none());
            }
        }
    }
}

#[test]
fn an_order_that_is_filled_comes_back_as_it_came() {
    let mut book = empty_book();
    book.add_order(limit(1, Side::Sell, 100, 10)).unwrap();
    let added = book.add_order(limit(2, Side::Buy, 100, 10)).unwrap();
    assert_eq!(*added, limit(2, Side::Buy, 100, 10));
    assert!(book.get_order(id(1)).is_none());
    assert!(book.get_order(id(2)).is_none());
    assert_eq!(book.best_ask(), None);
    assert_eq!(book.best_bid(), None);
}

#[test]
fn what_is_left_of_a_limit_order_rests() {
    let mut book = empty_book();
    book.add_order(limit(1, Side::Sell, 100, 4)).unwrap();
    let added = book.add_order(limit(2, Side::Buy, 101, 10)).unwrap();
    assert_eq!(added.kind, OrderKind::Standard { quantity: 6 });
    assert_eq!(kind_of(&book, 2), Some(OrderKind::Standard { quantity: 6 }));
    assert_eq!(book.best_bid(), Some(101));
    assert_eq!(book.best_ask(), None);
}

#[test]
fn what_is_left_of_a_resting_order_stays() {
    let mut book = empty_book();
    book.add_order(limit(1, Side::Sell, 100, 10)).unwrap();
    book.add_order(limit(2, Side::Buy, 100, 4)).unwrap();
    assert_eq!(kind_of(&book, 1), Some(OrderKind::Standard { quantity: 6 }));
    assert!(book.get_order(id(2)).is_none());
}

#[test]
fn an_iceberg_that_traded_amounts_to_what_is_left() {
    let mut book = empty_book();
    book.add_order(limit(1, Side::Sell, 100, 3)).unwrap();
    let kind = OrderKind::IcebergOrder { visible_quantity: 5, hidden_quantity: 10 };
    book.add_order(order(2, Side::Buy, 100, TimeInForce::Gtc, kind)).unwrap();
    assert_eq!(
        kind_of(&book, 2),
        Some(OrderKind::IcebergOrder { visible_quantity: 5, hidden_quantity: 7 })
    );
    let mut book = empty_book();
    book.add_order(limit(1, Side::Buy, 100, 30)).unwrap();
    let kind = OrderKind::IcebergOrder { visible_quantity: 10, hidden_quantity: 90 };
    let added = book.add_order(order(2, Side::Sell, 100, TimeInForce::Gtc, kind)).unwrap();
    assert_eq!(added.total_quantity(), 70);
    assert_eq!(
        added.kind,
        OrderKind::IcebergOrder { visible_quantity: 10, hidden_quantity: 60 }
    );
    let mut book = empty_book();
    book.add_order(limit(1, Side::Buy, 100, 93)).unwrap();
    book.add_order(order(2, Side::Sell, 100, TimeInForce::Gtc, kind)).unwrap();
    assert_eq!(
        kind_of(&book, 2),
        Some(OrderKind::IcebergOrder { visible_quantity: 7, hidden_quantity: 0 })
    );
}

#[test]
fn a_reserve_order_that_traded_amounts_to_what_is_left() {
    let reserve = |visible_quantity, hidden_quantity| OrderKind::ReserveOrder {
        visible_quantity,
        hidden_quantity,
        replenish_threshold: 1,
        replenish_amount: Some(8),
        auto_replenish: true,
    };
    let mut book = empty_book();
    book.add_order(limit(1, Side::Sell, 100, 12)).unwrap();
    book.add_order(order(2, Side::Buy, 100, TimeInForce::Gtc, reserve(10, 20))).unwrap();
    assert_eq!(kind_of(&book, 2), Some(reserve(8, 10)));
}

#[test]
fn what_is_left_of_a_market_order_rests_as_one() {
    let mut book = empty_book();
    book.add_order(limit(1, Side::Sell, 100, 4)).unwrap();
    let market = order(2, Side::Buy, 100, TimeInForce::Gtc, OrderKind::Market { quantity: 10 });
    let added = book.add_order(market).unwrap();
    assert_eq!(added.kind, OrderKind::Market { quantity: 6 });
    assert_eq!(kind_of(&book, 2), Some(OrderKind::Market { quantity: 6 }));
}

#[test]
fn a_resting_iceberg_gives_up_what_it_hides() {
    let mut book = empty_book();
    let kind = OrderKind::IcebergOrder { visible_quantity: 5, hidden_quantity: 10 };
    book.add_order(order(1, Side::Sell, 100, TimeInForce::Gtc, kind)).unwrap();
    book.add_order(limit(2, Side::Buy, 100, 12)).unwrap();
    assert_eq!(
        kind_of(&book, 1),
        Some(OrderKind::IcebergOrder { visible_quantity: 3, hidden_quantity: 0 })
    );
    assert!(book.get_order(id(2)).is_none());
}

#[test]
fn better_prices_trade_first_and_earlier_orders_before_later_ones() {
    let mut book = empty_book();
    book.set_listening(true);
    book.add_order(limit(1, Side::Sell, 102, 5)).unwrap();
    book.add_order(limit(2, Side::Sell, 101, 5)).unwrap();
    book.add_order(limit(3, Side::Sell, 101, 5)).unwrap();
    book.add_order(limit(4, Side::Sell, 104, 5)).unwrap();
    book.add_order(limit(5, Side::Buy, 103, 18)).unwrap();
    let reports = book.take_trades();
    assert_eq!(reports.len(), 1);
    let result = &reports[0].match_result;
    assert_eq!(reports[0].symbol, "TEST");
    assert_eq!(result.order_id, id(5));
    assert_eq!(result.remaining_quantity, 3);
    assert!(!result.is_complete);
    assert_eq!(result.filled_order_ids, vec![id(2), id(3), id(1)]);
    let trades: Vec<(OrderId, OrderId, u64, u64, Side)> = result
        .transactions
        .iter()
        .map(|t| (t.taker_order_id, t.maker_order_id, t.price, t.quantity, t.taker_side))
        .collect();
    assert_eq!(
        trades,
        vec![
            (id(5), id(2), 101, 5, Side::Buy),
            (id(5), id(3), 101, 5, Side::Buy),
            (id(5), id(1), 102, 5, Side::Buy),
        ]
    );
    assert_ne!(
        result.transactions[0].transaction_id,
        result.transactions[1].transaction_id
    );
    assert_eq!(book.best_ask(), Some(104));
    assert_eq!(book.best_bid(), Some(103));
    assert_eq!(kind_of(&book, 5), Some(OrderKind::Standard { quantity: 3 }));
    assert_eq!(kind_of(&book, 4), Some(OrderKind::Standard { quantity: 5 }));
}

#[test]
fn a_seller_trades_with_the_highest_bids_first() {
    let mut book = empty_book();
    book.set_listening(true);
    book.add_order(limit(1, Side::Buy, 99, 5)).unwrap();
    book.add_order(limit(2, Side::Buy, 100, 5)).unwrap();
    book.add_order(limit(3, Side::Buy, 97, 5)).unwrap();
    book.add_order(limit(4, Side::Sell, 98, 7)).unwrap();
    let reports = book.take_trades();
    let result = &reports[0].match_result;
    assert!(result.is_complete);
    assert_eq!(result.transactions.len(), 2);
    assert_eq!(result.transactions[0].price, 100);
    assert_eq!(result.transactions[0].quantity, 5);
    assert_eq!(result.transactions[1].price, 99);
    assert_eq!(result.transactions[1].quantity, 2);
    assert_eq!(result.transactions[1].taker_side, Side::Sell);
    assert_eq!(result.filled_order_ids, vec![id(2)]);
    assert_eq!(book.best_bid(), Some(99));
    assert_eq!(kind_of(&book, 1), Some(OrderKind::Standard { quantity: 3 }));
    assert_eq!(kind_of(&book, 3), Some(OrderKind::Standard { quantity: 5 }));
}

#[test]
fn reports_are_kept_only_if_wanted_and_handed_over_once() {
    let mut book = empty_book();
    book.add_order(limit(1, Side::Sell, 100, 10)).unwrap();
    book.add_order(limit(2, Side::Buy, 100, 1)).unwrap();
    assert!(book.take_trades().is_empty());
    book.set_listening(true);
    book.add_order(limit(3, Side::Buy, 90, 1)).unwrap();
    assert!(book.take_trades().is_empty());
    book.add_order(limit(4, Side::Buy, 100, 1)).unwrap();
    book.add_order(limit(5, Side::Buy, 100, 2)).unwrap();
    let reports = book.take_trades();
    assert_eq!(reports.len(), 2);
    assert_eq!(reports[0].match_result.order_id, id(4));
    assert_eq!(reports[1].match_result.order_id, id(5));
    assert_eq!(reports[1].match_result.transactions[0].quantity, 2);
    assert!(book.take_trades().is_empty());
}

#[test]
fn an_expired_order_is_refused() {
    let mut book = empty_book();
    book.set_current_time(1000);
    let late = order(1, Side::Buy, 100, TimeInForce::Gtd(1000), OrderKind::Standard { quantity: 1 });
    assert!(book.has_expired(&late));
    assert_eq!(
        book.add_order(late).unwrap_err(),
        OrderBookError::InvalidOperation { message: "Order has already expired".to_string() }
    );
    assert_eq!(book.best_bid(), None);
    let early = order(2, Side::Buy, 100, TimeInForce::Gtd(1001), OrderKind::Standard { quantity: 1 });
    assert!(book.add_order(early).is_ok());
}

#[test]
fn a_day_order_is_refused_after_the_close() {
    let mut book = empty_book();
    book.set_current_time(1000);
    let today = || order(1, Side::Buy, 100, TimeInForce::Day, OrderKind::Standard { quantity: 1 });
    book.set_market_close(Some(1000));
    assert_eq!(
        book.add_order(today()).unwrap_err(),
        OrderBookError::InvalidOperation { message: "Order has already expired".to_string() }
    );
    book.set_market_close(Some(1001));
    assert!(book.add_order(today()).is_ok());
    book.set_market_close(None);
    assert!(book.add_order(today()).is_ok());
}

#[test]
fn a_post_only_order_that_would_trade_is_refused() {
    let mut book = empty_book();
    book.add_order(limit(1, Side::Sell, 100, 10)).unwrap();
    book.add_order(limit(2, Side::Sell, 105, 10)).unwrap();
    book.add_order(limit(3, Side::Buy, 90, 10)).unwrap();
    let buy = order(4, Side::Buy, 101, TimeInForce::Gtc, OrderKind::PostOnly { quantity: 5 });
    assert_eq!(
        book.add_order(buy).unwrap_err(),
        OrderBookError::PriceCrossing { price: 101, side: Side::Buy, opposite_price: 100 }
    );
    let sell = order(5, Side::Sell, 90, TimeInForce::Gtc, OrderKind::PostOnly { quantity: 5 });
    assert_eq!(
        book.add_order(sell).unwrap_err(),
        OrderBookError::PriceCrossing { price: 90, side: Side::Sell, opposite_price: 90 }
    );
    assert_eq!(kind_of(&book, 1), Some(OrderKind::Standard { quantity: 10 }));
    assert_eq!(kind_of(&book, 3), Some(OrderKind::Standard { quantity: 10 }));
}

#[test]
fn a_post_only_order_that_would_not_trade_rests() {
    let mut book = empty_book();
    book.set_listening(true);
    book.add_order(limit(1, Side::Sell, 100, 10)).unwrap();
    let buy = order(2, Side::Buy, 99, TimeInForce::Gtc, OrderKind::PostOnly { quantity: 5 });
    assert_eq!(book.add_order(buy).unwrap().kind, OrderKind::PostOnly { quantity: 5 });
    assert!(book.take_trades().is_empty());
    assert_eq!(kind_of(&book, 1), Some(OrderKind::Standard { quantity: 10 }));
    assert!(book.will_cross_market(100, Side::Buy));
    assert!(!book.will_cross_market(99, Side::Buy));
    assert!(book.will_cross_market(99, Side::Sell));
    assert!(!book.will_cross_market(100, Side::Sell));
}

#[test]
fn an_immediate_order_drops_what_does_not_trade() {
    let mut book = empty_book();
    book.add_order(limit(1, Side::Sell, 100, 4)).unwrap();
    let ioc = order(2, Side::Buy, 100, TimeInForce::Ioc, OrderKind::Standard { quantity: 10 });
    assert_eq!(
        book.add_order(ioc).unwrap_err(),
        OrderBookError::InsufficientLiquidity { side: Side::Buy, requested: 10, available: 4 }
    );
    assert!(book.get_order(id(1)).is_none());
    assert!(book.get_order(id(2)).is_none());
    assert_eq!(book.best_bid(), None);
}

#[test]
fn the_refusal_of_an_immediate_iceberg_speaks_of_what_it_shows() {
    let mut book = empty_book();
    book.add_order(limit(1, Side::Sell, 100, 3)).unwrap();
    let kind = OrderKind::IcebergOrder { visible_quantity: 5, hidden_quantity: 10 };
    assert_eq!(
        book.add_order(order(2, Side::Buy, 100, TimeInForce::Ioc, kind)).unwrap_err(),
        OrderBookError::InsufficientLiquidity { side: Side::Buy, requested: 5, available: 0 }
    );
}

#[test]
fn an_immediate_order_that_is_filled_is_taken() {
    let mut book = empty_book();
    book.add_order(limit(1, Side::Sell, 100, 4)).unwrap();
    let ioc = order(2, Side::Buy, 100, TimeInForce::Ioc, OrderKind::Standard { quantity: 4 });
    assert_eq!(book.add_order(ioc).unwrap().kind, OrderKind::Standard { quantity: 4 });
    assert_eq!(book.best_ask(), None);
}

#[test]
fn a_fill_or_kill_order_that_cannot_fill_changes_nothing() {
    let mut book = empty_book();
    book.set_listening(true);
    book.add_order(limit(1, Side::Sell, 100, 4)).unwrap();
    book.add_order(limit(2, Side::Sell, 101, 5)).unwrap();
    book.add_order(limit(3, Side::Sell, 102, 50)).unwrap();
    let fok = order(4, Side::Buy, 101, TimeInForce::Fok, OrderKind::Standard { quantity: 10 });
    assert_eq!(
        book.add_order(fok).unwrap_err(),
        OrderBookError::InsufficientLiquidity { side: Side::Buy, requested: 10, available: 9 }
    );
    assert!(book.take_trades().is_empty());
    assert_eq!(kind_of(&book, 1), Some(OrderKind::Standard { quantity: 4 }));
    assert_eq!(kind_of(&book, 2), Some(OrderKind::Standard { quantity: 5 }));
}

#[test]
fn a_fill_or_kill_order_that_can_fill_does() {
    let mut book = empty_book();
    book.add_order(limit(1, Side::Sell, 100, 4)).unwrap();
    let kind = OrderKind::IcebergOrder { visible_quantity: 2, hidden_quantity: 4 };
    book.add_order(order(2, Side::Sell, 101, TimeInForce::Gtc, kind)).unwrap();
    let fok = order(3, Side::Buy, 101, TimeInForce::Fok, OrderKind::Standard { quantity: 10 });
    assert_eq!(book.add_order(fok).unwrap().kind, OrderKind::Standard { quantity: 10 });
    assert_eq!(book.best_ask(), None);
}

#[test]
fn a_fill_or_kill_order_does_not_count_on_what_a_reserve_takes_with_it() {
    let mut book = empty_book();
    book.set_listening(true);
    let kind = OrderKind::ReserveOrder {
        visible_quantity: 5,
        hidden_quantity: 5,
        replenish_threshold: 1,
        replenish_amount: Some(5),
        auto_replenish: false,
    };
    book.add_order(order(1, Side::Sell, 100, TimeInForce::Gtc, kind)).unwrap();
    assert_eq!(book.peek_match(Side::Buy, 10, 100), 5);
    let fok = order(2, Side::Buy, 100, TimeInForce::Fok, OrderKind::Standard { quantity: 10 });
    assert_eq!(
        book.add_order(fok).unwrap_err(),
        OrderBookError::InsufficientLiquidity { side: Side::Buy, requested: 10, available: 5 }
    );
    assert!(book.take_trades().is_empty());
    assert_eq!(kind_of(&book, 1), Some(kind));
    let fok = order(3, Side::Buy, 100, TimeInForce::Fok, OrderKind::Standard { quantity: 5 });
    assert!(book.add_order(fok).is_ok());
    assert!(book.get_order(id(1)).is_none());
}

#[test]
fn a_fill_or_kill_order_does_not_count_on_an_order_that_refills_with_nothing() {
    let mut book = empty_book();
    let kind = OrderKind::IcebergOrder { visible_quantity: 0, hidden_quantity: 5 };
    book.add_order(order(1, Side::Sell, 100, TimeInForce::Gtc, kind)).unwrap();
    assert_eq!(book.peek_match(Side::Buy, 5, 100), 0);
    let fok = order(2, Side::Buy, 100, TimeInForce::Fok, OrderKind::Standard { quantity: 5 });
    assert_eq!(
        book.try_add_order(fok).unwrap().unwrap_err(),
        OrderBookError::InsufficientLiquidity { side: Side::Buy, requested: 5, available: 0 }
    );
    assert_eq!(kind_of(&book, 1), Some(kind));
}

#[test]
fn a_reserve_that_names_no_amount_refills_itself_all_the_same() {
    let mut book = empty_book();
    let kind = OrderKind::ReserveOrder {
        visible_quantity: 5,
        hidden_quantity: 195,
        replenish_threshold: 1,
        replenish_amount: None,
        auto_replenish: true,
    };
    book.add_order(order(1, Side::Sell, 100, TimeInForce::Gtc, kind)).unwrap();
    assert_eq!(book.peek_match(Side::Buy, 1000, 100), 200);
    let result = book.match_order(id(2), Side::Buy, 205, 100);
    let quantities: Vec<u64> = result.transactions.iter().map(|t| t.quantity).collect();
    assert_eq!(quantities, vec![5, 80, 80, 35]);
    assert_eq!(result.remaining_quantity, 5);
}

#[test]
fn what_could_be_matched_is_counted_without_matching() {
    let mut book = empty_book();
    book.add_order(limit(1, Side::Sell, 100, 4)).unwrap();
    let kind = OrderKind::IcebergOrder { visible_quantity: 2, hidden_quantity: 30 };
    book.add_order(order(2, Side::Sell, 101, TimeInForce::Gtc, kind)).unwrap();
    assert_eq!(book.peek_match(Side::Buy, 3, 100), 3);
    assert_eq!(book.peek_match(Side::Buy, 10, 100), 4);
    assert_eq!(book.peek_match(Side::Buy, 100, 101), 36);
    assert_eq!(book.peek_match(Side::Buy, 100, 99), 0);
    assert_eq!(book.peek_match(Side::Sell, 100, 1), 0);
    assert_eq!(kind_of(&book, 1), Some(OrderKind::Standard { quantity: 4 }));
}

#[test]
fn matching_without_adding_leaves_no_order() {
    let mut book = empty_book();
    book.add_order(limit(1, Side::Buy, 100, 4)).unwrap();
    let result = book.match_order(id(7), Side::Sell, 6, 100);
    assert_eq!(result.order_id, id(7));
    assert_eq!(result.remaining_quantity, 2);
    assert!(!result.is_complete);
    assert_eq!(result.filled_order_ids, vec![id(1)]);
    assert_eq!(result.transactions.len(), 1);
    assert_eq!(result.transactions[0].quantity, 4);
    assert_eq!(result.transactions[0].taker_side, Side::Sell);
    assert!(book.get_order(id(7)).is_none());
    assert_eq!(book.best_bid(), None);
}

#[test]
fn what_was_handed_in_is_traded_or_left() {
    let mut book = empty_book();
    for n in 1..=6u64 {
        book.add_order(limit(n, Side::Sell, 100 + n / 2, 3 * n)).unwrap();
    }
    let result = book.match_order(id(50), Side::Buy, 70, 102);
    let traded: u64 = result.transactions.iter().map(|t| t.quantity).sum();
    assert_eq!(traded, 3 + 6 + 9 + 12 + 15);
    assert_eq!(traded + result.remaining_quantity, 70);
    assert_eq!(book.best_ask(), Some(103));
}

#[test]
fn an_order_whose_quantities_overflow_cannot_be_added() {
    let mut book = empty_book();
    let kind = OrderKind::IcebergOrder { visible_quantity: u64::MAX, hidden_quantity: 1 };
    let huge = order(1, Side::Buy, 1, TimeInForce::Gtc, kind);
    assert!(!book.can_add(&huge));
    assert!(book.try_add_order(huge).is_none());
    assert_eq!(book.best_bid(), None);
}

#[test]
fn an_order_that_meets_an_iceberg_showing_nothing_cannot_be_added() {
    let mut book = empty_book();
    let kind = OrderKind::IcebergOrder { visible_quantity: 0, hidden_quantity: 5 };
    assert!(book.try_add_order(order(1, Side::Sell, 100, TimeInForce::Gtc, kind)).unwrap().is_ok());
    assert!(book.try_add_order(limit(2, Side::Buy, 100, 1)).is_none());
    assert_eq!(kind_of(&book, 1), Some(kind));
    assert!(book.get_order(id(2)).is_none());
    assert!(book.try_add_order(limit(3, Side::Buy, 99, 1)).unwrap().is_ok());
}

#[test]
fn an_order_that_is_filled_before_it_comes_to_such_an_iceberg_is_added() {
    let mut book = empty_book();
    let kind = OrderKind::IcebergOrder { visible_quantity: 0, hidden_quantity: 5 };
    book.add_order(limit(1, Side::Sell, 100, 10)).unwrap();
    book.add_order(order(2, Side::Sell, 101, TimeInForce::Gtc, kind)).unwrap();
    let added = book.try_add_order(limit(3, Side::Buy, 105, 5)).unwrap().unwrap();
    assert_eq!(*added, limit(3, Side::Buy, 105, 5));
    assert_eq!(kind_of(&book, 1), Some(OrderKind::Standard { quantity: 5 }));
    assert!(book.try_add_order(limit(4, Side::Buy, 105, 6)).is_none());
    assert!(book.try_add_order(limit(5, Side::Buy, 105, 5)).unwrap().is_ok());
    assert_eq!(book.best_ask(), Some(101));
}

#[test]
fn orders_beside_such_an_iceberg_fill_what_they_can() {
    let mut book = empty_book();
    let kind = OrderKind::IcebergOrder { visible_quantity: 0, hidden_quantity: 5 };
    book.add_order(order(1, Side::Sell, 100, TimeInForce::Gtc, kind)).unwrap();
    book.add_order(limit(2, Side::Sell, 100, 10)).unwrap();
    assert!(book.try_add_order(limit(3, Side::Buy, 100, 11)).is_none());
    assert!(book.try_add_order(limit(4, Side::Buy, 100, 10)).unwrap().is_ok());
    assert_eq!(kind_of(&book, 1), Some(kind));
    assert!(book.get_order(id(2)).is_none());
}

#[test]
fn an_order_that_would_drain_a_reserve_that_refills_with_nothing_cannot_be_added() {
    let mut book = empty_book();
    let kind = OrderKind::ReserveOrder {
        visible_quantity: 5,
        hidden_quantity: 5,
        replenish_threshold: 0,
        replenish_amount: Some(0),
        auto_replenish: true,
    };
    book.add_order(order(1, Side::Sell, 100, TimeInForce::Gtc, kind)).unwrap();
    assert!(book.try_add_order(limit(2, Side::Buy, 100, 6)).is_none());
    assert!(book.try_add_order(limit(3, Side::Buy, 100, 4)).unwrap().is_ok());
}

#[test]
fn a_trade_of_too_great_a_value_cannot_be_made() {
    let mut book = empty_book();
    book.add_order(limit(1, Side::Sell, u64::MAX, 2)).unwrap();
    assert!(book.try_add_order(limit(2, Side::Buy, u64::MAX, 2)).is_none());
    assert!(book.try_add_order(limit(3, Side::Buy, u64::MAX, 1)).unwrap().is_ok());
    assert_eq!(kind_of(&book, 1), Some(OrderKind::Standard { quantity: 1 }));
}

#[test]
fn bids_stay_below_asks() {
    let mut book = empty_book();
    let prices = [100, 103, 98, 101, 99, 105, 97, 102, 104, 96];
    for (n, price) in prices.iter().enumerate() {
        let side = if n % 2 == 0 { Side::Buy } else { Side::Sell };
        book.add_order(limit(n as u64 + 1, side, *price, 1 + n as u64)).unwrap();
        if let (Some(bid), Some(ask)) = (book.best_bid(), book.best_ask()) {
            assert!(bid < ask);
        }
    }
}

fn unmatched(n: u64, remaining_quantity: u64) -> MatchResult {
    MatchResult {
        order_id: id(n),
        transactions: Vec::new(),
        remaining_quantity,
        is_complete: remaining_quantity == 0,
        filled_order_ids: Vec::new(),
    }
}

#[test]
fn what_matching_left_decides_what_becomes_of_an_order() {
    let mut book = empty_book();
    let kind = OrderKind::Standard { quantity: 10 };
    let ioc = order(1, Side::Buy, 100, TimeInForce::Ioc, kind);
    assert_eq!(
        book.conclude(ioc, unmatched(1, 4)).unwrap_err(),
        OrderBookError::InsufficientLiquidity { side: Side::Buy, requested: 10, available: 6 }
    );
    let filled = book.conclude(limit(2, Side::Buy, 100, 10), unmatched(2, 0)).unwrap();
    assert_eq!(*filled, limit(2, Side::Buy, 100, 10));
    assert_eq!(book.best_bid(), None);
    let rested = book.conclude(limit(3, Side::Buy, 100, 10), unmatched(3, 4)).unwrap();
    assert_eq!(rested.kind, OrderKind::Standard { quantity: 4 });
    assert_eq!(kind_of(&book, 3), Some(OrderKind::Standard { quantity: 4 }));
    let kind = OrderKind::IcebergOrder { visible_quantity: 5, hidden_quantity: 10 };
    let iceberg = order(4, Side::Buy, 100, TimeInForce::Gtc, kind);
    assert_eq!(book.conclude(iceberg, unmatched(4, 15)).unwrap().kind, kind);
}

#[test]
fn a_kept_report_is_the_match_in_full() {
    let mut source = empty_book();
    source.add_order(limit(1, Side::Sell, 100, 4)).unwrap();
    let result = source.match_order(id(2), Side::Buy, 10, 100);
    let trade = result.transactions[0];
    let mut book = empty_book();
    book.set_listening(true);
    book.conclude(limit(2, Side::Buy, 100, 10), result).unwrap();
    let reports = book.take_trades();
    assert_eq!(reports.len(), 1);
    assert_eq!(reports[0].match_result.transactions, vec![trade]);
    assert_ne!(trade.transaction_id, 0);
    assert_ne!(trade.timestamp, 0);
}

#[test]
fn a_refill_of_too_great_a_value_cannot_be_traded() {
    let price = u64::MAX / 50;
    let kind = OrderKind::ReserveOrder {
        visible_quantity: 1,
        hidden_quantity: 1000,
        replenish_threshold: 1,
        replenish_amount: None,
        auto_replenish: true,
    };
    let mut book = empty_book();
    book.add_order(order(1, Side::Sell, price, TimeInForce::Gtc, kind)).unwrap();
    assert!(book.try_add_order(limit(2, Side::Buy, price, 60)).is_none());
    assert!(book.try_add_order(limit(3, Side::Buy, price, 40)).unwrap().is_ok());
    assert_eq!(book.get_order(id(1)).unwrap().total_quantity(), 961);
}

#[test]
fn orders_at_a_price_trade_in_turn_and_keep_what_they_did_not_trade() {
    let mut book = empty_book();
    let iceberg = |visible_quantity, hidden_quantity| OrderKind::IcebergOrder {
        visible_quantity,
        hidden_quantity,
    };
    book.add_order(order(1, Side::Sell, 100, TimeInForce::Gtc, iceberg(10, 25))).unwrap();
    book.add_order(limit(2, Side::Sell, 100, 5)).unwrap();
    book.add_order(limit(3, Side::Sell, 100, 6)).unwrap();
    let result = book.match_order(id(9), Side::Buy, 13, 100);
    let trades: Vec<(OrderId, u64)> =
        result.transactions.iter().map(|t| (t.maker_order_id, t.quantity)).collect();
    assert_eq!(trades, vec![(id(1), 10), (id(2), 3)]);
    assert_eq!(kind_of(&book, 1), Some(iceberg(10, 15)));
    assert_eq!(kind_of(&book, 2), Some(OrderKind::Standard { quantity: 2 }));
    assert_eq!(kind_of(&book, 3), Some(OrderKind::Standard { quantity: 6 }));
    let result = book.match_order(id(9), Side::Buy, 7, 100);
    let makers: Vec<OrderId> = result.transactions.iter().map(|t| t.maker_order_id).collect();
    assert_eq!(makers, vec![id(3), id(1)]);
    assert_eq!(kind_of(&book, 1), Some(iceberg(9, 15)));
    let result = book.match_order(id(9), Side::Buy, 22, 100);
    let total: u64 = result.transactions.iter().map(|t| t.quantity).sum();
    assert_eq!(total, 22);
    assert_eq!(book.peek_match(Side::Buy, 100, 100), 4);
}

#[test]
fn a_level_does_not_change_the_quantity_of_a_trailing_stop_that_traded() {
    let mut book = empty_book();
    let kind = OrderKind::TrailingStop { quantity: 10, trail_amount: 1, last_reference_price: 2 };
    book.add_order(order(1, Side::Sell, 100, TimeInForce::Gtc, kind)).unwrap();
    book.add_order(limit(2, Side::Buy, 100, 4)).unwrap();
    assert_eq!(kind_of(&book, 1), Some(kind));
}
