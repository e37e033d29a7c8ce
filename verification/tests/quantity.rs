//! The quantities of an order.

use orderbook::order::{Order, OrderKind, Side, TimeInForce};
use orderbook::quantity::OrderQuantity;
use pricelevel::{OrderId, PegReferenceType};

fn order_of(kind: OrderKind) -> Order<()> {
    Order {
        id: OrderId::from_u64(1),
        price: 100,
        side: Side::Buy,
        timestamp: 5,
        time_in_force: TimeInForce::Gtc,
        kind,
        extra_fields: (),
    }
}

fn reserve(visible: u64, hidden: u64, refill: Option<u64>) -> OrderKind {
    OrderKind::ReserveOrder {
        visible_quantity: visible,
        hidden_quantity: hidden,
        replenish_threshold: 2,
        replenish_amount: refill,
        auto_replenish: true,
    }
}

fn plain_kinds(quantity: u64) -> Vec<OrderKind> {
    vec![
        OrderKind::Market { quantity },
        OrderKind::Standard { quantity },
        OrderKind::PostOnly { quantity },
        OrderKind::TrailingStop { quantity, trail_amount: 3, last_reference_price: 90 },
        OrderKind::PeggedOrder {
            quantity,
            reference_price_offset: -4,
            reference_price_type: PegReferenceType::MidPrice,
        },
        OrderKind::MarketToLimit { quantity },
    ]
}

#[test]
fn plain_orders_show_all_of_their_quantity() {
    for kind in plain_kinds(7) {
        assert_eq!(order_of(kind).quantity(), 7);
        assert_eq!(order_of(kind).total_quantity(), 7);
        assert_eq!(order_of(kind).hidden_quantity(), 0);
    }
}

#[test]
fn icebergs_and_reserves_hide_a_part() {
    let iceberg = order_of(OrderKind::IcebergOrder { visible_quantity: 5, hidden_quantity: 20 });
    assert_eq!(iceberg.quantity(), 5);
    assert_eq!(iceberg.total_quantity(), 25);
    assert_eq!(iceberg.hidden_quantity(), 20);
    let reserve = order_of(reserve(6, 30, None));
    assert_eq!(reserve.quantity(), 6);
    assert_eq!(reserve.total_quantity(), 36);
    assert_eq!(reserve.hidden_quantity(), 30);
}

#[test]
fn setting_the_quantity_of_plain_orders_replaces_it() {
    for (before, after) in plain_kinds(7).into_iter().zip(plain_kinds(12)) {
        let mut order = order_of(before);
        order.set_quantity(12);
        assert_eq!(order, order_of(after));
    }
}

#[test]
fn setting_the_quantity_of_an_iceberg_keeps_what_it_hides() {
    let mut order = order_of(OrderKind::IcebergOrder { visible_quantity: 5, hidden_quantity: 20 });
    order.set_quantity(12);
    assert_eq!(
        order.kind,
        OrderKind::IcebergOrder { visible_quantity: 12, hidden_quantity: 20 }
    );
}

#[test]
fn setting_the_quantity_of_a_reserve_takes_from_the_visible_part_first() {
    let mut order = order_of(reserve(10, 20, Some(8)));
    order.set_quantity(25);
    assert_eq!(order.kind, reserve(5, 20, Some(8)));
}

#[test]
fn setting_the_quantity_of_a_reserve_refills_the_visible_part_once_it_is_gone() {
    let mut order = order_of(reserve(10, 20, Some(8)));
    order.set_quantity(20);
    assert_eq!(order.kind, reserve(8, 12, Some(8)));
    let mut order = order_of(reserve(10, 20, Some(8)));
    order.set_quantity(15);
    assert_eq!(order.kind, reserve(8, 7, Some(8)));
    let mut order = order_of(reserve(10, 20, Some(100)));
    order.set_quantity(15);
    assert_eq!(order.kind, reserve(15, 0, Some(100)));
}

#[test]
fn a_reserve_without_an_amount_is_not_refilled() {
    let mut order = order_of(reserve(10, 20, None));
    order.set_quantity(15);
    assert_eq!(order.kind, reserve(0, 15, None));
}

#[test]
fn setting_the_quantity_of_a_reserve_never_raises_its_total() {
    let mut order = order_of(reserve(10, 20, Some(8)));
    order.set_quantity(40);
    assert_eq!(order.kind, reserve(10, 20, Some(8)));
    order.set_quantity(0);
    assert_eq!(order.kind, reserve(0, 0, Some(8)));
}

#[test]
fn setting_a_quantity_twice_is_setting_it_once() {
    let mut kinds = plain_kinds(9);
    kinds.push(OrderKind::IcebergOrder { visible_quantity: 5, hidden_quantity: 20 });
    kinds.push(reserve(10, 20, Some(8)));
    kinds.push(reserve(10, 20, None));
    for kind in kinds {
        let mut once = order_of(kind);
        once.set_quantity(13);
        let mut twice = once;
        twice.set_quantity(13);
        assert_eq!(once, twice);
        assert_eq!(once.id, OrderId::from_u64(1));
        assert_eq!(once.price, 100);
        assert_eq!(once.timestamp, 5);
    }
}

#[test]
fn policies_say_when_an_order_is_over() {
    assert!(!TimeInForce::Gtc.is_expired(u64::MAX, Some(0)));
    assert!(TimeInForce::Gtd(10).is_expired(10, None));
    assert!(!TimeInForce::Gtd(10).is_expired(9, None));
    assert!(TimeInForce::Day.is_expired(10, Some(10)));
    assert!(!TimeInForce::Day.is_expired(9, Some(10)));
    assert!(!TimeInForce::Day.is_expired(10, None));
    assert!(TimeInForce::Ioc.is_immediate());
    assert!(TimeInForce::Fok.is_immediate());
    assert!(!TimeInForce::Day.is_immediate());
}
