use traffic_jam::create_product;
use traffic_jam::events::EventBus;
use traffic_jam::inventory::Item;
use traffic_jam::inventory::LedgerFault;
use traffic_jam::inventory::LockedInventory;
use traffic_jam::inventory::Order;
use traffic_jam::orchestrator::start_order;
use traffic_jam::orchestrator::settle_order;
use traffic_jam::orchestrator::OrderPhase;

#[test]
fn successful_order_commits_and_reports_stock() {
    let mut inv = LockedInventory::new();
    let a = create_product(&mut inv, "A", &5, &100);
    let mut bus = EventBus::new();
    let sub = bus.subscribe();

    let order = Order { id: 7, items: vec![Item { id: a.id, qty: 5 }] };
    let (phase, invoice) = start_order(&mut inv, &mut bus, &order, vec![], 500, 715)
        .expect("pipeline should start");
    assert!(matches!(phase, OrderPhase::Charging));
    // subtotal 5.00, shipping 5.00, 7.15% tax on 5.00 truncated to 0.35
    let invoice = invoice.expect("a granted order carries its invoice");
    assert_eq!(invoice.subtotal, 500);
    assert_eq!(invoice.taxes, 35);
    assert_eq!(invoice.total, 1035);

    let terminal = settle_order(&mut inv, &mut bus, &7, true);
    assert!(matches!(terminal, OrderPhase::Committed));
    assert_eq!(inv.get_stock(a.id), Some(0));
    assert!(!inv.holds_order(&7));

    // the durable queue holds the trail in the order it was produced
    assert_eq!(bus.poll().unwrap(), "Processing order 7");
    assert_eq!(bus.poll().unwrap(), "Reserved inventory for order 7");
    assert_eq!(bus.poll().unwrap(), "Completed order 7; stock: 1=0");
    assert!(bus.poll().is_none());

    // the connected subscriber saw the same trail in the same order
    assert_eq!(bus.recv(sub).unwrap(), "Processing order 7");
    assert_eq!(bus.recv(sub).unwrap(), "Reserved inventory for order 7");
    assert_eq!(bus.recv(sub).unwrap(), "Completed order 7; stock: 1=0");
    assert!(bus.recv(sub).is_none());

    // a stray rollback after the commit must not drive stock negative
    assert_eq!(inv.undo_hold(&7), Err(LedgerFault::NoActiveHold));
    assert_eq!(inv.get_stock(a.id), Some(0));
}

#[test]
fn failed_payment_rolls_the_hold_back() {
    let mut inv = LockedInventory::new();
    let a = create_product(&mut inv, "A", &4, &100);
    let b = create_product(&mut inv, "B", &3, &100);
    let mut bus = EventBus::new();

    let order = Order { id: 1, items: vec![Item { id: a.id, qty: 3 }, Item { id: b.id, qty: 2 }] };
    let (phase, _) = start_order(&mut inv, &mut bus, &order, vec![], 0, 0).expect("start");
    assert!(matches!(phase, OrderPhase::Charging));
    assert_eq!(inv.get_stock(a.id), Some(1));
    assert_eq!(inv.get_stock(b.id), Some(1));

    let terminal = settle_order(&mut inv, &mut bus, &1, false);
    assert!(matches!(terminal, OrderPhase::RolledBack));
    assert_eq!(inv.get_stock(a.id), Some(4));
    assert_eq!(inv.get_stock(b.id), Some(3));
    assert!(!inv.holds_order(&1));

    assert_eq!(bus.poll().unwrap(), "Processing order 1");
    assert_eq!(bus.poll().unwrap(), "Reserved inventory for order 1");
    assert_eq!(bus.poll().unwrap(), "Error while collecting payment for order #1");
    assert!(bus.poll().is_none());
}

#[test]
fn rejected_order_never_reaches_charging() {
    let mut inv = LockedInventory::new();
    let a = create_product(&mut inv, "A", &1, &100);
    let mut bus = EventBus::new();

    let order = Order { id: 2, items: vec![Item { id: a.id, qty: 2 }] };
    let (phase, invoice) = start_order(&mut inv, &mut bus, &order, vec![], 0, 0).expect("start");
    assert!(matches!(phase, OrderPhase::Rejected));
    assert!(invoice.is_none());
    assert_eq!(inv.get_stock(a.id), Some(1));
    assert!(!inv.holds_order(&2));

    assert_eq!(bus.poll().unwrap(), "Processing order 2");
    assert_eq!(bus.poll().unwrap(), "Unable to hold inventory for order 2");
    assert!(bus.poll().is_none());
}

#[test]
fn data_integrity_fault_abandons_the_order() {
    let mut inv = LockedInventory::new();
    let a = create_product(&mut inv, "A", &5, &100);
    let mut bus = EventBus::new();

    let order = Order { id: 3, items: vec![Item { id: a.id, qty: 1 }, Item { id: 55, qty: 1 }] };
    let r = start_order(&mut inv, &mut bus, &order, vec![], 0, 0);
    assert!(matches!(r, Err(LedgerFault::MissingProduct(55))));
    assert_eq!(inv.get_stock(a.id), Some(5));
    assert!(!inv.holds_order(&3));

    assert_eq!(bus.poll().unwrap(), "Processing order 3");
    assert!(bus.poll().is_none());
}

#[test]
fn late_subscriber_sees_only_later_events() {
    let mut inv = LockedInventory::new();
    let a = create_product(&mut inv, "A", &5, &100);
    let mut bus = EventBus::new();

    let order = Order { id: 4, items: vec![Item { id: a.id, qty: 1 }] };
    let _ = start_order(&mut inv, &mut bus, &order, vec![], 0, 0).expect("start");

    // connects between reservation and settlement: sees only the terminal
    let late = bus.subscribe();
    let _ = settle_order(&mut inv, &mut bus, &4, false);

    assert_eq!(bus.recv(late).unwrap(), "Error while collecting payment for order #4");
    assert!(bus.recv(late).is_none());
}

#[test]
fn disconnected_subscriber_receives_nothing() {
    let mut bus = EventBus::new();
    let sub = bus.subscribe();
    bus.publish(String::from("one"));
    bus.unsubscribe(sub);
    bus.publish(String::from("two"));
    assert!(bus.recv(sub).is_none());

    // the durable queue is independent of subscriptions
    assert_eq!(bus.poll().unwrap(), "one");
    assert_eq!(bus.poll().unwrap(), "two");
    assert!(bus.poll().is_none());
}

#[test]
fn each_message_is_polled_exactly_once() {
    let mut bus = EventBus::new();
    bus.publish(String::from("first"));
    bus.publish(String::from("second"));
    assert_eq!(bus.poll().unwrap(), "first");
    assert_eq!(bus.poll().unwrap(), "second");
    assert!(bus.poll().is_none());
    assert!(bus.poll().is_none());
}
