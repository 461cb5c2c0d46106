use traffic_jam::create_product;
use traffic_jam::inventory::Item;
use traffic_jam::inventory::LedgerFault;
use traffic_jam::inventory::LockedInventory;
use traffic_jam::inventory::Order;

fn stock_of(inv: &LockedInventory, id: i32) -> i32 {
    inv.get_stock(id).expect("product should exist")
}

#[test]
fn create_product_assigns_sequential_ids() {
    let mut inv = LockedInventory::new();
    let a = create_product(&mut inv, "Widget", &4, &250);
    let b = create_product(&mut inv, "Gadget", &3, &1000);
    assert_eq!(a.id, 1);
    assert_eq!(b.id, 2);
    assert_eq!(a.title, "Widget");
    assert_eq!(a.stock, 4);
    assert_eq!(a.price, 250);
    assert_eq!(stock_of(&inv, 1), 4);
    assert_eq!(stock_of(&inv, 2), 3);
    assert!(inv.get_stock(3).is_none());
}

#[test]
fn concurrent_orders_cannot_jointly_overdraw() {
    // stock A=4, B=3; the first order is granted and decrements, the second
    // is denied because B cannot cover it, and a rollback of the first
    // restores the starting stock exactly
    let mut inv = LockedInventory::new();
    let a = create_product(&mut inv, "A", &4, &100);
    let b = create_product(&mut inv, "B", &3, &100);

    let order1 = Order { id: 1, items: vec![Item { id: a.id, qty: 3 }, Item { id: b.id, qty: 2 }] };
    let order2 = Order { id: 2, items: vec![Item { id: a.id, qty: 1 }, Item { id: b.id, qty: 2 }] };

    assert_eq!(inv.hold_items(&order1), Ok(true));
    assert_eq!(stock_of(&inv, a.id), 1);
    assert_eq!(stock_of(&inv, b.id), 1);

    assert_eq!(inv.hold_items(&order2), Ok(false));
    assert_eq!(stock_of(&inv, a.id), 1);
    assert_eq!(stock_of(&inv, b.id), 1);

    assert_eq!(inv.undo_hold(&1), Ok(()));
    assert_eq!(stock_of(&inv, a.id), 4);
    assert_eq!(stock_of(&inv, b.id), 3);
    assert!(!inv.holds_order(&1));
}

#[test]
fn committed_hold_cannot_be_rolled_back() {
    // stock A=5; a full reservation is granted, committed, and a stray
    // rollback afterwards must not touch stock
    let mut inv = LockedInventory::new();
    let a = create_product(&mut inv, "A", &5, &100);

    let order = Order { id: 3, items: vec![Item { id: a.id, qty: 5 }] };
    assert_eq!(inv.hold_items(&order), Ok(true));
    assert_eq!(stock_of(&inv, a.id), 0);

    inv.release_order(&3);
    assert!(!inv.holds_order(&3));
    assert_eq!(stock_of(&inv, a.id), 0);

    assert_eq!(inv.undo_hold(&3), Err(LedgerFault::NoActiveHold));
    assert_eq!(stock_of(&inv, a.id), 0);
}

#[test]
fn release_order_is_idempotent() {
    let mut inv = LockedInventory::new();
    let a = create_product(&mut inv, "A", &2, &100);
    let order = Order { id: 9, items: vec![Item { id: a.id, qty: 1 }] };
    assert_eq!(inv.hold_items(&order), Ok(true));
    inv.release_order(&9);
    inv.release_order(&9);
    assert_eq!(stock_of(&inv, a.id), 1);
}

#[test]
fn unknown_product_is_a_fatal_fault() {
    let mut inv = LockedInventory::new();
    let a = create_product(&mut inv, "A", &4, &100);
    let order = Order { id: 4, items: vec![Item { id: a.id, qty: 1 }, Item { id: 77, qty: 1 }] };
    assert_eq!(inv.hold_items(&order), Err(LedgerFault::MissingProduct(77)));
    // nothing was decremented, and no hold was stored
    assert_eq!(stock_of(&inv, a.id), 4);
    assert!(!inv.holds_order(&4));
}

#[test]
fn duplicate_line_items_accumulate() {
    let mut inv = LockedInventory::new();
    let a = create_product(&mut inv, "A", &5, &100);

    let too_much = Order { id: 5, items: vec![Item { id: a.id, qty: 3 }, Item { id: a.id, qty: 3 }] };
    assert_eq!(inv.hold_items(&too_much), Ok(false));
    assert_eq!(stock_of(&inv, a.id), 5);

    let just_right = Order { id: 6, items: vec![Item { id: a.id, qty: 2 }, Item { id: a.id, qty: 3 }] };
    assert_eq!(inv.hold_items(&just_right), Ok(true));
    assert_eq!(stock_of(&inv, a.id), 0);
}

#[test]
fn denied_reservation_reverses_partial_decrements() {
    let mut inv = LockedInventory::new();
    let a = create_product(&mut inv, "A", &10, &100);
    let b = create_product(&mut inv, "B", &1, &100);
    let order = Order { id: 7, items: vec![Item { id: a.id, qty: 8 }, Item { id: b.id, qty: 2 }] };
    assert_eq!(inv.hold_items(&order), Ok(false));
    assert_eq!(stock_of(&inv, a.id), 10);
    assert_eq!(stock_of(&inv, b.id), 1);
    assert!(!inv.holds_order(&7));
}

#[test]
fn rollback_restores_exact_stock() {
    let mut inv = LockedInventory::new();
    let a = create_product(&mut inv, "A", &9, &100);
    let b = create_product(&mut inv, "B", &7, &100);
    let order = Order {
        id: 8,
        items: vec![
            Item { id: a.id, qty: 2 },
            Item { id: b.id, qty: 7 },
            Item { id: a.id, qty: 1 },
        ],
    };
    assert_eq!(inv.hold_items(&order), Ok(true));
    assert_eq!(stock_of(&inv, a.id), 6);
    assert_eq!(stock_of(&inv, b.id), 0);
    assert_eq!(inv.undo_hold(&8), Ok(()));
    assert_eq!(stock_of(&inv, a.id), 9);
    assert_eq!(stock_of(&inv, b.id), 7);
}

#[test]
fn update_product_replaces_fields() {
    let mut inv = LockedInventory::new();
    let a = create_product(&mut inv, "Old name", &4, &100);
    let updated = inv.update_product(a.id, "New name", 6, 150).expect("update should succeed");
    assert_eq!(updated.title, "New name");
    assert_eq!(updated.stock, 6);
    assert_eq!(updated.price, 150);
    assert_eq!(stock_of(&inv, a.id), 6);
    let found = inv.find_product(a.id).expect("product should exist");
    assert_eq!(found.title, "New name");
    assert_eq!(found.price, 150);
}

#[test]
fn update_product_unknown_id_is_none() {
    let mut inv = LockedInventory::new();
    let _ = create_product(&mut inv, "A", &4, &100);
    assert!(inv.update_product(42, "X", 1, 1).is_none());
}

#[test]
fn update_product_respects_outstanding_holds() {
    // with 4 units held, stock may not be raised so far that adding the
    // hold back could overflow the stock counter
    let mut inv = LockedInventory::new();
    let a = create_product(&mut inv, "A", &10, &100);
    let order = Order { id: 11, items: vec![Item { id: a.id, qty: 4 }] };
    assert_eq!(inv.hold_items(&order), Ok(true));
    assert!(inv.update_product(a.id, "A", i32::MAX, 100).is_none());
    assert!(inv.update_product(a.id, "A", i32::MAX - 4, 100).is_some());
    assert_eq!(stock_of(&inv, a.id), i32::MAX - 4);
}

#[test]
fn page_products_slices_the_catalog() {
    let mut inv = LockedInventory::new();
    for k in 0..5 {
        let name = format!("P{}", k);
        let _ = create_product(&mut inv, &name, &k, &100);
    }
    let page = inv.page_products(1, 2);
    assert_eq!(page.len(), 2);
    assert_eq!(page[0].id, 2);
    assert_eq!(page[1].id, 3);

    let tail = inv.page_products(4, 10);
    assert_eq!(tail.len(), 1);
    assert_eq!(tail[0].id, 5);

    assert!(inv.page_products(9, 3).is_empty());
}
