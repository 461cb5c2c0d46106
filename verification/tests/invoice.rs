use traffic_jam::create_product;
use traffic_jam::ecommerce::Discount;
use traffic_jam::ecommerce::Invoice;
use traffic_jam::inventory::Item;
use traffic_jam::inventory::LedgerFault;
use traffic_jam::inventory::LockedInventory;
use traffic_jam::inventory::Order;
use traffic_jam::money_string;
use traffic_jam::u64_string;

#[test]
fn invoice_breakdown_is_exact() {
    // 2 x 2.50 + 1 x 10.00 = 15.00 gross, minus a 2.00 discount = 13.00;
    // 7.15% tax on 13.00 is 0.9295, truncated to 0.92; shipping 5.00
    let mut inv = LockedInventory::new();
    let a = create_product(&mut inv, "A", &10, &250);
    let b = create_product(&mut inv, "B", &10, &1000);
    let order = Order { id: 1, items: vec![Item { id: a.id, qty: 2 }, Item { id: b.id, qty: 1 }] };
    let discounts = vec![Discount { amount: 200 }];

    let invoice = Invoice::create(&inv, &order, discounts, 500, 715).expect("invoice");
    assert_eq!(invoice.subtotal, 1300);
    assert_eq!(invoice.shipping, 500);
    assert_eq!(invoice.taxes, 92);
    assert_eq!(invoice.total, 1892);
}

#[test]
fn invoice_reads_prices_but_leaves_stock_alone() {
    let mut inv = LockedInventory::new();
    let a = create_product(&mut inv, "A", &3, &100);
    let order = Order { id: 1, items: vec![Item { id: a.id, qty: 2 }] };
    let _ = Invoice::create(&inv, &order, vec![], 0, 0).expect("invoice");
    assert_eq!(inv.get_stock(a.id), Some(3));
}

#[test]
fn discounts_can_push_the_subtotal_negative() {
    // gross 1.00 minus a 3.00 discount = -2.00; 10% tax truncates toward
    // zero: -0.20
    let mut inv = LockedInventory::new();
    let a = create_product(&mut inv, "A", &5, &100);
    let order = Order { id: 2, items: vec![Item { id: a.id, qty: 1 }] };
    let discounts = vec![Discount { amount: 300 }];

    let invoice = Invoice::create(&inv, &order, discounts, 0, 1000).expect("invoice");
    assert_eq!(invoice.subtotal, -200);
    assert_eq!(invoice.taxes, -20);
    assert_eq!(invoice.total, -220);
}

#[test]
fn empty_order_has_an_empty_invoice() {
    let inv = LockedInventory::new();
    let order = Order { id: 3, items: vec![] };
    let invoice = Invoice::create(&inv, &order, vec![], 500, 715).expect("invoice");
    assert_eq!(invoice.subtotal, 0);
    assert_eq!(invoice.taxes, 0);
    assert_eq!(invoice.total, 500);
}

#[test]
fn unknown_product_aborts_the_invoice() {
    let mut inv = LockedInventory::new();
    let a = create_product(&mut inv, "A", &5, &100);
    let order = Order { id: 4, items: vec![Item { id: a.id, qty: 1 }, Item { id: 99, qty: 1 }] };
    let r = Invoice::create(&inv, &order, vec![], 0, 0);
    assert!(matches!(r, Err(LedgerFault::MissingProduct(99))));
}

#[test]
fn fee_lines_carry_formatted_amounts() {
    let invoice = Invoice { subtotal: 1300, shipping: 500, taxes: 92, total: 1892 };

    let shipping = invoice.get_shipping();
    assert_eq!(shipping.name, "Shipping");
    assert_eq!(shipping.description, "Flat rate shipping fee");
    assert_eq!(shipping.amount, "5.00");

    let taxes = invoice.get_taxes();
    assert_eq!(taxes.name, "Taxes");
    assert_eq!(taxes.description, "");
    assert_eq!(taxes.amount, "0.92");

    let duty = invoice.get_duty();
    assert_eq!(duty.name, "");
    assert_eq!(duty.description, "");
    assert_eq!(duty.amount, "0");
}

#[test]
fn money_strings_have_two_decimal_places() {
    assert_eq!(money_string(0), "0.00");
    assert_eq!(money_string(7), "0.07");
    assert_eq!(money_string(1234), "12.34");
    assert_eq!(money_string(100000), "1000.00");
    assert_eq!(money_string(-5), "-0.05");
    assert_eq!(money_string(-1234), "-12.34");
}

#[test]
fn decimal_strings_render_all_digits() {
    assert_eq!(u64_string(0), "0");
    assert_eq!(u64_string(9), "9");
    assert_eq!(u64_string(10), "10");
    assert_eq!(u64_string(10050), "10050");
    assert_eq!(u64_string(u64::MAX), "18446744073709551615");
}

#[test]
fn money_strings_cover_the_extremes() {
    assert_eq!(money_string(i64::MAX), "92233720368547758.07");
    assert_eq!(money_string(i64::MIN), "-92233720368547758.08");
}
