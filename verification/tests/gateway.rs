use traffic_jam::authorize_net::Address;
use traffic_jam::authorize_net::ChargeCreditCardRequest;
use traffic_jam::authorize_net::CreditCard;
use traffic_jam::authorize_net::UserFields;
use traffic_jam::ecommerce::Customer;
use traffic_jam::ecommerce::Invoice;
use traffic_jam::inventory::Order;

fn sample_address(city: &str) -> Address {
    Address {
        first_name: String::from("Ada"),
        last_name: String::from("Lovelace"),
        company: String::from(""),
        address: String::from("12 Analytical Row"),
        city: String::from(city),
        state: String::from("NY"),
        zip: String::from("10001"),
        country: String::from("US"),
    }
}

fn sample_customer() -> Customer {
    Customer {
        first_name: String::from("Ada"),
        last_name: String::from("Lovelace"),
        email: String::from("ada@example.com"),
        phone_number: String::from("5550100"),
        ip_address: String::from("203.0.113.9"),
        billing_address: sample_address("New York"),
        shipping_address: sample_address("Boston"),
        credit_card: CreditCard {
            card_number: String::from("4007000000027"),
            expiration_date: String::from("2030-12"),
            card_code: String::from("123"),
        },
    }
}

#[test]
fn charge_request_carries_the_invoice_and_customer() {
    let order = Order { id: 123, items: vec![] };
    let invoice = Invoice { subtotal: 1300, shipping: 500, taxes: 92, total: 1892 };
    let customer = sample_customer();

    let request = ChargeCreditCardRequest::create(
        &order,
        &invoice,
        &customer,
        String::from("merchant-id"),
        String::from("SECRET-REDACTED"),
        777,
    );

    let ctr = &request.create_transaction_request;
    assert_eq!(ctr.merchant_authentication.name, "merchant-id");
    assert_eq!(ctr.merchant_authentication.transaction_key, "SECRET-REDACTED");
    assert_eq!(ctr.ref_id, "123");

    let tr = &ctr.transaction_request;
    assert_eq!(tr.transaction_type, "authCaptureTransaction");
    assert_eq!(tr.amount, "18.92");
    assert_eq!(tr.po_number, "777");
    assert_eq!(tr.payment.credit_card.card_number, "4007000000027");
    assert_eq!(tr.payment.credit_card.expiration_date, "2030-12");
    assert_eq!(tr.payment.credit_card.card_code, "123");
    assert!(tr.line_items.is_empty());

    assert_eq!(tr.tax.name, "Taxes");
    assert_eq!(tr.tax.amount, "0.92");
    assert_eq!(tr.shipping.name, "Shipping");
    assert_eq!(tr.shipping.amount, "5.00");
    assert_eq!(tr.duty.amount, "0");

    assert_eq!(tr.customer.id, "99999456654");
    assert_eq!(tr.bill_to.city, "New York");
    assert_eq!(tr.ship_to.city, "Boston");
    assert_eq!(tr.bill_to.address, "12 Analytical Row");
    assert_eq!(tr.customer_ip, "203.0.113.9");

    assert_eq!(tr.transaction_settings.setting.setting_name, "testRequest");
    assert_eq!(tr.transaction_settings.setting.setting_value, "false");
    assert!(tr.user_fields.user_field.is_empty());
    assert_eq!(tr.processing_options.is_subsequent_auth, "true");
    assert_eq!(tr.subsequent_auth_information.original_auth_amount, "45");
    assert_eq!(tr.subsequent_auth_information.original_network_trans_id, "123456789NNNH");
    assert_eq!(tr.subsequent_auth_information.reason, "resubmission");
    assert_eq!(tr.authorization_indicator_type.authorization_indicator, "final");
}

#[test]
fn user_fields_default_is_empty() {
    let fields = UserFields::get_default();
    assert!(fields.user_field.is_empty());
}
