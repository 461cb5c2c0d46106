//! The payment gateway's charge request and response shapes.
//!
//! Building a charge request from an order, its invoice and the payer details
//! is pure bookkeeping and is verified field by field; actually sending the
//! request is the caller's affair.

use vstd::prelude::*;

use crate::ecommerce::Customer;
use crate::ecommerce::Invoice;
use crate::inventory::Order;
use crate::text::dec_chars;
use crate::text::money_chars;
use crate::text::money_string;
use crate::text::u64_string;

verus! {

/// A postal address as the gateway expects it.
#[derive(Clone)]
pub struct Address {
    pub first_name: String,
    pub last_name: String,
    pub company: String,
    pub address: String,
    pub city: String,
    pub state: String,
    pub zip: String,
    pub country: String,
}

impl Address {
    /// A fresh record with the same contents.
    pub fn duplicate(&self) -> (r: Address)
        ensures
            r.first_name@ == self.first_name@,
            r.last_name@ == self.last_name@,
            r.company@ == self.company@,
            r.address@ == self.address@,
            r.city@ == self.city@,
            r.state@ == self.state@,
            r.zip@ == self.zip@,
            r.country@ == self.country@,
    {
        Address {
            first_name: self.first_name.clone(),
            last_name: self.last_name.clone(),
            company: self.company.clone(),
            address: self.address.clone(),
            city: self.city.clone(),
            state: self.state.clone(),
            zip: self.zip.clone(),
            country: self.country.clone(),
        }
    }
}

/// The payment instrument of a charge.
#[derive(Clone)]
pub struct CreditCard {
    pub card_number: String,
    pub expiration_date: String,
    pub card_code: String,
}

impl CreditCard {
    /// A fresh record with the same contents.
    pub fn duplicate(&self) -> (r: CreditCard)
        ensures
            r.card_number@ == self.card_number@,
            r.expiration_date@ == self.expiration_date@,
            r.card_code@ == self.card_code@,
    {
        CreditCard {
            card_number: self.card_number.clone(),
            expiration_date: self.expiration_date.clone(),
            card_code: self.card_code.clone(),
        }
    }
}

/// A named fee line (shipping, taxes, duty) with a formatted amount.
pub struct AuthorizeNetFee {
    pub amount: String,
    pub name: String,
    pub description: String,
}

pub struct MerchantAuthentication {
    pub name: String,
    pub transaction_key: String,
}

pub struct Payment {
    pub credit_card: CreditCard,
}

pub struct AuthorizeNetCustomer {
    pub id: String,
}

pub struct AuthorizationIndicatorType {
    pub authorization_indicator: String,
}

pub struct ProcessingOptions {
    pub is_subsequent_auth: String,
}

pub struct SubsequentAuthInformation {
    pub original_network_trans_id: String,
    pub original_auth_amount: String,
    pub reason: String,
}

pub struct TransactionSetting {
    pub setting_name: String,
    pub setting_value: String,
}

pub struct TransactionSettings {
    pub setting: TransactionSetting,
}

pub struct UserField {
    pub name: String,
    pub value: String,
}

pub struct UserFields {
    pub user_field: Vec<UserField>,
}

impl UserFields {
    /// An empty set of user fields, the default for both requests and
    /// responses that carry none.
    pub fn get_default() -> (r: Self)
        ensures
            r.user_field@ =~= Seq::<UserField>::empty(),
    {
        UserFields { user_field: Vec::new() }
    }
}

pub struct TransactionRequest {
    pub transaction_type: String,
    pub amount: String,
    pub payment: Payment,
    pub line_items: Vec<()>,
    pub tax: AuthorizeNetFee,
    pub duty: AuthorizeNetFee,
    pub shipping: AuthorizeNetFee,
    pub po_number: String,
    pub customer: AuthorizeNetCustomer,
    pub bill_to: Address,
    pub ship_to: Address,
    pub customer_ip: String,
    pub transaction_settings: TransactionSettings,
    pub user_fields: UserFields,
    pub processing_options: ProcessingOptions,
    pub subsequent_auth_information: SubsequentAuthInformation,
    pub authorization_indicator_type: AuthorizationIndicatorType,
}

pub struct CreateTransactionRequest {
    pub merchant_authentication: MerchantAuthentication,
    pub ref_id: String,
    pub transaction_request: TransactionRequest,
}

/// The complete charge request sent to the gateway.
pub struct ChargeCreditCardRequest {
    pub create_transaction_request: CreateTransactionRequest,
}

impl ChargeCreditCardRequest {
    /// Assembles the charge request for an order: the invoice's total as the
    /// charge amount, its fee lines, the customer's payment instrument and
    /// addresses, the order id as the merchant reference, and the merchant's
    /// credentials.  Sending the request is the caller's affair.
    pub fn create(
        order: &Order,
        invoice: &Invoice,
        customer: &Customer,
        merchant_id: String,
        transaction_key: String,
        po_number: u64,
    ) -> (r: ChargeCreditCardRequest)
        ensures
            ({
                let ctr = r.create_transaction_request;
                let tr = ctr.transaction_request;
                &&& ctr.merchant_authentication.name == merchant_id
                &&& ctr.merchant_authentication.transaction_key == transaction_key
                &&& ctr.ref_id@ == dec_chars(order.id as nat)
                &&& tr.transaction_type@ == "authCaptureTransaction"@
                &&& tr.amount@ == money_chars(invoice.total as int)
                &&& tr.payment.credit_card.card_number@ == customer.credit_card.card_number@
                &&& tr.payment.credit_card.expiration_date@
                    == customer.credit_card.expiration_date@
                &&& tr.payment.credit_card.card_code@ == customer.credit_card.card_code@
                &&& tr.line_items@.len() == 0
                &&& tr.tax.name@ == "Taxes"@ && tr.tax.amount@ == money_chars(
                    invoice.taxes as int,
                )
                &&& tr.duty.name@ == ""@ && tr.duty.amount@ == "0"@
                &&& tr.shipping.name@ == "Shipping"@ && tr.shipping.amount@ == money_chars(
                    invoice.shipping as int,
                )
                &&& tr.po_number@ == dec_chars(po_number as nat)
                &&& tr.customer.id@ == "99999456654"@
                &&& tr.bill_to.first_name@ == customer.billing_address.first_name@
                &&& tr.bill_to.last_name@ == customer.billing_address.last_name@
                &&& tr.bill_to.address@ == customer.billing_address.address@
                &&& tr.bill_to.city@ == customer.billing_address.city@
                &&& tr.bill_to.state@ == customer.billing_address.state@
                &&& tr.bill_to.zip@ == customer.billing_address.zip@
                &&& tr.bill_to.country@ == customer.billing_address.country@
                &&& tr.ship_to.first_name@ == customer.shipping_address.first_name@
                &&& tr.ship_to.last_name@ == customer.shipping_address.last_name@
                &&& tr.ship_to.address@ == customer.shipping_address.address@
                &&& tr.ship_to.city@ == customer.shipping_address.city@
                &&& tr.ship_to.state@ == customer.shipping_address.state@
                &&& tr.ship_to.zip@ == customer.shipping_address.zip@
                &&& tr.ship_to.country@ == customer.shipping_address.country@
                &&& tr.customer_ip@ == customer.ip_address@
                &&& tr.transaction_settings.setting.setting_name@ == "testRequest"@
                &&& tr.transaction_settings.setting.setting_value@ == "false"@
                &&& tr.user_fields.user_field@.len() == 0
                &&& tr.processing_options.is_subsequent_auth@ == "true"@
                &&& tr.subsequent_auth_information.original_network_trans_id@
                    == "123456789NNNH"@
                &&& tr.subsequent_auth_information.original_auth_amount@ == "45"@
                &&& tr.subsequent_auth_information.reason@ == "resubmission"@
                &&& tr.authorization_indicator_type.authorization_indicator@ == "final"@
            }),
    {
        let ref_id = u64_string(order.id as u64);
        let transaction_type = "authCaptureTransaction".to_owned();
        let transaction_total = money_string(invoice.total);

        ChargeCreditCardRequest {
            create_transaction_request: CreateTransactionRequest {
                merchant_authentication: MerchantAuthentication {
                    name: merchant_id,
                    transaction_key,
                },
                ref_id,
                transaction_request: TransactionRequest {
                    transaction_type,
                    amount: transaction_total,
                    payment: Payment { credit_card: customer.credit_card.duplicate() },
                    line_items: Vec::new(),
                    tax: invoice.get_taxes(),
                    duty: invoice.get_duty(),
                    shipping: invoice.get_shipping(),
                    po_number: u64_string(po_number),
                    customer: AuthorizeNetCustomer { id: "99999456654".to_owned() },
                    bill_to: customer.billing_address.duplicate(),
                    ship_to: customer.shipping_address.duplicate(),
                    customer_ip: customer.ip_address.clone(),
                    transaction_settings: TransactionSettings {
                        setting: TransactionSetting {
                            setting_name: "testRequest".to_owned(),
                            setting_value: "false".to_owned(),
                        },
                    },
                    user_fields: UserFields { user_field: Vec::new() },
                    processing_options: ProcessingOptions {
                        is_subsequent_auth: "true".to_owned(),
                    },
                    subsequent_auth_information: SubsequentAuthInformation {
                        original_auth_amount: "45".to_owned(),
                        original_network_trans_id: "123456789NNNH".to_owned(),
                        reason: "resubmission".to_owned(),
                    },
                    authorization_indicator_type: AuthorizationIndicatorType {
                        authorization_indicator: "final".to_owned(),
                    },
                },
            },
        }
    }
}

pub struct TransactionResponseMessage {
    pub code: String,
    pub description: String,
}

pub struct TransactionResponse {
    pub response_code: String,
    pub auth_code: String,
    pub avs_result_code: String,
    pub cvv_result_code: String,
    pub trans_id: String,
    pub ref_trans_id: String,
    pub trans_hash: String,
    pub test_request: String,
    pub account_number: String,
    pub account_type: String,
    pub messages: Vec<TransactionResponseMessage>,
    pub user_fields: UserFields,
    pub trans_hash_sha2: String,
    pub supplemental_data_qualification_indicator: usize,
    pub network_trans_id: String,
}

pub struct TransactionResponseResultMessage {
    pub code: String,
    pub text: String,
}

pub struct TransactionResponseResultMessages {
    pub result_code: String,
    pub message: Vec<TransactionResponseResultMessage>,
}

/// The gateway's reply to a charge request.
pub struct ChargeCreditCardResponse {
    pub transaction_response: TransactionResponse,
    pub ref_id: String,
    pub messages: TransactionResponseResultMessages,
}

} // verus!
