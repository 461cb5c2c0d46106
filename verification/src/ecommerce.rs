//! Customers, discounts, and the invoice calculator.
//!
//! All money amounts are whole numbers of cents, and a tax rate is given in
//! basis points (hundredths of a percent), so every derived amount is an
//! exact integer computation.

use vstd::prelude::*;

use crate::authorize_net::Address;
use crate::authorize_net::AuthorizeNetFee;
use crate::authorize_net::CreditCard;
use crate::inventory::all_known;
use crate::inventory::first_unknown;
use crate::inventory::has_pid;
use crate::inventory::lemma_first_unknown_at;
use crate::inventory::lemma_pid_index_is;
use crate::inventory::pid_index;
use crate::inventory::price_at;
use crate::inventory::Item;
use crate::inventory::LedgerFault;
use crate::inventory::LockedInventory;
use crate::inventory::Order;
use crate::models::Product;
use crate::text::money_chars;
use crate::text::money_string;

verus! {

/// The payer details submitted together with an order.
#[derive(Clone)]
pub struct Customer {
    pub first_name: String,
    pub last_name: String,
    pub email: String,
    pub phone_number: String,
    pub ip_address: String,
    pub billing_address: Address,
    pub shipping_address: Address,
    pub credit_card: CreditCard,
}

/// A flat discount, in cents, subtracted from the subtotal.
pub struct Discount {
    pub amount: usize,
}

/// The monetary breakdown of an order, all in cents, computed once before
/// payment is attempted and then passed unchanged to the payment step.
#[derive(Clone)]
pub struct Invoice {
    pub subtotal: i64,
    pub shipping: i64,
    pub taxes: i64,
    pub total: i64,
}

/// The sum of line-item quantity times unit price over `items`
/// (meaningful when every item names a known product).
pub open spec fn gross_subtotal(products: Seq<Product>, items: Seq<Item>) -> int
    decreases items.len(),
{
    if items.len() == 0 {
        0
    } else {
        gross_subtotal(products, items.drop_last()) + items.last().qty * price_at(
            products,
            items.last().id as int,
        )
    }
}

/// The sum of the discount amounts.
pub open spec fn discount_total(discounts: Seq<Discount>) -> int
    decreases discounts.len(),
{
    if discounts.len() == 0 {
        0
    } else {
        discount_total(discounts.drop_last()) + discounts.last().amount
    }
}

/// The subtotal of an order: gross line-item value minus all discounts.
pub open spec fn net_subtotal(
    products: Seq<Product>,
    items: Seq<Item>,
    discounts: Seq<Discount>,
) -> int {
    gross_subtotal(products, items) - discount_total(discounts)
}

/// The tax on a subtotal at `bp` basis points, truncated toward zero.
pub open spec fn tax_of(net: int, bp: int) -> int {
    if net >= 0 {
        (net * bp) / 10000
    } else {
        -(((-net) * bp) / 10000)
    }
}

/// The machine bounds under which an invoice is computable in 64-bit cents:
/// the gross subtotal, the net subtotal, the tax and the grand total each
/// fit.  (Partial sums then fit as well, because line-item values and
/// discounts are each non-negative.)
pub open spec fn invoice_in_range(
    products: Seq<Product>,
    items: Seq<Item>,
    discounts: Seq<Discount>,
    shipping_fee: int,
    tax_rate_bp: int,
) -> bool {
    let net = net_subtotal(products, items, discounts);
    let taxes = tax_of(net, tax_rate_bp);
    &&& gross_subtotal(products, items) <= i64::MAX
    &&& i64::MIN <= net
    &&& i64::MIN <= taxes <= i64::MAX
    &&& i64::MIN <= net + shipping_fee + taxes <= i64::MAX
}

/// Extending a prefix of `items` by one adds that item's line value.
proof fn lemma_gross_extend(products: Seq<Product>, items: Seq<Item>, k: int)
    requires
        0 <= k < items.len(),
    ensures
        gross_subtotal(products, items.subrange(0, k + 1)) == gross_subtotal(
            products,
            items.subrange(0, k),
        ) + items[k].qty * price_at(products, items[k].id as int),
{
    assert(items.subrange(0, k + 1).drop_last() =~= items.subrange(0, k));
    assert(items.subrange(0, k + 1).last() == items[k]);
}

/// With positive quantities and known products of non-negative price, the
/// gross subtotal grows with the prefix.
proof fn lemma_gross_mono(products: Seq<Product>, items: Seq<Item>, k: int, m: int)
    requires
        0 <= k <= m <= items.len(),
        forall|j: int| 0 <= j < items.len() ==> (#[trigger] items[j]).qty > 0,
        forall|j: int|
            0 <= j < items.len() ==> price_at(products, (#[trigger] items[j]).id as int) >= 0,
    ensures
        gross_subtotal(products, items.subrange(0, k)) <= gross_subtotal(
            products,
            items.subrange(0, m),
        ),
    decreases m - k,
{
    if k < m {
        lemma_gross_extend(products, items, m - 1);
        lemma_gross_mono(products, items, k, m - 1);
        assert(items[m - 1].qty * price_at(products, items[m - 1].id as int) >= 0) by (
        nonlinear_arith)
            requires
                items[m - 1].qty > 0,
                price_at(products, items[m - 1].id as int) >= 0,
        ;
    }
}

/// Extending a prefix of the discounts by one adds that discount's amount.
proof fn lemma_discount_extend(discounts: Seq<Discount>, k: int)
    requires
        0 <= k < discounts.len(),
    ensures
        discount_total(discounts.subrange(0, k + 1)) == discount_total(discounts.subrange(0, k))
            + discounts[k].amount,
{
    assert(discounts.subrange(0, k + 1).drop_last() =~= discounts.subrange(0, k));
    assert(discounts.subrange(0, k + 1).last() == discounts[k]);
}

/// The discount total grows with the prefix.
proof fn lemma_discount_mono(discounts: Seq<Discount>, k: int, m: int)
    requires
        0 <= k <= m <= discounts.len(),
    ensures
        discount_total(discounts.subrange(0, k)) <= discount_total(discounts.subrange(0, m)),
    decreases m - k,
{
    if k < m {
        lemma_discount_extend(discounts, m - 1);
        lemma_discount_mono(discounts, k, m - 1);
    }
}

impl Invoice {
    /// Derives the invoice for `order` from the ledger's current prices:
    /// subtotal = line items minus discounts, taxes = subtotal at the given
    /// rate, total = subtotal + shipping + taxes.
    ///
    /// Reads prices only; stock is not consulted and not mutated.  A line
    /// item naming an unknown product is a data-integrity fault.
    pub fn create(
        inventory: &LockedInventory,
        order: &Order,
        discounts: Vec<Discount>,
        shipping_fee: i64,
        tax_rate_bp: u16,
    ) -> (r: Result<Invoice, LedgerFault>)
        requires
            inventory.wf(),
            order.wf(),
            shipping_fee >= 0,
            invoice_in_range(
                inventory.products@,
                order.items@,
                discounts@,
                shipping_fee as int,
                tax_rate_bp as int,
            ),
        ensures
            (r is Err <==> !all_known(inventory.products@, order.items@)),
            (r matches Err(f) ==> {
                let u = first_unknown(inventory.products@, order.items@);
                &&& 0 <= u < order.items@.len()
                &&& f == LedgerFault::MissingProduct(order.items@[u].id)
            }),
            (r matches Ok(inv) ==> {
                let net = net_subtotal(inventory.products@, order.items@, discounts@);
                &&& inv.subtotal == net
                &&& inv.shipping == shipping_fee
                &&& inv.taxes == tax_of(net, tax_rate_bp as int)
                &&& inv.total == net + shipping_fee + inv.taxes
            }),
    {
        let subtotal = match Self::calc_subtotal(inventory, order, discounts) {
            Ok(s) => s,
            Err(f) => {
                return Err(f);
            },
        };
        let taxes = Self::calc_taxes(subtotal, tax_rate_bp);
        let total128: i128 = subtotal as i128 + shipping_fee as i128 + taxes as i128;
        let total: i64 = total128 as i64;
        Ok(Invoice { subtotal, shipping: shipping_fee, taxes, total })
    }

    /// Sums line-item values from current prices, then subtracts discounts.
    fn calc_subtotal(inventory: &LockedInventory, order: &Order, discounts: Vec<Discount>) -> (r:
        Result<i64, LedgerFault>)
        requires
            inventory.wf(),
            order.wf(),
            gross_subtotal(inventory.products@, order.items@) <= i64::MAX,
            i64::MIN <= net_subtotal(inventory.products@, order.items@, discounts@),
        ensures
            (r is Err <==> !all_known(inventory.products@, order.items@)),
            (r matches Err(f) ==> {
                let u = first_unknown(inventory.products@, order.items@);
                &&& 0 <= u < order.items@.len()
                &&& f == LedgerFault::MissingProduct(order.items@[u].id)
            }),
            (r matches Ok(s) ==> s == net_subtotal(
                inventory.products@,
                order.items@,
                discounts@,
            )),
    {
        let products = &inventory.products;
        let n = order.items.len();
        let ghost pseq = inventory.products@;

        // a line item naming an unknown product aborts the calculation
        let mut k: usize = 0;
        while k < n
            invariant
                k <= n,
                forall|j: int|
                    0 <= j < k ==> has_pid(pseq, (#[trigger] order.items@[j]).id as int),
            decreases n - k,
        {
            let it = order.items[k];
            if inventory.find_product_index(it.id).is_none() {
                proof {
                    lemma_first_unknown_at(pseq, order.items@, k as int);
                }
                return Err(LedgerFault::MissingProduct(it.id));
            }
            k += 1;
        }
        proof {
            lemma_first_unknown_at(pseq, order.items@, n as int);
            assert(order.items@.subrange(0, 0) =~= Seq::<Item>::empty());
            // every named product exists, so every line price is an actual
            // (non-negative) ledger price
            assert forall|j: int| 0 <= j < n implies price_at(
                pseq,
                (#[trigger] order.items@[j]).id as int,
            ) >= 0 by {
                let pid = order.items@[j].id as int;
                let w = pid_index(pseq, pid);
                assert(0 <= w < pseq.len() && pseq[w].id == pid);
                assert(pseq[w].wf());
            }
        }

        let mut subtotal: i64 = 0;
        let mut k: usize = 0;
        while k < n
            invariant
                k <= n,
                subtotal == gross_subtotal(pseq, order.items@.subrange(0, k as int)),
                0 <= subtotal,
            decreases n - k,
        {
            let it = order.items[k];
            let idx = match inventory.find_product_index(it.id) {
                Some(i) => i,
                None => {
                    proof {
                        assert(false);
                    }
                    0
                },
            };
            proof {
                lemma_pid_index_is(pseq, idx as int);
            }
            let price = products[idx].price;
            proof {
                assert(0 <= (it.qty as int) * (price as int) <= i128::MAX) by (nonlinear_arith)
                    requires
                        0 < it.qty <= i32::MAX,
                        0 <= price <= i64::MAX,
                ;
            }
            let line128: i128 = it.qty as i128 * price as i128;
            proof {
                lemma_gross_extend(pseq, order.items@, k as int);
                lemma_gross_mono(pseq, order.items@, k as int + 1, n as int);
                lemma_gross_mono(pseq, order.items@, 0, k as int);
                assert(order.items@.subrange(0, n as int) =~= order.items@);
                assert(price_at(pseq, it.id as int) == price as int);
                assert(line128 == it.qty * price_at(pseq, it.id as int));
            }
            subtotal = subtotal + line128 as i64;
            k += 1;
        }
        proof {
            assert(order.items@.subrange(0, n as int) =~= order.items@);
            assert(discounts@.subrange(0, 0) =~= Seq::<Discount>::empty());
        }
        let m = discounts.len();
        let mut d: usize = 0;
        while d < m
            invariant
                d <= m,
                subtotal == gross_subtotal(pseq, order.items@) - discount_total(
                    discounts@.subrange(0, d as int),
                ),
            decreases m - d,
        {
            proof {
                lemma_discount_extend(discounts@, d as int);
                lemma_discount_mono(discounts@, d as int + 1, m as int);
                assert(discounts@.subrange(0, m as int) =~= discounts@);
            }
            let next128: i128 = subtotal as i128 - discounts[d].amount as i128;
            subtotal = next128 as i64;
            d += 1;
        }
        proof {
            assert(discounts@.subrange(0, m as int) =~= discounts@);
        }
        Ok(subtotal)
    }

    /// The tax on a subtotal, truncated toward zero.
    fn calc_taxes(subtotal: i64, tax_rate_bp: u16) -> (t: i64)
        requires
            i64::MIN <= tax_of(subtotal as int, tax_rate_bp as int) <= i64::MAX,
        ensures
            t == tax_of(subtotal as int, tax_rate_bp as int),
    {
        if subtotal >= 0 {
            let mag: u128 = (subtotal as u128) * (tax_rate_bp as u128) / 10000;
            mag as i64
        } else {
            let neg: u128 = (-(subtotal as i128)) as u128;
            let mag: u128 = neg * (tax_rate_bp as u128) / 10000;
            (-(mag as i128)) as i64
        }
    }

    /// The shipping fee as a gateway fee line.
    pub fn get_shipping(&self) -> (r: AuthorizeNetFee)
        ensures
            r.name@ == "Shipping"@,
            r.description@ == "Flat rate shipping fee"@,
            r.amount@ == money_chars(self.shipping as int),
    {
        AuthorizeNetFee {
            name: "Shipping".to_owned(),
            description: "Flat rate shipping fee".to_owned(),
            amount: money_string(self.shipping),
        }
    }

    /// The taxes as a gateway fee line.
    pub fn get_taxes(&self) -> (r: AuthorizeNetFee)
        ensures
            r.name@ == "Taxes"@,
            r.description@ == ""@,
            r.amount@ == money_chars(self.taxes as int),
    {
        AuthorizeNetFee {
            name: "Taxes".to_owned(),
            description: "".to_owned(),
            amount: money_string(self.taxes),
        }
    }

    /// No duty is charged: an empty fee line with a zero amount.
    pub fn get_duty(&self) -> (r: AuthorizeNetFee)
        ensures
            r.name@ == ""@,
            r.description@ == ""@,
            r.amount@ == "0"@,
    {
        AuthorizeNetFee {
            name: "".to_owned(),
            description: "".to_owned(),
            amount: "0".to_owned(),
        }
    }
}

} // verus!
