//! The inventory ledger: authoritative stock counts and the holds that
//! reserve them.
//!
//! A hold records that stock has already been subtracted for an order and is
//! waiting for the payment to settle.  The ledger invariant `wf` ties the two
//! together: stock never goes negative, at most one hold exists per order id,
//! and adding every outstanding hold back never overflows the stock counter —
//! which is exactly what makes a rollback safe at any time.

use vstd::prelude::*;

use crate::ecommerce::Customer;
use crate::models::NewProduct;
use crate::models::Product;

verus! {

/// One line of an order: a product id and a quantity.
#[derive(Clone, Copy, PartialEq, Eq, Structural, Debug)]
pub struct Item {
    pub id: i32,
    pub qty: i32,
}

/// An order: an id unique among all in-flight orders, and its line items.
#[derive(Clone)]
pub struct Order {
    pub id: usize,
    pub items: Vec<Item>,
}

impl Order {
    /// Line-item quantities are positive once an order has been created.
    pub open spec fn wf(self) -> bool {
        forall|k: int| 0 <= k < self.items@.len() ==> (#[trigger] self.items@[k]).qty > 0
    }
}

/// An order submission: payer details plus the requested line items.
#[derive(Clone)]
pub struct CreateOrderRequest {
    pub customer: Customer,
    pub items: Vec<Item>,
}

/// Stock reserved for one order, pending commit or rollback.
#[derive(Clone)]
pub struct Hold {
    pub order_id: usize,
    pub items: Vec<Item>,
}

/// Faults that abort a ledger operation without partial effect.
#[derive(Clone, Copy, PartialEq, Eq, Structural, Debug)]
pub enum LedgerFault {
    /// A line item referenced a product id the ledger does not know:
    /// a data-integrity fault, distinct from mere insufficient stock.
    MissingProduct(i32),
    /// The order id has no unresolved hold, so there is nothing to undo;
    /// guards against resolving the same hold twice.
    NoActiveHold,
}

/// Whether some product in `products` has id `pid`.
pub open spec fn has_pid(products: Seq<Product>, pid: int) -> bool {
    exists|i: int| 0 <= i < products.len() && products[i].id == pid
}

/// The index of the product with id `pid` (meaningful when `has_pid` holds
/// and ids are unique).
pub open spec fn pid_index(products: Seq<Product>, pid: int) -> int {
    choose|i: int| 0 <= i < products.len() && products[i].id == pid
}

/// The stock on hand for product `pid`.
pub open spec fn stock_at(products: Seq<Product>, pid: int) -> int {
    products[pid_index(products, pid)].stock as int
}

/// The unit price of product `pid`.
pub open spec fn price_at(products: Seq<Product>, pid: int) -> int {
    products[pid_index(products, pid)].price as int
}

/// No two products share an id.
pub open spec fn unique_ids(products: Seq<Product>) -> bool {
    forall|i: int, j: int|
        0 <= i < j < products.len() ==> (#[trigger] products[i]).id != (#[trigger] products[j]).id
}

/// The total quantity of product `pid` requested across `items`
/// (an order may name the same product in several line items).
pub open spec fn requested_qty(items: Seq<Item>, pid: int) -> int
    decreases items.len(),
{
    if items.len() == 0 {
        0
    } else {
        requested_qty(items.drop_last(), pid) + if items.last().id == pid {
            items.last().qty as int
        } else {
            0
        }
    }
}

/// Every line item of `items` names a product that exists in `products`.
pub open spec fn all_known(products: Seq<Product>, items: Seq<Item>) -> bool {
    forall|k: int| 0 <= k < items.len() ==> has_pid(products, (#[trigger] items[k]).id as int)
}

/// The position of the first line item naming an unknown product, or -1.
pub open spec fn first_unknown(products: Seq<Product>, items: Seq<Item>) -> int
    decreases items.len(),
{
    if items.len() == 0 {
        -1
    } else if !has_pid(products, items[0].id as int) {
        0
    } else {
        let rest = first_unknown(products, items.drop_first());
        if rest < 0 {
            -1
        } else {
            rest + 1
        }
    }
}

/// A reservation can be granted: every line item names a known product and,
/// per product, the stock on hand covers the whole requested quantity.
pub open spec fn can_hold(products: Seq<Product>, items: Seq<Item>) -> bool {
    forall|k: int|
        0 <= k < items.len() ==> {
            let pid = (#[trigger] items[k]).id as int;
            has_pid(products, pid) && requested_qty(items, pid) <= stock_at(products, pid)
        }
}

/// `p` with its stock replaced.
pub open spec fn with_stock(p: Product, stock: int) -> Product {
    Product { id: p.id, title: p.title, stock: stock as i32, price: p.price }
}

/// The stock levels after reserving `items`: each product loses the quantity
/// requested of it.
pub open spec fn apply_hold(products: Seq<Product>, items: Seq<Item>) -> Seq<Product> {
    Seq::new(
        products.len(),
        |i: int|
            with_stock(
                products[i],
                products[i].stock - requested_qty(items, products[i].id as int),
            ),
    )
}

/// The stock levels after releasing `items` back: the exact inverse of
/// `apply_hold`.
pub open spec fn apply_release(products: Seq<Product>, items: Seq<Item>) -> Seq<Product> {
    Seq::new(
        products.len(),
        |i: int|
            with_stock(
                products[i],
                products[i].stock + requested_qty(items, products[i].id as int),
            ),
    )
}

/// Whether an unresolved hold exists for `order_id`.
pub open spec fn has_hold(holds: Seq<Hold>, order_id: nat) -> bool {
    exists|i: int| 0 <= i < holds.len() && holds[i].order_id == order_id
}

/// The index of the hold for `order_id` (meaningful when `has_hold` holds
/// and hold ids are unique).
pub open spec fn hold_index(holds: Seq<Hold>, order_id: nat) -> int {
    choose|i: int| 0 <= i < holds.len() && holds[i].order_id == order_id
}

/// At most one hold per order id.
pub open spec fn unique_holds(holds: Seq<Hold>) -> bool {
    forall|i: int, j: int|
        0 <= i < j < holds.len() ==> (#[trigger] holds[i]).order_id != (
        #[trigger] holds[j]).order_id
}

/// A hold only reserves positive quantities of known products.
pub open spec fn hold_wf(products: Seq<Product>, h: Hold) -> bool {
    forall|k: int|
        0 <= k < h.items@.len() ==> {
            let it = #[trigger] h.items@[k];
            it.qty > 0 && has_pid(products, it.id as int)
        }
}

/// The total quantity of product `pid` reserved across all holds.
pub open spec fn total_held(holds: Seq<Hold>, pid: int) -> int
    decreases holds.len(),
{
    if holds.len() == 0 {
        0
    } else {
        total_held(holds.drop_last(), pid) + requested_qty(holds.last().items@, pid)
    }
}

/// Extending a prefix of `items` by one line item adds that item's quantity
/// to the per-product request total (for its own product only).
proof fn lemma_requested_extend(items: Seq<Item>, k: int, pid: int)
    requires
        0 <= k < items.len(),
    ensures
        requested_qty(items.subrange(0, k + 1), pid) == requested_qty(items.subrange(0, k), pid)
            + if items[k].id == pid {
            items[k].qty as int
        } else {
            0
        },
{
    assert(items.subrange(0, k + 1).drop_last() =~= items.subrange(0, k));
    assert(items.subrange(0, k + 1).last() == items[k]);
}

/// With positive quantities, the request total over a longer prefix is at
/// least the total over a shorter one.
proof fn lemma_requested_mono(items: Seq<Item>, k: int, m: int, pid: int)
    requires
        0 <= k <= m <= items.len(),
        forall|j: int| 0 <= j < items.len() ==> (#[trigger] items[j]).qty > 0,
    ensures
        requested_qty(items.subrange(0, k), pid) <= requested_qty(items.subrange(0, m), pid),
    decreases m - k,
{
    if k < m {
        lemma_requested_extend(items, m - 1, pid);
        lemma_requested_mono(items, k, m - 1, pid);
    }
}

/// A product that no line item names has a request total of zero.
proof fn lemma_requested_absent(items: Seq<Item>, pid: int)
    requires
        forall|k: int| 0 <= k < items.len() ==> (#[trigger] items[k]).id != pid,
    ensures
        requested_qty(items, pid) == 0,
    decreases items.len(),
{
    if items.len() > 0 {
        lemma_requested_absent(items.drop_last(), pid);
    }
}

/// With positive quantities, a request total is never negative.
proof fn lemma_requested_nonneg(items: Seq<Item>, pid: int)
    requires
        forall|j: int| 0 <= j < items.len() ==> (#[trigger] items[j]).qty > 0,
    ensures
        requested_qty(items, pid) >= 0,
    decreases items.len(),
{
    if items.len() > 0 {
        lemma_requested_nonneg(items.drop_last(), pid);
    }
}

/// The whole sequence is its own prefix, so `requested_qty` of the full
/// subrange and of the sequence agree.
proof fn lemma_requested_full(items: Seq<Item>, pid: int)
    ensures
        requested_qty(items.subrange(0, items.len() as int), pid) == requested_qty(items, pid),
{
    assert(items.subrange(0, items.len() as int) =~= items);
}

/// Under unique ids, a matching index is the index `pid_index` denotes.
pub proof fn lemma_pid_index_is(products: Seq<Product>, i: int)
    requires
        unique_ids(products),
        0 <= i < products.len(),
    ensures
        has_pid(products, products[i].id as int),
        pid_index(products, products[i].id as int) == i,
        stock_at(products, products[i].id as int) == products[i].stock as int,
{
    let pid = products[i].id as int;
    assert(has_pid(products, pid));
    let j = pid_index(products, pid);
    assert(0 <= j < products.len() && products[j].id == pid);
    if i != j {
        assert(products[i].id != products[j].id);
    }
}

/// Appending a hold adds its request totals to the per-product held totals.
proof fn lemma_total_held_push(holds: Seq<Hold>, h: Hold, pid: int)
    ensures
        total_held(holds.push(h), pid) == total_held(holds, pid) + requested_qty(h.items@, pid),
{
    assert(holds.push(h).drop_last() =~= holds);
    assert(holds.push(h).last() == h);
}

/// Removing a hold subtracts its request totals from the per-product held
/// totals.
proof fn lemma_total_held_remove(holds: Seq<Hold>, i: int, pid: int)
    requires
        0 <= i < holds.len(),
    ensures
        total_held(holds.remove(i), pid) == total_held(holds, pid) - requested_qty(
            holds[i].items@,
            pid,
        ),
    decreases holds.len(),
{
    if i == holds.len() - 1 {
        assert(holds.remove(i) =~= holds.drop_last());
    } else {
        assert(holds.remove(i).drop_last() =~= holds.drop_last().remove(i));
        assert(holds.remove(i).last() == holds.last());
        lemma_total_held_remove(holds.drop_last(), i, pid);
    }
}

/// Every hold in the sequence reserves only positive quantities.
pub open spec fn holds_positive(holds: Seq<Hold>) -> bool {
    forall|h: int|
        0 <= h < holds.len() ==> forall|k: int|
            0 <= k < (#[trigger] holds[h]).items@.len() ==> (#[trigger] holds[h].items@[k]).qty > 0
}

/// With positive quantities everywhere, the total held is at least zero and
/// at least any single hold's request total.
proof fn lemma_total_held_bound(holds: Seq<Hold>, i: int, pid: int)
    requires
        0 <= i < holds.len(),
        holds_positive(holds),
    ensures
        requested_qty(holds[i].items@, pid) <= total_held(holds, pid),
        total_held(holds, pid) >= 0,
    decreases holds.len(),
{
    let last = holds[holds.len() - 1];
    let hd = holds.drop_last();
    assert(last == holds.last());
    assert(total_held(holds, pid) == total_held(hd, pid) + requested_qty(last.items@, pid));
    lemma_requested_nonneg(last.items@, pid);
    if holds.len() == 1 {
        assert(hd.len() == 0);
        assert(total_held(hd, pid) == 0);
        assert(holds[0] == last);
    } else {
        assert(holds_positive(hd)) by {
            assert(forall|h: int| 0 <= h < hd.len() ==> hd[h] == holds[h]);
        }
        if i == holds.len() - 1 {
            lemma_total_held_bound(hd, 0, pid);
        } else {
            assert(hd[i] == holds[i]);
            lemma_total_held_bound(hd, i, pid);
        }
    }
}

/// Characterizes `first_unknown` by a scan: if the first `k` line items name
/// known products and item `k` (when it exists) does not, the scan stops at
/// `k`.
pub proof fn lemma_first_unknown_at(products: Seq<Product>, items: Seq<Item>, k: int)
    requires
        0 <= k <= items.len(),
        forall|j: int| 0 <= j < k ==> has_pid(products, (#[trigger] items[j]).id as int),
        k < items.len() ==> !has_pid(products, items[k].id as int),
    ensures
        first_unknown(products, items) == if k < items.len() {
            k
        } else {
            -1
        },
    decreases items.len(),
{
    if items.len() > 0 && k > 0 {
        let rest = items.drop_first();
        assert forall|j: int| 0 <= j < k - 1 implies has_pid(
            products,
            (#[trigger] rest[j]).id as int,
        ) by {
            assert(rest[j] == items[j + 1]);
        }
        if k - 1 < rest.len() {
            assert(rest[k - 1] == items[k]);
        }
        lemma_first_unknown_at(products, rest, k - 1);
    }
}

/// Two product sequences with the same ids at the same positions agree on
/// `has_pid`, on `unique_ids`, and (under unique ids) on `pid_index`.
proof fn lemma_same_ids(p1: Seq<Product>, p2: Seq<Product>)
    requires
        p1.len() == p2.len(),
        forall|i: int| 0 <= i < p1.len() ==> (#[trigger] p1[i]).id == (#[trigger] p2[i]).id,
    ensures
        forall|pid: int| #[trigger] has_pid(p1, pid) == has_pid(p2, pid),
        unique_ids(p1) == unique_ids(p2),
        unique_ids(p1) ==> forall|pid: int| #[trigger]
            has_pid(p1, pid) ==> pid_index(p1, pid) == pid_index(p2, pid),
{
    assert forall|i: int, j: int| 0 <= i < j < p1.len() && (#[trigger] p1[i]).id == (
    #[trigger] p1[j]).id implies p2[i].id == p2[j].id by {}
    assert forall|i: int, j: int| 0 <= i < j < p2.len() && (#[trigger] p2[i]).id == (
    #[trigger] p2[j]).id implies p1[i].id == p1[j].id by {}
    assert(unique_ids(p1) == unique_ids(p2));
    assert forall|pid: int| #[trigger] has_pid(p1, pid) == has_pid(p2, pid) by {
        if has_pid(p1, pid) {
            let w = choose|w: int| 0 <= w < p1.len() && p1[w].id == pid;
            assert(p2[w].id == pid);
        }
        if has_pid(p2, pid) {
            let w = choose|w: int| 0 <= w < p2.len() && p2[w].id == pid;
            assert(p1[w].id == pid);
        }
    }
    if unique_ids(p1) {
        assert forall|pid: int| #[trigger] has_pid(p1, pid) implies pid_index(p1, pid) == pid_index(
            p2,
            pid,
        ) by {
            let w1 = pid_index(p1, pid);
            assert(0 <= w1 < p1.len() && p1[w1].id == pid);
            assert(p2[w1].id == pid);
            let w2 = pid_index(p2, pid);
            assert(0 <= w2 < p2.len() && p2[w2].id == pid);
            assert(p1[w2].id == pid);
            if w1 != w2 {
                assert(p1[w1].id != p1[w2].id);
            }
        }
    }
}

/// Under unique hold ids, a matching index is the index `hold_index` denotes.
proof fn lemma_hold_index_is(holds: Seq<Hold>, i: int)
    requires
        unique_holds(holds),
        0 <= i < holds.len(),
    ensures
        has_hold(holds, holds[i].order_id as nat),
        hold_index(holds, holds[i].order_id as nat) == i,
{
    let oid = holds[i].order_id as nat;
    assert(has_hold(holds, oid));
    let j = hold_index(holds, oid);
    assert(0 <= j < holds.len() && holds[j].order_id == oid);
    if i != j {
        assert(holds[i].order_id != holds[j].order_id);
    }
}

/// A grantable reservation, read product by product: every product's
/// requested total is between zero and its stock on hand.
proof fn lemma_can_hold_pointwise(products: Seq<Product>, items: Seq<Item>)
    requires
        unique_ids(products),
        can_hold(products, items),
        forall|k: int| 0 <= k < items.len() ==> (#[trigger] items[k]).qty > 0,
        forall|i: int| 0 <= i < products.len() ==> (#[trigger] products[i]).stock >= 0,
    ensures
        forall|i: int|
            0 <= i < products.len() ==> 0 <= requested_qty(
                items,
                (#[trigger] products[i]).id as int,
            ) <= products[i].stock,
{
    assert forall|i: int| 0 <= i < products.len() implies 0 <= requested_qty(
        items,
        (#[trigger] products[i]).id as int,
    ) <= products[i].stock by {
        let pid = products[i].id as int;
        lemma_requested_nonneg(items, pid);
        if exists|j: int| 0 <= j < items.len() && items[j].id as int == pid {
            let j = choose|j: int| 0 <= j < items.len() && items[j].id as int == pid;
            assert(0 <= j < items.len());
            assert((items[j].id as int) == pid);
            assert(has_pid(products, items[j].id as int) && requested_qty(
                items,
                items[j].id as int,
            ) <= stock_at(products, items[j].id as int));
            lemma_pid_index_is(products, i);
            assert(stock_at(products, pid) == products[i].stock as int);
        } else {
            assert forall|j: int| 0 <= j < items.len() implies (#[trigger] items[j]).id != pid
                by {}
            lemma_requested_absent(items, pid);
        }
    }
}

/// Reversibility: releasing the very quantities a grantable reservation took
/// restores every product to its exact pre-reserve stock value.
pub proof fn lemma_rollback_restores_stock(products: Seq<Product>, items: Seq<Item>)
    requires
        forall|k: int| 0 <= k < items.len() ==> (#[trigger] items[k]).qty > 0,
        forall|i: int|
            0 <= i < products.len() ==> requested_qty(items, (#[trigger] products[i]).id as int)
                <= products[i].stock,
    ensures
        apply_release(apply_hold(products, items), items) == products,
{
    let held = apply_hold(products, items);
    assert forall|i: int| 0 <= i < products.len() implies apply_release(held, items)[i]
        == products[i] by {
        let pid = products[i].id as int;
        let q = requested_qty(items, pid);
        lemma_requested_nonneg(items, pid);
        assert(held[i] == with_stock(products[i], products[i].stock - q));
        assert(held[i].stock == products[i].stock - q);
        assert(held[i].id == products[i].id);
        assert(apply_release(held, items)[i] == with_stock(held[i], held[i].stock + q));
    }
    assert(apply_release(held, items) =~= products);
}

/// The ledger invariant over its components: well-formed products with
/// unique ids below the allocation cursor, at most one hold per order id,
/// holds that reserve only positive quantities of known products, and stock
/// counts that can absorb every outstanding hold without overflowing.
pub open spec fn inv_wf(products: Seq<Product>, holds: Seq<Hold>, next_product_id: int) -> bool {
    &&& unique_ids(products)
    &&& forall|i: int| 0 <= i < products.len() ==> (#[trigger] products[i]).wf()
    &&& forall|i: int| 0 <= i < products.len() ==> (#[trigger] products[i]).id < next_product_id
    &&& 1 <= next_product_id
    &&& unique_holds(holds)
    &&& forall|h: int| 0 <= h < holds.len() ==> hold_wf(products, #[trigger] holds[h])
    &&& forall|i: int|
        0 <= i < products.len() ==> (#[trigger] products[i]).stock + total_held(
            holds,
            products[i].id as int,
        ) <= i32::MAX
}

/// Granting a grantable reservation preserves the ledger invariant:
/// the new hold's decrements are taken from covered stock, and every
/// older hold still fits under the (now lower) stock counts.
proof fn lemma_grant_preserves_wf(products: Seq<Product>, holds: Seq<Hold>, next: int, h: Hold)
    requires
        inv_wf(products, holds, next),
        can_hold(products, h.items@),
        forall|k: int| 0 <= k < h.items@.len() ==> (#[trigger] h.items@[k]).qty > 0,
        !has_hold(holds, h.order_id as nat),
    ensures
        inv_wf(apply_hold(products, h.items@), holds.push(h), next),
{
    let items = h.items@;
    let products1 = apply_hold(products, items);
    let holds1 = holds.push(h);
    lemma_can_hold_pointwise(products, items);
    assert forall|i: int| 0 <= i < products.len() implies (#[trigger] products1[i]).id
        == products[i].id && products1[i].title == products[i].title && products1[i].price
        == products[i].price && products1[i].stock as int == products[i].stock - requested_qty(
        items,
        products[i].id as int,
    ) by {
        assert(products1[i] == with_stock(
            products[i],
            products[i].stock - requested_qty(items, products[i].id as int),
        ));
    }
    lemma_same_ids(products, products1);
    assert forall|i: int| 0 <= i < products1.len() implies (#[trigger] products1[i]).wf() by {
        assert(0 <= requested_qty(items, products[i].id as int) <= products[i].stock);
    }
    assert forall|g: int| 0 <= g < holds1.len() implies hold_wf(products1, #[trigger] holds1[g])
        by {
        if g < holds.len() {
            assert(holds1[g] == holds[g]);
            assert(hold_wf(products, holds[g]));
        } else {
            assert(holds1[g] == h);
        }
    }
    assert forall|i: int| 0 <= i < products1.len() implies (#[trigger] products1[i]).stock
        + total_held(holds1, products1[i].id as int) <= i32::MAX by {
        lemma_total_held_push(holds, h, products[i].id as int);
    }
    assert forall|i: int, j: int| 0 <= i < j < holds1.len() implies (
    #[trigger] holds1[i]).order_id != (#[trigger] holds1[j]).order_id by {
        if j < holds.len() {
        } else {
            assert(holds1[j] == h);
            assert(holds1[i] == holds[i]);
            if holds[i].order_id == h.order_id {
                assert(has_hold(holds, h.order_id as nat));
            }
        }
    }
}

/// Removing a hold preserves the ledger invariant and, under unique hold
/// ids, leaves no hold for that order id behind.
proof fn lemma_commit_preserves_wf(products: Seq<Product>, holds: Seq<Hold>, next: int, i: int)
    requires
        inv_wf(products, holds, next),
        0 <= i < holds.len(),
    ensures
        inv_wf(products, holds.remove(i), next),
        !has_hold(holds.remove(i), holds[i].order_id as nat),
{
    let holds1 = holds.remove(i);
    assert(holds_positive(holds)) by {
        assert forall|h: int| 0 <= h < holds.len() implies forall|k: int|
            0 <= k < (#[trigger] holds[h]).items@.len() ==> (#[trigger] holds[h].items@[k]).qty
                > 0 by {
            assert(hold_wf(products, holds[h]));
        }
    }
    assert forall|a: int, b: int| 0 <= a < b < holds1.len() implies (
    #[trigger] holds1[a]).order_id != (#[trigger] holds1[b]).order_id by {
        assert(holds1[a] == if a < i {
            holds[a]
        } else {
            holds[a + 1]
        });
        assert(holds1[b] == if b < i {
            holds[b]
        } else {
            holds[b + 1]
        });
    }
    assert forall|g: int| 0 <= g < holds1.len() implies hold_wf(products, #[trigger] holds1[g])
        by {
        assert(holds1[g] == if g < i {
            holds[g]
        } else {
            holds[g + 1]
        });
    }
    assert forall|j: int| 0 <= j < products.len() implies (#[trigger] products[j]).stock
        + total_held(holds1, products[j].id as int) <= i32::MAX by {
        let pid = products[j].id as int;
        lemma_total_held_remove(holds, i, pid);
        lemma_requested_nonneg(holds[i].items@, pid);
    }
    assert forall|g: int| 0 <= g < holds1.len() implies (#[trigger] holds1[g]).order_id != holds[i].order_id by {
        assert(holds1[g] == if g < i {
            holds[g]
        } else {
            holds[g + 1]
        });
    }
    if has_hold(holds1, holds[i].order_id as nat) {
        let w = choose|w: int|
            0 <= w < holds1.len() && holds1[w].order_id == holds[i].order_id as nat;
        assert(holds1[w].order_id != holds[i].order_id);
    }
}

/// Rolling a hold back — returning its quantities to stock and dropping the
/// hold record — preserves the ledger invariant.
proof fn lemma_release_preserves_wf(products: Seq<Product>, holds: Seq<Hold>, next: int, i: int)
    requires
        inv_wf(products, holds, next),
        0 <= i < holds.len(),
    ensures
        inv_wf(apply_release(products, holds[i].items@), holds.remove(i), next),
        !has_hold(holds.remove(i), holds[i].order_id as nat),
{
    let items = holds[i].items@;
    let products1 = apply_release(products, items);
    let holds1 = holds.remove(i);
    lemma_commit_preserves_wf(products, holds, next, i);
    assert(holds_positive(holds)) by {
        assert forall|h: int| 0 <= h < holds.len() implies forall|k: int|
            0 <= k < (#[trigger] holds[h]).items@.len() ==> (#[trigger] holds[h].items@[k]).qty
                > 0 by {
            assert(hold_wf(products, holds[h]));
        }
    }
    assert forall|j: int| 0 <= j < products.len() implies (#[trigger] products1[j]).id
        == products[j].id && products1[j].title == products[j].title && products1[j].price
        == products[j].price && products1[j].stock as int == products[j].stock + requested_qty(
        items,
        products[j].id as int,
    ) by {
        let pid = products[j].id as int;
        lemma_total_held_bound(holds, i, pid);
        lemma_requested_nonneg(items, pid);
        assert(products1[j] == with_stock(
            products[j],
            products[j].stock + requested_qty(items, pid),
        ));
    }
    lemma_same_ids(products, products1);
    assert forall|j: int| 0 <= j < products1.len() implies (#[trigger] products1[j]).wf() by {
        lemma_requested_nonneg(items, products[j].id as int);
    }
    assert forall|g: int| 0 <= g < holds1.len() implies hold_wf(products1, #[trigger] holds1[g])
        by {
        assert(holds1[g] == if g < i {
            holds[g]
        } else {
            holds[g + 1]
        });
        assert(hold_wf(products, holds1[g]));
    }
    assert forall|j: int| 0 <= j < products1.len() implies (#[trigger] products1[j]).stock
        + total_held(holds1, products1[j].id as int) <= i32::MAX by {
        let pid = products[j].id as int;
        lemma_total_held_remove(holds, i, pid);
    }
}

/// A product id that no hold's line items name has a total held quantity of
/// zero.
proof fn lemma_total_held_absent(holds: Seq<Hold>, pid: int)
    requires
        forall|h: int|
            0 <= h < holds.len() ==> forall|k: int|
                0 <= k < (#[trigger] holds[h]).items@.len() ==> (#[trigger] holds[h].items@[k]).id
                    != pid,
    ensures
        total_held(holds, pid) == 0,
    decreases holds.len(),
{
    if holds.len() > 0 {
        let last = holds[holds.len() - 1];
        assert(last == holds.last());
        lemma_requested_absent(last.items@, pid);
        let hd = holds.drop_last();
        assert(forall|h: int| 0 <= h < hd.len() ==> hd[h] == holds[h]);
        lemma_total_held_absent(hd, pid);
    }
}

/// Extending a prefix of the holds by one hold adds that hold's request
/// totals to the per-product held totals.
proof fn lemma_total_held_extend(holds: Seq<Hold>, h: int, pid: int)
    requires
        0 <= h < holds.len(),
    ensures
        total_held(holds.subrange(0, h + 1), pid) == total_held(holds.subrange(0, h), pid)
            + requested_qty(holds[h].items@, pid),
{
    assert(holds.subrange(0, h + 1).drop_last() =~= holds.subrange(0, h));
    assert(holds.subrange(0, h + 1).last() == holds[h]);
}

/// With positive quantities everywhere, the held total over a longer prefix
/// of the holds is at least the total over a shorter one.
proof fn lemma_total_held_mono(holds: Seq<Hold>, k: int, m: int, pid: int)
    requires
        0 <= k <= m <= holds.len(),
        holds_positive(holds),
    ensures
        total_held(holds.subrange(0, k), pid) <= total_held(holds.subrange(0, m), pid),
    decreases m - k,
{
    if k < m {
        lemma_total_held_extend(holds, m - 1, pid);
        lemma_requested_nonneg(holds[m - 1].items@, pid);
        lemma_total_held_mono(holds, k, m - 1, pid);
    }
}

/// Sums the quantity requested of product `pid` across `items`.
fn requested_of(items: &Vec<Item>, pid: i32) -> (q: i64)
    requires
        forall|k: int| 0 <= k < items@.len() ==> (#[trigger] items@[k]).qty > 0,
        requested_qty(items@, pid as int) <= i32::MAX,
    ensures
        q == requested_qty(items@, pid as int),
        0 <= q <= i32::MAX,
{
    let n = items.len();
    let mut q: i64 = 0;
    proof {
        assert(items@.subrange(0, 0) =~= Seq::<Item>::empty());
    }
    for k in 0..n
        invariant
            q == requested_qty(items@.subrange(0, k as int), pid as int),
            0 <= q <= i32::MAX,
    {
        proof {
            lemma_requested_extend(items@, k as int, pid as int);
            lemma_requested_mono(items@, k as int + 1, n as int, pid as int);
            assert(items@.subrange(0, n as int) =~= items@);
        }
        if items[k].id == pid {
            q = q + items[k].qty as i64;
        }
    }
    proof {
        assert(items@.subrange(0, n as int) =~= items@);
    }
    q
}

/// Copies a list of line items (they are plain value pairs).
fn copy_items(v: &Vec<Item>) -> (r: Vec<Item>)
    ensures
        r@ == v@,
{
    let mut r: Vec<Item> = Vec::new();
    let n = v.len();
    for i in 0..n
        invariant
            r@ =~= v@.subrange(0, i as int),
    {
        r.push(v[i]);
        proof {
            assert(r@ =~= v@.subrange(0, i as int + 1));
        }
    }
    proof {
        assert(v@.subrange(0, n as int) =~= v@);
    }
    r
}

/// The shared ledger: current stock per product, plus the outstanding holds.
#[derive(Clone)]
pub struct LockedInventory {
    pub products: Vec<Product>,
    pub items: Vec<Hold>,
    pub next_product_id: i32,
}

impl LockedInventory {
    /// The ledger invariant: well-formed products with unique ids below the
    /// allocation cursor, at most one hold per order id, holds that reserve
    /// only positive quantities of known products, and stock counts that can
    /// absorb every outstanding hold without overflowing.
    pub open spec fn wf(self) -> bool {
        inv_wf(self.products@, self.items@, self.next_product_id as int)
    }

    /// An empty ledger: no products, no holds.
    pub fn new() -> (r: Self)
        ensures
            r.wf(),
            r.products@ =~= Seq::<Product>::empty(),
            r.items@ =~= Seq::<Hold>::empty(),
    {
        LockedInventory { products: Vec::new(), items: Vec::new(), next_product_id: 1 }
    }

    /// The position of the product with id `pid`, if the ledger knows it.
    pub(crate) fn find_product_index(&self, pid: i32) -> (r: Option<usize>)
        ensures
            r is Some <==> has_pid(self.products@, pid as int),
            (r matches Some(i) ==> i < self.products@.len() && self.products@[i as int].id == pid),
    {
        let n = self.products.len();
        for i in 0..n
            invariant
                forall|j: int| 0 <= j < i ==> (#[trigger] self.products@[j]).id != pid,
        {
            if self.products[i].id == pid {
                return Some(i);
            }
        }
        proof {
            if has_pid(self.products@, pid as int) {
                let w = choose|w: int|
                    0 <= w < self.products@.len() && self.products@[w].id == pid;
                assert(self.products@[w].id != pid);
            }
        }
        None
    }

    /// The position of the hold for `order_id`, if one is outstanding.
    fn find_hold_index(&self, order_id: usize) -> (r: Option<usize>)
        ensures
            r is Some <==> has_hold(self.items@, order_id as nat),
            (r matches Some(i) ==> i < self.items@.len() && self.items@[i as int].order_id
                == order_id),
    {
        let n = self.items.len();
        for i in 0..n
            invariant
                forall|j: int| 0 <= j < i ==> (#[trigger] self.items@[j]).order_id != order_id,
        {
            if self.items[i].order_id == order_id {
                return Some(i);
            }
        }
        proof {
            if has_hold(self.items@, order_id as nat) {
                let w = choose|w: int|
                    0 <= w < self.items@.len() && self.items@[w].order_id == order_id as nat;
                assert(self.items@[w].order_id != order_id);
            }
        }
        None
    }

    /// Rolls the hold for `order_id` back: every reserved quantity is added
    /// back to its product's stock, and the hold record is dropped.
    ///
    /// A hold resolves exactly once: if no hold is outstanding for the id —
    /// because it was already committed or rolled back, or never granted —
    /// the ledger is left untouched and `NoActiveHold` is returned.
    pub fn undo_hold(&mut self, order_id: &usize) -> (r: Result<(), LedgerFault>)
        requires
            old(self).wf(),
        ensures
            final(self).wf(),
            final(self).next_product_id == old(self).next_product_id,
            (r is Ok <==> has_hold(old(self).items@, *order_id as nat)),
            (r is Ok ==> {
                let hi = hold_index(old(self).items@, *order_id as nat);
                &&& final(self).products@ == apply_release(
                    old(self).products@,
                    old(self).items@[hi].items@,
                )
                &&& final(self).items@ == old(self).items@.remove(hi)
                &&& !has_hold(final(self).items@, *order_id as nat)
            }),
            (r is Err ==> {
                &&& r == Err::<(), LedgerFault>(LedgerFault::NoActiveHold)
                &&& final(self).products@ == old(self).products@
                &&& final(self).items@ == old(self).items@
            }),
    {
        match self.find_hold_index(*order_id) {
            None => Err(LedgerFault::NoActiveHold),
            Some(i) => {
                proof {
                    lemma_hold_index_is(self.items@, i as int);
                }
                let held = self.items.remove(i);
                let upto = held.items.len();
                proof {
                    let products0 = old(self).products@;
                    let holds0 = old(self).items@;
                    assert(held == holds0[i as int]);
                    assert(hold_wf(products0, holds0[i as int]));
                    assert(held.items@.subrange(0, upto as int) =~= held.items@);
                    assert(holds_positive(holds0)) by {
                        assert forall|h: int| 0 <= h < holds0.len() implies forall|k: int|
                            0 <= k < (#[trigger] holds0[h]).items@.len() ==> (
                            #[trigger] holds0[h].items@[k]).qty > 0 by {
                            assert(hold_wf(products0, holds0[h]));
                        }
                    }
                    assert forall|j: int| 0 <= j < products0.len() implies (
                    #[trigger] products0[j]).stock + requested_qty(
                        held.items@.subrange(0, upto as int),
                        products0[j].id as int,
                    ) <= i32::MAX by {
                        lemma_total_held_bound(holds0, i as int, products0[j].id as int);
                    }
                }
                self.give_back(&held.items, upto);
                proof {
                    assert(held.items@.subrange(0, upto as int) =~= held.items@);
                    lemma_release_preserves_wf(
                        old(self).products@,
                        old(self).items@,
                        old(self).next_product_id as int,
                        i as int,
                    );
                }
                Ok(())
            },
        }
    }

    /// Commits the hold for `order_id`: the decrement already applied to
    /// stock becomes permanent and the hold record is dropped.  Committing an
    /// order id with no outstanding hold is a no-op, so a commit is
    /// idempotent — and afterwards no hold remains that a rollback could
    /// undo.
    pub fn release_order(&mut self, order_id: &usize)
        requires
            old(self).wf(),
        ensures
            final(self).wf(),
            final(self).products@ == old(self).products@,
            final(self).next_product_id == old(self).next_product_id,
            (has_hold(old(self).items@, *order_id as nat) ==> final(self).items@ == old(
                self,
            ).items@.remove(hold_index(old(self).items@, *order_id as nat))),
            (!has_hold(old(self).items@, *order_id as nat) ==> final(self).items@ == old(
                self,
            ).items@),
            !has_hold(final(self).items@, *order_id as nat),
    {
        match self.find_hold_index(*order_id) {
            None => (),
            Some(i) => {
                proof {
                    lemma_hold_index_is(self.items@, i as int);
                }
                let _ = self.items.remove(i);
                proof {
                    lemma_commit_preserves_wf(
                        old(self).products@,
                        old(self).items@,
                        old(self).next_product_id as int,
                        i as int,
                    );
                }
            },
        }
    }

    /// A copy of the line items reserved under `order_id`, if a hold is
    /// outstanding.
    pub fn hold_snapshot(&self, order_id: &usize) -> (r: Option<Vec<Item>>)
        ensures
            r is Some <==> has_hold(self.items@, *order_id as nat),
            (r matches Some(v) ==> unique_holds(self.items@) ==> v@ == self.items@[hold_index(
                self.items@,
                *order_id as nat,
            )].items@),
    {
        match self.find_hold_index(*order_id) {
            Some(i) => {
                proof {
                    if unique_holds(self.items@) {
                        lemma_hold_index_is(self.items@, i as int);
                    }
                }
                Some(copy_items(&self.items[i].items))
            },
            None => None,
        }
    }

    /// Whether an unresolved hold exists for `order_id`.
    pub fn holds_order(&self, order_id: &usize) -> (r: bool)
        ensures
            r == has_hold(self.items@, *order_id as nat),
    {
        let n = self.items.len();
        for i in 0..n
            invariant
                forall|j: int| 0 <= j < i ==> (#[trigger] self.items@[j]).order_id != *order_id,
        {
            if self.items[i].order_id == *order_id {
                return true;
            }
        }
        proof {
            if has_hold(self.items@, *order_id as nat) {
                let w = choose|w: int|
                    0 <= w < self.items@.len() && self.items@[w].order_id == *order_id as nat;
                assert(self.items@[w].order_id != *order_id);
            }
        }
        false
    }

    /// Adds the quantities of `items[0..upto]` back to stock, product by
    /// product: the reversal of the decrements a (partial) reservation made.
    fn give_back(&mut self, items: &Vec<Item>, upto: usize)
        requires
            upto <= items@.len(),
            unique_ids(old(self).products@),
            forall|k: int|
                0 <= k < upto ==> has_pid(old(self).products@, (#[trigger] items@[k]).id as int),
            forall|k: int| 0 <= k < upto ==> (#[trigger] items@[k]).qty > 0,
            forall|i: int|
                0 <= i < old(self).products@.len() ==> (#[trigger] old(self).products@[i]).stock
                    + requested_qty(
                    items@.subrange(0, upto as int),
                    old(self).products@[i].id as int,
                ) <= i32::MAX,
        ensures
            final(self).products@ == apply_release(
                old(self).products@,
                items@.subrange(0, upto as int),
            ),
            final(self).items@ == old(self).items@,
            final(self).next_product_id == old(self).next_product_id,
    {
        let ghost base = old(self).products@;
        let ghost prefix_all = items@.subrange(0, upto as int);
        let mut j: usize = 0;
        while j < upto
            invariant
                j <= upto,
                self.items@ == old(self).items@,
                self.next_product_id == old(self).next_product_id,
                self.products@ == apply_release(base, items@.subrange(0, j as int)),
            decreases upto - j,
        {
            let ghost prefix = items@.subrange(0, j as int);
            let ghost prefix_next = items@.subrange(0, j as int + 1);
            let it = items[j];
            proof {
                assert(self.products@.len() == base.len());
                assert forall|i: int| 0 <= i < base.len() implies (#[trigger] self.products@[i]).id
                    == base[i].id by {
                    assert(self.products@[i] == with_stock(
                        base[i],
                        base[i].stock + requested_qty(prefix, base[i].id as int),
                    ));
                }
                lemma_same_ids(base, self.products@);
                assert(has_pid(self.products@, it.id as int));
            }
            let idx = match self.find_product_index(it.id) {
                Some(i) => i,
                None => {
                    proof {
                        assert(false);
                    }
                    0
                },
            };
            proof {
                lemma_pid_index_is(base, idx as int);
                // the quantity already given back for this product, and the
                // bound that keeps the addition within the stock counter
                assert(self.products@[idx as int] == with_stock(
                    base[idx as int],
                    base[idx as int].stock + requested_qty(prefix, it.id as int),
                ));
                assert forall|m: int| 0 <= m < upto implies (#[trigger] prefix_all[m]).qty > 0 by {
                    assert(prefix_all[m] == items@[m]);
                }
                assert(prefix =~= prefix_all.subrange(0, j as int));
                assert(prefix_next =~= prefix_all.subrange(0, j as int + 1));
                assert(prefix_all =~= prefix_all.subrange(0, upto as int));
                lemma_requested_extend(prefix_all, j as int, it.id as int);
                lemma_requested_mono(prefix_all, j as int + 1, upto as int, it.id as int);
                assert(requested_qty(prefix, it.id as int) + it.qty <= requested_qty(
                    prefix_all,
                    it.id as int,
                ));
                lemma_requested_nonneg(prefix, it.id as int);
            }
            let updated = self.products[idx].stock + it.qty;
            self.products[idx].stock = updated;
            proof {
                assert forall|i: int| 0 <= i < base.len() implies self.products@[i]
                    == apply_release(base, prefix_next)[i] by {
                    lemma_requested_extend(items@, j as int, base[i].id as int);
                    assert(items@.subrange(0, j as int) == prefix);
                    assert(items@.subrange(0, j as int + 1) == prefix_next);
                    if i != idx as int {
                        assert(base[i].id != it.id);
                    }
                }
                assert(self.products@ =~= apply_release(base, prefix_next));
            }
            j += 1;
        }
    }

    /// The total quantity of product `pid` reserved across all outstanding
    /// holds.
    fn held_total(&self, pid: i32) -> (t: i64)
        requires
            self.wf(),
        ensures
            t == total_held(self.items@, pid as int),
            0 <= t <= i32::MAX,
    {
        proof {
            assert(holds_positive(self.items@)) by {
                assert forall|h: int| 0 <= h < self.items@.len() implies forall|k: int|
                    0 <= k < (#[trigger] self.items@[h]).items@.len() ==> (
                    #[trigger] self.items@[h].items@[k]).qty > 0 by {
                    assert(hold_wf(self.products@, self.items@[h]));
                }
            }
            // the ledger invariant caps the held total: through a product's
            // stock slack if the id is known, at zero if it is not
            if has_pid(self.products@, pid as int) {
                let w = choose|w: int|
                    0 <= w < self.products@.len() && self.products@[w].id == pid;
                assert(self.products@[w].stock + total_held(self.items@, pid as int)
                    <= i32::MAX);
                if self.items@.len() > 0 {
                    lemma_total_held_bound(self.items@, 0, pid as int);
                }
            } else {
                assert forall|h: int| 0 <= h < self.items@.len() implies forall|k: int|
                    0 <= k < (#[trigger] self.items@[h]).items@.len() ==> (
                    #[trigger] self.items@[h].items@[k]).id != pid by {
                    assert(hold_wf(self.products@, self.items@[h]));
                    assert forall|k: int| 0 <= k < self.items@[h].items@.len() implies (
                    #[trigger] self.items@[h].items@[k]).id != pid by {
                        if self.items@[h].items@[k].id == pid {
                            assert(has_pid(self.products@, pid as int));
                        }
                    }
                }
                lemma_total_held_absent(self.items@, pid as int);
            }
            assert(0 <= total_held(self.items@, pid as int) <= i32::MAX);
        }
        let n = self.items.len();
        let mut t: i64 = 0;
        for h in 0..n
            invariant
                t == total_held(self.items@.subrange(0, h as int), pid as int),
                0 <= t <= i32::MAX,
        {
            proof {
                lemma_total_held_extend(self.items@, h as int, pid as int);
                lemma_total_held_mono(self.items@, h as int + 1, n as int, pid as int);
                assert(self.items@.subrange(0, n as int) =~= self.items@);
                lemma_requested_nonneg(self.items@[h as int].items@, pid as int);
                if self.items@.len() > 0 {
                    lemma_total_held_bound(self.items@, h as int, pid as int);
                }
            }
            let q = requested_of(&self.items[h].items, pid);
            t = t + q;
        }
        proof {
            assert(self.items@.subrange(0, n as int) =~= self.items@);
        }
        t
    }

    /// Replaces a product's title, stock and price.
    ///
    /// Returns the updated record, or `None` when the id is unknown or when
    /// the new stock count could no longer absorb the quantities reserved by
    /// outstanding holds.
    pub fn update_product(&mut self, product_id: i32, title: &str, stock: i32, price: i64) -> (r:
        Option<Product>)
        requires
            old(self).wf(),
            stock >= 0,
            price >= 0,
        ensures
            final(self).wf(),
            final(self).items@ == old(self).items@,
            final(self).next_product_id == old(self).next_product_id,
            (r is Some <==> has_pid(old(self).products@, product_id as int) && stock + total_held(
                old(self).items@,
                product_id as int,
            ) <= i32::MAX),
            (r is None ==> final(self).products@ == old(self).products@),
            (r matches Some(p) ==> {
                let i = pid_index(old(self).products@, product_id as int);
                &&& final(self).products@.len() == old(self).products@.len()
                &&& forall|j: int|
                    0 <= j < old(self).products@.len() && j != i ==> final(self).products@[j]
                        == old(self).products@[j]
                &&& final(self).products@[i].id == product_id
                &&& final(self).products@[i].title@ == title@
                &&& final(self).products@[i].stock == stock
                &&& final(self).products@[i].price == price
                &&& p.id == product_id && p.title@ == title@ && p.stock == stock && p.price
                    == price
            }),
    {
        let idx = match self.find_product_index(product_id) {
            Some(i) => i,
            None => {
                return None;
            },
        };
        proof {
            lemma_pid_index_is(self.products@, idx as int);
        }
        let held = self.held_total(product_id);
        if stock as i64 > i32::MAX as i64 - held {
            return None;
        }
        let updated = Product { id: product_id, title: title.to_owned(), stock, price };
        self.products[idx] = updated;
        proof {
            let products0 = old(self).products@;
            let products1 = self.products@;
            let holds = self.items@;
            assert(products1.len() == products0.len());
            assert forall|j: int| 0 <= j < products0.len() implies (#[trigger] products1[j]).id
                == products0[j].id by {}
            lemma_same_ids(products0, products1);
            assert forall|h: int| 0 <= h < holds.len() implies hold_wf(
                products1,
                #[trigger] holds[h],
            ) by {
                assert(hold_wf(products0, holds[h]));
            }
        }
        Some(Product { id: product_id, title: title.to_owned(), stock, price })
    }

    /// Attempts to reserve stock for every line item of `order`,
    /// all-or-nothing.
    ///
    /// Returns `Ok(true)` and stores a hold exactly when, product by product,
    /// the stock on hand covers the whole requested quantity.  Returns
    /// `Ok(false)` with the ledger unchanged when some product's stock is
    /// insufficient — any partial decrements are reversed first.  Returns the
    /// data-integrity fault `MissingProduct` with the ledger unchanged when a
    /// line item names a product the ledger does not know.
    pub fn hold_items(&mut self, order: &Order) -> (r: Result<bool, LedgerFault>)
        requires
            old(self).wf(),
            order.wf(),
            !has_hold(old(self).items@, order.id as nat),
        ensures
            final(self).wf(),
            final(self).next_product_id == old(self).next_product_id,
            (r is Err <==> !all_known(old(self).products@, order.items@)),
            (r matches Err(f) ==> {
                let u = first_unknown(old(self).products@, order.items@);
                &&& 0 <= u < order.items@.len()
                &&& f == LedgerFault::MissingProduct(order.items@[u].id)
                &&& final(self).products@ == old(self).products@
                &&& final(self).items@ == old(self).items@
            }),
            (r == Ok::<bool, LedgerFault>(true) <==> can_hold(
                old(self).products@,
                order.items@,
            )),
            (r == Ok::<bool, LedgerFault>(false) ==> {
                &&& final(self).products@ == old(self).products@
                &&& final(self).items@ == old(self).items@
            }),
            (r == Ok::<bool, LedgerFault>(true) ==> {
                &&& final(self).products@ == apply_hold(old(self).products@, order.items@)
                &&& final(self).items@.len() == old(self).items@.len() + 1
                &&& final(self).items@.subrange(0, old(self).items@.len() as int) == old(
                    self,
                ).items@
                &&& final(self).items@.last().order_id == order.id
                &&& final(self).items@.last().items@ == order.items@
            }),
    {
        let ghost products0 = self.products@;
        let n = order.items.len();

        // A line item naming an unknown product is a data-integrity fault;
        // it aborts the reservation before any stock is touched.
        let mut k: usize = 0;
        while k < n
            invariant
                k <= n,
                self.products@ == products0,
                self.items@ == old(self).items@,
                self.next_product_id == old(self).next_product_id,
                forall|j: int|
                    0 <= j < k ==> has_pid(products0, (#[trigger] order.items@[j]).id as int),
            decreases n - k,
        {
            let it = order.items[k];
            if self.find_product_index(it.id).is_none() {
                proof {
                    lemma_first_unknown_at(products0, order.items@, k as int);
                }
                return Err(LedgerFault::MissingProduct(it.id));
            }
            k += 1;
        }
        proof {
            lemma_first_unknown_at(products0, order.items@, n as int);
        }

        // Decrement stock line item by line item; if one cannot be covered,
        // reverse the decrements already applied and report the denial.
        let mut k: usize = 0;
        while k < n
            invariant
                k <= n,
                self.items@ == old(self).items@,
                self.next_product_id == old(self).next_product_id,
                self.products@ == apply_hold(products0, order.items@.subrange(0, k as int)),
                forall|j: int|
                    0 <= j < k ==> requested_qty(
                        order.items@.subrange(0, k as int),
                        (#[trigger] order.items@[j]).id as int,
                    ) <= stock_at(products0, order.items@[j].id as int),
            decreases n - k,
        {
            let ghost prefix = order.items@.subrange(0, k as int);
            let ghost prefix_next = order.items@.subrange(0, k as int + 1);
            let it = order.items[k];
            proof {
                assert(self.products@.len() == products0.len());
                assert forall|i: int| 0 <= i < products0.len() implies (
                #[trigger] self.products@[i]).id == products0[i].id by {
                    assert(self.products@[i] == with_stock(
                        products0[i],
                        products0[i].stock - requested_qty(prefix, products0[i].id as int),
                    ));
                }
                lemma_same_ids(products0, self.products@);
                assert(has_pid(self.products@, it.id as int));
            }
            let idx = match self.find_product_index(it.id) {
                Some(i) => i,
                None => {
                    proof {
                        assert(false);
                    }
                    0
                },
            };
            proof {
                lemma_pid_index_is(products0, idx as int);
                assert(self.products@[idx as int] == with_stock(
                    products0[idx as int],
                    products0[idx as int].stock - requested_qty(prefix, it.id as int),
                ));
                lemma_requested_extend(order.items@, k as int, it.id as int);
                lemma_requested_nonneg(prefix, it.id as int);
                // stocks already decremented stay exact i32 values: each is
                // the original stock minus a covered requested total
                assert forall|i: int| 0 <= i < products0.len() implies 0 <= (
                #[trigger] products0[i]).stock - requested_qty(prefix, products0[i].id as int)
                    <= i32::MAX by {
                    let pid = products0[i].id as int;
                    lemma_requested_nonneg(prefix, pid);
                    if exists|j: int| 0 <= j < k && order.items@[j].id as int == pid {
                        let j = choose|j: int| 0 <= j < k && order.items@[j].id as int == pid;
                        assert(requested_qty(prefix, order.items@[j].id as int) <= stock_at(
                            products0,
                            order.items@[j].id as int,
                        ));
                        lemma_pid_index_is(products0, i);
                    } else {
                        assert forall|j: int| 0 <= j < prefix.len() implies (
                        #[trigger] prefix[j]).id != pid by {
                            assert(prefix[j] == order.items@[j]);
                        }
                        lemma_requested_absent(prefix, pid);
                    }
                }
            }
            if self.products[idx].stock < it.qty {
                // stock cannot cover this line item: the whole reservation is
                // denied and the prefix already taken is put back
                proof {
                    lemma_requested_mono(order.items@, k as int + 1, n as int, it.id as int);
                    assert(order.items@.subrange(0, n as int) =~= order.items@);
                    assert(requested_qty(order.items@, it.id as int) > stock_at(
                        products0,
                        it.id as int,
                    ));
                    assert(!can_hold(products0, order.items@));
                    // the prefix satisfies the conditions of give_back
                    assert forall|i: int| 0 <= i < self.products@.len() implies (
                    #[trigger] self.products@[i]).stock + requested_qty(
                        prefix,
                        self.products@[i].id as int,
                    ) <= i32::MAX by {
                        assert(self.products@[i] == with_stock(
                            products0[i],
                            products0[i].stock - requested_qty(prefix, products0[i].id as int),
                        ));
                        lemma_requested_mono(order.items@, 0, k as int, products0[i].id as int);
                        lemma_requested_nonneg(prefix, products0[i].id as int);
                    }
                    assert forall|m: int| 0 <= m < k implies has_pid(
                        self.products@,
                        (#[trigger] order.items@[m]).id as int,
                    ) by {}
                }
                self.give_back(&order.items, k);
                proof {
                    assert forall|i: int| 0 <= i < products0.len() implies requested_qty(
                        prefix,
                        (#[trigger] products0[i]).id as int,
                    ) <= products0[i].stock by {
                        let pid = products0[i].id as int;
                        if exists|j: int| 0 <= j < k && order.items@[j].id as int == pid {
                            let j = choose|j: int|
                                0 <= j < k && order.items@[j].id as int == pid;
                            lemma_pid_index_is(products0, i);
                        } else {
                            assert forall|j: int| 0 <= j < prefix.len() implies (
                            #[trigger] prefix[j]).id != pid by {
                                assert(prefix[j] == order.items@[j]);
                            }
                            lemma_requested_absent(prefix, pid);
                        }
                    }
                    assert forall|j: int| 0 <= j < prefix.len() implies (
                    #[trigger] prefix[j]).qty > 0 by {
                        assert(prefix[j] == order.items@[j]);
                    }
                    lemma_rollback_restores_stock(products0, prefix);
                }
                return Ok(false);
            }
            let updated = self.products[idx].stock - it.qty;
            self.products[idx].stock = updated;
            proof {
                assert forall|i: int| 0 <= i < products0.len() implies self.products@[i]
                    == apply_hold(products0, prefix_next)[i] by {
                    lemma_requested_extend(order.items@, k as int, products0[i].id as int);
                    if i != idx as int {
                        assert(products0[i].id != it.id);
                    }
                }
                assert(self.products@ =~= apply_hold(products0, prefix_next));
                // each previously checked line item stays within stock
                assert forall|j: int| 0 <= j < k + 1 implies requested_qty(
                    prefix_next,
                    (#[trigger] order.items@[j]).id as int,
                ) <= stock_at(products0, order.items@[j].id as int) by {
                    let pid = order.items@[j].id as int;
                    lemma_requested_extend(order.items@, k as int, pid);
                    if j < k {
                        if pid != it.id as int {
                            assert(requested_qty(prefix_next, pid) == requested_qty(prefix, pid));
                        }
                    }
                }
            }
            k += 1;
        }
        proof {
            assert(order.items@.subrange(0, n as int) =~= order.items@);
            assert(can_hold(products0, order.items@));
        }
        let held_items = copy_items(&order.items);
        let held = Hold { order_id: order.id, items: held_items };
        self.items.push(held);
        proof {
            assert(self.items@ == old(self).items@.push(held));
            assert(self.items@.last().items@ == order.items@);
            assert(self.items@.subrange(0, old(self).items@.len() as int) =~= old(self).items@);
            lemma_grant_preserves_wf(
                products0,
                old(self).items@,
                old(self).next_product_id as int,
                held,
            );
            assert(self.products@ == apply_hold(products0, held.items@));
        }
        Ok(true)
    }

    /// A page of the catalog: copies of up to `limit` products starting at
    /// position `offset`.
    pub fn page_products(&self, offset: usize, limit: usize) -> (r: Vec<Product>)
        ensures
            r@.len() == if offset >= self.products@.len() {
                0
            } else if self.products@.len() - offset < limit {
                self.products@.len() - offset
            } else {
                limit as int
            },
            forall|i: int|
                0 <= i < r@.len() ==> {
                    let p = #[trigger] r@[i];
                    let q = self.products@[offset + i];
                    p.id == q.id && p.title@ == q.title@ && p.stock == q.stock && p.price
                        == q.price
                },
    {
        let n = self.products.len();
        let start = if offset > n {
            n
        } else {
            offset
        };
        let end = if limit > n - start {
            n
        } else {
            start + limit
        };
        let mut r: Vec<Product> = Vec::new();
        for i in start..end
            invariant
                start <= i <= end <= n,
                r@.len() == i - start,
                forall|j: int|
                    0 <= j < r@.len() ==> {
                        let p = #[trigger] r@[j];
                        let q = self.products@[start + j];
                        p.id == q.id && p.title@ == q.title@ && p.stock == q.stock && p.price
                            == q.price
                    },
        {
            r.push(self.products[i].duplicate());
        }
        r
    }

    /// The product with id `product_id`, if the ledger knows it.
    pub fn find_product(&self, product_id: i32) -> (r: Option<&Product>)
        ensures
            r is Some <==> has_pid(self.products@, product_id as int),
            (r matches Some(p) ==> {
                &&& p.id == product_id
                &&& unique_ids(self.products@) ==> *p == self.products@[pid_index(
                    self.products@,
                    product_id as int,
                )]
            }),
    {
        match self.find_product_index(product_id) {
            Some(i) => {
                proof {
                    if unique_ids(self.products@) {
                        lemma_pid_index_is(self.products@, i as int);
                    }
                }
                Some(&self.products[i])
            },
            None => None,
        }
    }

    /// The stock on hand for product `pid`, if the ledger knows it.
    pub fn get_stock(&self, pid: i32) -> (r: Option<i32>)
        ensures
            r is Some <==> has_pid(self.products@, pid as int),
            (r matches Some(s) ==> unique_ids(self.products@) ==> s as int == stock_at(
                self.products@,
                pid as int,
            )),
    {
        match self.find_product_index(pid) {
            Some(i) => {
                proof {
                    if unique_ids(self.products@) {
                        lemma_pid_index_is(self.products@, i as int);
                    }
                }
                Some(self.products[i].stock)
            },
            None => None,
        }
    }
}

/// Adds a new product to the ledger with the next free id and returns the
/// stored record.
pub fn create_product(inventory: &mut LockedInventory, title: &str, stock: &i32, price: &i64) -> (r:
    Product)
    requires
        old(inventory).wf(),
        *stock >= 0,
        *price >= 0,
        old(inventory).next_product_id < i32::MAX,
    ensures
        final(inventory).wf(),
        final(inventory).items@ == old(inventory).items@,
        final(inventory).next_product_id == old(inventory).next_product_id + 1,
        final(inventory).products@.len() == old(inventory).products@.len() + 1,
        final(inventory).products@.subrange(0, old(inventory).products@.len() as int) == old(
            inventory,
        ).products@,
        ({
            let p = final(inventory).products@.last();
            p.id == r.id && p.title@ == r.title@ && p.stock == r.stock && p.price == r.price
        }),
        r.id == old(inventory).next_product_id,
        r.title@ == title@,
        r.stock == *stock,
        r.price == *price,
{
    let new_product = NewProduct { title: title.to_owned(), stock: *stock, price: *price };
    let id = inventory.next_product_id;
    let stored = Product {
        id,
        title: new_product.title,
        stock: new_product.stock,
        price: new_product.price,
    };
    inventory.products.push(stored);
    inventory.next_product_id = id + 1;
    proof {
        let products0 = old(inventory).products@;
        let products1 = inventory.products@;
        let holds = inventory.items@;
        assert(products1.subrange(0, products0.len() as int) =~= products0);
        assert forall|i: int, j: int| 0 <= i < j < products1.len() implies (
        #[trigger] products1[i]).id != (#[trigger] products1[j]).id by {
            if j < products0.len() {
                assert(products1[i] == products0[i] && products1[j] == products0[j]);
            } else {
                assert(products1[j].id == id);
                assert(products1[i] == products0[i]);
            }
        }
        assert forall|h: int| 0 <= h < holds.len() implies hold_wf(
            products1,
            #[trigger] holds[h],
        ) by {
            assert(hold_wf(products0, holds[h]));
            assert forall|k: int| 0 <= k < holds[h].items@.len() implies has_pid(
                products1,
                (#[trigger] holds[h].items@[k]).id as int,
            ) by {
                let pid = holds[h].items@[k].id as int;
                let w = choose|w: int| 0 <= w < products0.len() && products0[w].id == pid;
                assert(products1[w].id == pid);
            }
        }
        assert forall|i: int| 0 <= i < products1.len() implies (#[trigger] products1[i]).stock
            + total_held(holds, products1[i].id as int) <= i32::MAX by {
            if i < products0.len() {
                assert(products1[i] == products0[i]);
            } else {
                assert(products1[i].id == id);
                assert forall|h: int| 0 <= h < holds.len() implies forall|k: int|
                    0 <= k < (#[trigger] holds[h]).items@.len() ==> (
                    #[trigger] holds[h].items@[k]).id != id as int by {
                    assert(hold_wf(products0, holds[h]));
                    assert forall|k: int| 0 <= k < holds[h].items@.len() implies (
                    #[trigger] holds[h].items@[k]).id != id as int by {
                        let pid = holds[h].items@[k].id as int;
                        assert(has_pid(products0, pid));
                        let w = choose|w: int|
                            0 <= w < products0.len() && products0[w].id == pid;
                        assert(products0[w].id < id);
                    }
                }
                lemma_total_held_absent(holds, id as int);
            }
        }
    }
    Product { id, title: title.to_owned(), stock: *stock, price: *price }
}

/// Commit finality: resolving the hold for an order id removes the only
/// hold under that id, so a later rollback attempt finds nothing to undo —
/// `undo_hold` then reports `NoActiveHold` and leaves stock untouched.
pub proof fn lemma_commit_finality(holds: Seq<Hold>, oid: nat)
    requires
        unique_holds(holds),
        has_hold(holds, oid),
    ensures
        !has_hold(holds.remove(hold_index(holds, oid)), oid),
{
    let i = hold_index(holds, oid);
    assert(0 <= i < holds.len() && holds[i].order_id == oid);
    let holds1 = holds.remove(i);
    assert forall|g: int| 0 <= g < holds1.len() implies (#[trigger] holds1[g]).order_id != oid
        by {
        assert(holds1[g] == if g < i {
            holds[g]
        } else {
            holds[g + 1]
        });
        if holds1[g].order_id == oid {
            assert(unique_holds(holds));
        }
    }
    if has_hold(holds1, oid) {
        let w = choose|w: int| 0 <= w < holds1.len() && holds1[w].order_id == oid;
        assert(holds1[w].order_id != oid);
    }
}

/// The stock levels after a round of reservations applied in linearization
/// order: each order's items are taken exactly when they can be covered by
/// the stock left by the orders before it — the serial semantics the
/// ledger's critical section enforces on concurrent submissions.
pub open spec fn grant_round(products: Seq<Product>, orders: Seq<Seq<Item>>) -> Seq<Product>
    decreases orders.len(),
{
    if orders.len() == 0 {
        products
    } else {
        let before = grant_round(products, orders.drop_last());
        if can_hold(before, orders.last()) {
            apply_hold(before, orders.last())
        } else {
            before
        }
    }
}

/// Atomicity: however many orders are submitted against shared stock, the
/// serial order in which the ledger grants them never drives any product's
/// stock negative, and a product's stock never grows.  (Which orders succeed
/// is exactly determined per step: a reservation is granted if and only if
/// `can_hold` holds at its place in the serial order.)
pub proof fn lemma_serial_grants_safe(products: Seq<Product>, orders: Seq<Seq<Item>>)
    requires
        unique_ids(products),
        forall|i: int| 0 <= i < products.len() ==> (#[trigger] products[i]).stock >= 0,
        forall|o: int|
            0 <= o < orders.len() ==> forall|k: int|
                0 <= k < (#[trigger] orders[o]).len() ==> (#[trigger] orders[o][k]).qty > 0,
    ensures
        grant_round(products, orders).len() == products.len(),
        forall|i: int|
            0 <= i < products.len() ==> (#[trigger] grant_round(products, orders)[i]).id
                == products[i].id,
        forall|i: int|
            0 <= i < products.len() ==> 0 <= (#[trigger] grant_round(products, orders)[i]).stock
                <= products[i].stock,
        unique_ids(grant_round(products, orders)),
    decreases orders.len(),
{
    if orders.len() > 0 {
        let rest = orders.drop_last();
        let last = orders[orders.len() - 1];
        assert(last == orders.last());
        assert forall|o: int| 0 <= o < rest.len() implies forall|k: int|
            0 <= k < (#[trigger] rest[o]).len() ==> (#[trigger] rest[o][k]).qty > 0 by {
            assert(rest[o] == orders[o]);
        }
        lemma_serial_grants_safe(products, rest);
        let before = grant_round(products, rest);
        if can_hold(before, last) {
            lemma_can_hold_pointwise(before, last);
            let after = apply_hold(before, last);
            assert forall|i: int| 0 <= i < products.len() implies (#[trigger] after[i]).id
                == products[i].id && 0 <= after[i].stock <= products[i].stock by {
                assert(after[i] == with_stock(
                    before[i],
                    before[i].stock - requested_qty(last, before[i].id as int),
                ));
                assert(0 <= requested_qty(last, before[i].id as int) <= before[i].stock);
            }
            lemma_same_ids(before, after);
        }
    }
}

} // verus!
