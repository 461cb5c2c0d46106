//! The order pipeline: one order's walk through the state machine
//! `Received → Reserving → {Rejected | Reserved} → Charging →
//! {Committed | RolledBack}`.
//!
//! The pipeline is split around its one externally-latent operation, the
//! payment call.  `start_order` computes the invoice, asks the ledger for a
//! hold and emits the reservation outcome; the caller then captures the
//! payment outside any ledger critical section and hands the verdict to
//! `settle_order`, which commits or rolls back and emits the terminal
//! event.  Every status event reaches the bus in the order the state
//! machine produced it.

use vstd::prelude::*;

use crate::ecommerce::invoice_in_range;
use crate::ecommerce::net_subtotal;
use crate::ecommerce::tax_of;
use crate::ecommerce::Discount;
use crate::ecommerce::Invoice;
use crate::events::appended;
use crate::events::appended2;
use crate::events::EventBus;
use crate::inventory::all_known;
use crate::inventory::apply_hold;
use crate::inventory::apply_release;
use crate::inventory::can_hold;
use crate::inventory::first_unknown;
use crate::inventory::has_hold;
use crate::inventory::has_pid;
use crate::inventory::hold_index;
use crate::inventory::stock_at;
use crate::inventory::Item;
use crate::inventory::LedgerFault;
use crate::inventory::LockedInventory;
use crate::inventory::Order;
use crate::models::Product;
use crate::text::dec_chars;
use crate::text::int_chars;
use crate::text::i64_string;
use crate::text::u64_string;

verus! {

/// The states of one order's pipeline.
#[derive(Clone, Copy, PartialEq, Eq, Structural, Debug)]
pub enum OrderPhase {
    Received,
    Reserving,
    Rejected,
    Reserved,
    Charging,
    Committed,
    RolledBack,
}

impl OrderPhase {
    /// A terminal phase: the order will change no more.
    pub open spec fn is_terminal(self) -> bool {
        self is Rejected || self is Committed || self is RolledBack
    }
}

/// The event published when an order enters the pipeline.
pub open spec fn processing_msg(oid: nat) -> Seq<char> {
    "Processing order "@ + dec_chars(oid)
}

/// The event published when the ledger denies the reservation.
pub open spec fn rejected_msg(oid: nat) -> Seq<char> {
    "Unable to hold inventory for order "@ + dec_chars(oid)
}

/// The event published when the ledger grants the reservation.
pub open spec fn reserved_msg(oid: nat) -> Seq<char> {
    "Reserved inventory for order "@ + dec_chars(oid)
}

/// The event published when the payment failed and the hold was rolled
/// back.
pub open spec fn failure_msg(oid: nat) -> Seq<char> {
    "Error while collecting payment for order #"@ + dec_chars(oid)
}

/// The stock levels of the products an order touched, one ` id=stock` pair
/// per line item.
pub open spec fn stock_report(products: Seq<Product>, items: Seq<Item>) -> Seq<char>
    decreases items.len(),
{
    if items.len() == 0 {
        Seq::<char>::empty()
    } else {
        stock_report(products, items.drop_last()) + seq![' '] + int_chars(
            items.last().id as int,
        ) + seq!['='] + int_chars(stock_at(products, items.last().id as int))
    }
}

/// The event published when the payment succeeded and the hold was
/// committed, carrying the updated stock levels of the affected products.
pub open spec fn success_msg(oid: nat, report: Seq<char>) -> Seq<char> {
    "Completed order "@ + dec_chars(oid) + "; stock:"@ + report
}

/// The full event trail of one order, given how it fared: the reservation
/// outcome always precedes the terminal outcome.
pub open spec fn pipeline_trail(oid: nat, granted: bool, paid: bool, report: Seq<char>) -> Seq<
    Seq<char>,
> {
    if !granted {
        seq![processing_msg(oid), rejected_msg(oid)]
    } else if paid {
        seq![processing_msg(oid), reserved_msg(oid), success_msg(oid, report)]
    } else {
        seq![processing_msg(oid), reserved_msg(oid), failure_msg(oid)]
    }
}

/// Event ordering: in every trail an order can produce, the rejection event
/// is terminal, and otherwise the reservation-granted event strictly
/// precedes the terminal (success or failure) event.  Because the bus
/// appends in publish order and both sinks deliver oldest-first, every
/// observer sees the events of one order in exactly this relative order.
pub proof fn lemma_event_ordering(oid: nat, granted: bool, paid: bool, report: Seq<char>)
    ensures
        ({
            let trail = pipeline_trail(oid, granted, paid, report);
            &&& !granted ==> trail == seq![processing_msg(oid), rejected_msg(oid)]
            &&& granted ==> trail.len() == 3 && trail[1] == reserved_msg(oid) && (trail[2]
                == success_msg(oid, report) || trail[2] == failure_msg(oid))
            &&& trail[0] == processing_msg(oid)
        }),
{
}

/// Builds the ` id=stock` report for the given line items from the
/// ledger's current stock levels.
fn build_stock_report(inventory: &LockedInventory, items: &Vec<Item>) -> (s: String)
    requires
        inventory.wf(),
        forall|k: int|
            0 <= k < items@.len() ==> has_pid(
                inventory.products@,
                (#[trigger] items@[k]).id as int,
            ),
    ensures
        s@ == stock_report(inventory.products@, items@),
{
    let ghost pseq = inventory.products@;
    let n = items.len();
    proof {
        reveal_strlit(" ");
        reveal_strlit("=");
        reveal_strlit("");
        assert(items@.subrange(0, 0) =~= Seq::<Item>::empty());
    }
    let mut s = "".to_owned();
    for k in 0..n
        invariant
            s@ == stock_report(pseq, items@.subrange(0, k as int)),
    {
        let it = items[k];
        let stock = match inventory.get_stock(it.id) {
            Some(v) => v,
            None => {
                proof {
                    assert(false);
                }
                0
            },
        };
        s.append(" ");
        s.append(i64_string(it.id as i64).as_str());
        s.append("=");
        s.append(i64_string(stock as i64).as_str());
        proof {
            assert(items@.subrange(0, k as int + 1).drop_last() =~= items@.subrange(0, k as int));
            assert(items@.subrange(0, k as int + 1).last() == items@[k as int]);
            assert(" "@ =~= seq![' ']);
            assert("="@ =~= seq!['=']);
        }
    }
    proof {
        assert(items@.subrange(0, n as int) =~= items@);
    }
    s
}

/// Accepts an order into the pipeline: emits the submission event, derives
/// the invoice, and asks the ledger for an all-or-nothing hold.
///
/// Returns `(Rejected, None)` after emitting the rejection event when stock
/// is insufficient — the payment gateway is never contacted for such an
/// order.  Returns `(Charging, Some(invoice))` after emitting the
/// reservation event when the hold was granted; the caller then captures
/// the payment and settles with `settle_order`.  A data-integrity fault
/// (unknown product id) aborts the order with the ledger untouched.
pub fn start_order(
    ledger: &mut LockedInventory,
    bus: &mut EventBus,
    order: &Order,
    discounts: Vec<Discount>,
    shipping_fee: i64,
    tax_rate_bp: u16,
) -> (r: Result<(OrderPhase, Option<Invoice>), LedgerFault>)
    requires
        old(ledger).wf(),
        old(bus).wf(),
        order.wf(),
        !has_hold(old(ledger).items@, order.id as nat),
        shipping_fee >= 0,
        invoice_in_range(
            old(ledger).products@,
            order.items@,
            discounts@,
            shipping_fee as int,
            tax_rate_bp as int,
        ),
    ensures
        final(ledger).wf(),
        final(bus).wf(),
        final(ledger).next_product_id == old(ledger).next_product_id,
        final(bus).subscribers@.len() == old(bus).subscribers@.len(),
        (r is Err <==> !all_known(old(ledger).products@, order.items@)),
        (r matches Err(f) ==> {
            let u = first_unknown(old(ledger).products@, order.items@);
            &&& 0 <= u < order.items@.len()
            &&& f == LedgerFault::MissingProduct(order.items@[u].id)
            &&& final(ledger).products@ == old(ledger).products@
            &&& final(ledger).items@ == old(ledger).items@
            &&& appended(final(bus).queue@, old(bus).queue@, processing_msg(order.id as nat))
            &&& forall|i: int|
                0 <= i < old(bus).subscribers@.len() ==> (
                #[trigger] final(bus).subscribers@[i]).id == old(bus).subscribers@[i].id
                    && appended(
                    final(bus).subscribers@[i].pending@,
                    old(bus).subscribers@[i].pending@,
                    processing_msg(order.id as nat),
                )
        }),
        (r matches Ok(p) ==> p.0 is Rejected || p.0 is Charging),
        (r matches Ok(p) ==> (p.0 is Charging <==> can_hold(
            old(ledger).products@,
            order.items@,
        ))),
        (r matches Ok(p) ==> p.0 is Rejected ==> {
            &&& p.1 is None
            &&& final(ledger).products@ == old(ledger).products@
            &&& final(ledger).items@ == old(ledger).items@
            &&& appended2(
                final(bus).queue@,
                old(bus).queue@,
                processing_msg(order.id as nat),
                rejected_msg(order.id as nat),
            )
            &&& forall|i: int|
                0 <= i < old(bus).subscribers@.len() ==> (
                #[trigger] final(bus).subscribers@[i]).id == old(bus).subscribers@[i].id
                    && appended2(
                    final(bus).subscribers@[i].pending@,
                    old(bus).subscribers@[i].pending@,
                    processing_msg(order.id as nat),
                    rejected_msg(order.id as nat),
                )
        }),
        (r matches Ok(p) ==> p.0 is Charging ==> {
            &&& final(ledger).products@ == apply_hold(old(ledger).products@, order.items@)
            &&& final(ledger).items@.len() == old(ledger).items@.len() + 1
            &&& final(ledger).items@.subrange(0, old(ledger).items@.len() as int) == old(
                ledger,
            ).items@
            &&& final(ledger).items@.last().order_id == order.id
            &&& final(ledger).items@.last().items@ == order.items@
            &&& appended2(
                final(bus).queue@,
                old(bus).queue@,
                processing_msg(order.id as nat),
                reserved_msg(order.id as nat),
            )
            &&& forall|i: int|
                0 <= i < old(bus).subscribers@.len() ==> (
                #[trigger] final(bus).subscribers@[i]).id == old(bus).subscribers@[i].id
                    && appended2(
                    final(bus).subscribers@[i].pending@,
                    old(bus).subscribers@[i].pending@,
                    processing_msg(order.id as nat),
                    reserved_msg(order.id as nat),
                )
            &&& (p.1 matches Some(inv) ==> {
                let net = net_subtotal(old(ledger).products@, order.items@, discounts@);
                &&& inv.subtotal == net
                &&& inv.shipping == shipping_fee
                &&& inv.taxes == tax_of(net, tax_rate_bp as int)
                &&& inv.total == net + shipping_fee + inv.taxes
            })
            &&& p.1 is Some
        }),
    {
        let oid = order.id;
        let mut processing = "Processing order ".to_owned();
        processing.append(u64_string(oid as u64).as_str());
        bus.publish(processing);
        let ghost q1 = bus.queue@;
        let ghost subs1 = bus.subscribers@;

        let invoice = match Invoice::create(ledger, order, discounts, shipping_fee, tax_rate_bp) {
            Ok(inv) => inv,
            Err(f) => {
                return Err(f);
            },
        };

        match ledger.hold_items(order) {
            Err(f) => Err(f),
            Ok(false) => {
                let mut rejected = "Unable to hold inventory for order ".to_owned();
                rejected.append(u64_string(oid as u64).as_str());
                bus.publish(rejected);
                proof {
                    lemma_two_appends(
                        old(bus).queue@,
                        q1,
                        bus.queue@,
                        processing_msg(oid as nat),
                        rejected_msg(oid as nat),
                    );
                    assert forall|i: int| 0 <= i < old(bus).subscribers@.len() implies (
                    #[trigger] bus.subscribers@[i]).id == old(bus).subscribers@[i].id
                        && appended2(
                        bus.subscribers@[i].pending@,
                        old(bus).subscribers@[i].pending@,
                        processing_msg(oid as nat),
                        rejected_msg(oid as nat),
                    ) by {
                        lemma_two_appends(
                            old(bus).subscribers@[i].pending@,
                            subs1[i].pending@,
                            bus.subscribers@[i].pending@,
                            processing_msg(oid as nat),
                            rejected_msg(oid as nat),
                        );
                    }
                }
                Ok((OrderPhase::Rejected, None))
            },
            Ok(true) => {
                let mut reserved = "Reserved inventory for order ".to_owned();
                reserved.append(u64_string(oid as u64).as_str());
                bus.publish(reserved);
                proof {
                    lemma_two_appends(
                        old(bus).queue@,
                        q1,
                        bus.queue@,
                        processing_msg(oid as nat),
                        reserved_msg(oid as nat),
                    );
                    assert forall|i: int| 0 <= i < old(bus).subscribers@.len() implies (
                    #[trigger] bus.subscribers@[i]).id == old(bus).subscribers@[i].id
                        && appended2(
                        bus.subscribers@[i].pending@,
                        old(bus).subscribers@[i].pending@,
                        processing_msg(oid as nat),
                        reserved_msg(oid as nat),
                    ) by {
                        lemma_two_appends(
                            old(bus).subscribers@[i].pending@,
                            subs1[i].pending@,
                            bus.subscribers@[i].pending@,
                            processing_msg(oid as nat),
                            reserved_msg(oid as nat),
                        );
                    }
                }
                Ok((OrderPhase::Charging, Some(invoice)))
            },
        }
    }

/// Two single appends in sequence amount to a double append.
proof fn lemma_two_appends(
    q0: Seq<String>,
    q1: Seq<String>,
    q2: Seq<String>,
    m1: Seq<char>,
    m2: Seq<char>,
)
    requires
        appended(q1, q0, m1),
        appended(q2, q1, m2),
    ensures
        appended2(q2, q0, m1, m2),
{
    assert(q2.subrange(0, q0.len() as int) =~= q0) by {
        assert forall|i: int| 0 <= i < q0.len() implies q2.subrange(0, q0.len() as int)[i]
            == q0[i] by {
            assert(q2.subrange(0, q1.len() as int)[i] == q1[i]);
            assert(q1.subrange(0, q0.len() as int)[i] == q0[i]);
        }
    }
    assert(q2[q0.len() as int] == q1.last()) by {
        assert(q2.subrange(0, q1.len() as int)[q0.len() as int] == q1[q0.len() as int]);
    }
}

/// Settles an order whose reservation was granted, from the payment
/// verdict.
///
/// On success the hold is committed — the decrement is now permanent, stock
/// is untouched — and the success event carries the resulting stock levels
/// of the affected products.  On failure the hold is rolled back: every
/// reserved quantity returns to its product, restoring the pre-reserve
/// stock, and the failure event is emitted.  Either way the hold is
/// resolved exactly once and is gone afterwards.
pub fn settle_order(
    ledger: &mut LockedInventory,
    bus: &mut EventBus,
    order_id: &usize,
    payment_ok: bool,
) -> (r: OrderPhase)
    requires
        old(ledger).wf(),
        old(bus).wf(),
        has_hold(old(ledger).items@, *order_id as nat),
    ensures
        final(ledger).wf(),
        final(bus).wf(),
        final(ledger).next_product_id == old(ledger).next_product_id,
        final(bus).subscribers@.len() == old(bus).subscribers@.len(),
        final(ledger).items@ == old(ledger).items@.remove(
            hold_index(old(ledger).items@, *order_id as nat),
        ),
        !has_hold(final(ledger).items@, *order_id as nat),
        (payment_ok ==> {
            let h = old(ledger).items@[hold_index(old(ledger).items@, *order_id as nat)];
            &&& r is Committed
            &&& final(ledger).products@ == old(ledger).products@
            &&& appended(
                final(bus).queue@,
                old(bus).queue@,
                success_msg(
                    *order_id as nat,
                    stock_report(old(ledger).products@, h.items@),
                ),
            )
            &&& forall|i: int|
                0 <= i < old(bus).subscribers@.len() ==> (
                #[trigger] final(bus).subscribers@[i]).id == old(bus).subscribers@[i].id
                    && appended(
                    final(bus).subscribers@[i].pending@,
                    old(bus).subscribers@[i].pending@,
                    success_msg(
                        *order_id as nat,
                        stock_report(old(ledger).products@, h.items@),
                    ),
                )
        }),
        (!payment_ok ==> {
            let h = old(ledger).items@[hold_index(old(ledger).items@, *order_id as nat)];
            &&& r is RolledBack
            &&& final(ledger).products@ == apply_release(old(ledger).products@, h.items@)
            &&& appended(final(bus).queue@, old(bus).queue@, failure_msg(*order_id as nat))
            &&& forall|i: int|
                0 <= i < old(bus).subscribers@.len() ==> (
                #[trigger] final(bus).subscribers@[i]).id == old(bus).subscribers@[i].id
                    && appended(
                    final(bus).subscribers@[i].pending@,
                    old(bus).subscribers@[i].pending@,
                    failure_msg(*order_id as nat),
                )
        }),
{
    if payment_ok {
        let held_items = match ledger.hold_snapshot(order_id) {
            Some(v) => v,
            None => {
                proof {
                    assert(false);
                }
                Vec::new()
            },
        };
        ledger.release_order(order_id);
        let report = build_stock_report(ledger, &held_items);
        let mut success = "Completed order ".to_owned();
        success.append(u64_string(*order_id as u64).as_str());
        success.append("; stock:");
        success.append(report.as_str());
        bus.publish(success);
        OrderPhase::Committed
    } else {
        match ledger.undo_hold(order_id) {
            Ok(()) => (),
            Err(_) => {
                proof {
                    assert(false);
                }
            },
        }
        let mut failure = "Error while collecting payment for order #".to_owned();
        failure.append(u64_string(*order_id as u64).as_str());
        bus.publish(failure);
        OrderPhase::RolledBack
    }
}

} // verus!
