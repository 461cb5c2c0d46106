//! Order fulfillment against a finite shared inventory.
//!
//! The ledger reserves stock all-or-nothing, the invoice calculator derives
//! exact amounts in cents, the orchestrator drives each order through
//! `reserve → pay → commit/rollback`, and the event bus fans status strings
//! out to subscribers and a durable pull queue.  Stock is never oversold,
//! a failed payment always returns its reserved stock to the pool, and each
//! hold resolves exactly once.
#![verifier::loop_isolation(false)]

pub mod authorize_net;
pub mod ecommerce;
pub mod events;
pub mod inventory;
pub mod models;
pub mod orchestrator;
pub mod text;

pub use crate::inventory::create_product;
pub use crate::text::money_string;
pub use crate::text::u64_string;
