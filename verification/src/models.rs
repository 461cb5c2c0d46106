//! Catalog records owned by the inventory ledger.
//!
//! A price is a whole number of cents, so that invoice arithmetic is exact.

use vstd::prelude::*;

verus! {

/// A catalog entry: the ledger is the only mutator of `stock`.
#[derive(Clone)]
pub struct Product {
    pub id: i32,
    pub title: String,
    pub stock: i32,
    pub price: i64,
}

impl Product {
    /// Stock is never negative, and a unit price in cents is never negative.
    pub open spec fn wf(self) -> bool {
        self.stock >= 0 && self.price >= 0
    }

    /// A fresh record with the same contents.
    pub fn duplicate(&self) -> (r: Product)
        ensures
            r.id == self.id,
            r.title@ == self.title@,
            r.stock == self.stock,
            r.price == self.price,
    {
        Product {
            id: self.id,
            title: self.title.clone(),
            stock: self.stock,
            price: self.price,
        }
    }
}

/// The data needed to add a product; the ledger assigns the id.
pub struct NewProduct {
    pub title: String,
    pub stock: i32,
    pub price: i64,
}

} // verus!
