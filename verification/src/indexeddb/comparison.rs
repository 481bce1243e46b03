//! The order of keys as std's `Ordering`.

use vstd::prelude::*;
use crate::indexeddb::{key_order, IDBKey};
use std::cmp::Ordering;

verus! {

impl IDBKey {
    /// The order of this key and another.
    pub fn compare(&self, other: &IDBKey) -> (order: Ordering)
        ensures
            match order {
                Ordering::Less => key_order(self@, other@) == -1,
                Ordering::Equal => key_order(self@, other@) == 0,
                Ordering::Greater => key_order(self@, other@) == 1,
            },
    {
        let order = self.order(other);
        proof {
            crate::indexeddb::lemma_key_order(self@, other@);
        }
        if order < 0 {
            Ordering::Less
        } else if order > 0 {
            Ordering::Greater
        } else {
            Ordering::Equal
        }
    }
}

} // verus!
