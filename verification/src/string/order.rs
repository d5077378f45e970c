//! The order of pooled strings, which is the order of their contents.

use vstd::prelude::*;
use vstd::std_specs::cmp::PartialOrdSpecImpl;
use core::cmp::Ordering;
use crate::pool::byte_order;
use crate::pool::order_bytes;
use crate::pool::ByteOrder;
use crate::pool::Pool;
use crate::string::String;

verus! {

impl<P: Pool> PartialOrd for String<P> {
    fn partial_cmp(&self, other: &Self) -> (order: Option<Ordering>) {
        match order_bytes(self.as_bytes(), other.as_bytes()) {
            ByteOrder::Before => Some(Ordering::Less),
            ByteOrder::Same => Some(Ordering::Equal),
            ByteOrder::After => Some(Ordering::Greater),
        }
    }
}

impl<P: Pool> PartialOrdSpecImpl for String<P> {
    open spec fn obeys_partial_cmp_spec() -> bool {
        true
    }

    /// Strings are ordered as their contents are, byte by byte, which is how
    /// `str` is ordered.
    open spec fn partial_cmp_spec(&self, other: &Self) -> Option<Ordering> {
        match byte_order(self@, other@) {
            ByteOrder::Before => Some(Ordering::Less),
            ByteOrder::Same => Some(Ordering::Equal),
            ByteOrder::After => Some(Ordering::Greater),
        }
    }
}

} // verus!
