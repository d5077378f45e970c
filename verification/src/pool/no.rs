//! A pool that does not pool.

use vstd::prelude::*;
use crate::pool::Pool;
use crate::pool::SlicesWrap;

verus! {

/// The pass-through pool: every handle is an owned buffer of its own, and
/// nothing is shared or looked up.
#[derive(Clone, Copy, Debug)]
pub struct NoPool;

impl Pool for NoPool {
    type Raw = Vec<u8>;

    open spec fn raw_view(raw: &Vec<u8>) -> Seq<u8> {
        raw@
    }

    fn raw_from_slices(&self, slices: SlicesWrap) -> (raw: Vec<u8>) {
        slices.to_boxed_slice().into_vec()
    }

    fn raw_to_slice<'r>(&self, raw: &'r Vec<u8>) -> (bytes: &'r [u8]) {
        raw.as_slice()
    }

    fn raw_from_vec(&self, vec: Vec<u8>) -> (raw: Vec<u8>) {
        vec
    }

    fn raw_into_vec(&self, raw: Vec<u8>) -> (vec: Vec<u8>) {
        raw
    }
}

} // verus!
