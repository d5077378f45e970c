//! Byte-wise hashing of content.
//!
//! Content is hashed by feeding it to hashbrown's default hasher one byte at
//! a time, so that the result depends on the bytes alone and never on how
//! they were split into slices.

use vstd::prelude::*;
use core::hash::Hasher;

verus! {

/// The hasher that hashbrown's `DefaultHashBuilder` makes.
#[verifier::external_type_specification]
#[verifier::external_body]
pub struct ExAHasher(ahash::AHasher);

/// The bytes that a hasher has been fed since it was made, in order.
pub uninterp spec fn hasher_fed(hasher: ahash::AHasher) -> Seq<u8>;

/// The value that hashbrown's default hasher finishes with after it was fed
/// `bytes` one byte at a time.
pub uninterp spec fn digest(bytes: Seq<u8>) -> u64;

/// `BuildHasher::build_hasher` on hashbrown's `DefaultHashBuilder`: a fresh
/// hasher, which has been fed nothing. The builder carries no state, so every
/// hasher it makes starts out the same.
#[verifier::external_body]
pub(crate) fn new_hasher() -> (hasher: ahash::AHasher)
    ensures
        hasher_fed(hasher) == Seq::<u8>::empty(),
{
    std::hash::BuildHasher::build_hasher(&hashbrown::hash_map::DefaultHashBuilder::default())
}

/// `Hasher::write_u8`: feeds one more byte to the hasher.
#[verifier::external_body]
pub(crate) fn feed_byte(hasher: &mut ahash::AHasher, byte: u8)
    ensures
        hasher_fed(*final(hasher)) == hasher_fed(*old(hasher)).push(byte),
{
    std::hash::Hasher::write_u8(hasher, byte)
}

/// `Hasher::finish`: the hash of what the hasher has been fed so far.
#[verifier::external_body]
pub(crate) fn finish_hasher(hasher: &ahash::AHasher) -> (hash: u64)
    ensures
        hash == digest(hasher_fed(*hasher)),
{
    std::hash::Hasher::finish(hasher)
}

/// `Hasher::write_u8` on a hasher of any kind: feeds it one byte. Of what
/// this does to such a hasher, nothing is stated.
#[verifier::external_body]
pub(crate) fn write_byte<H: Hasher>(state: &mut H, byte: u8) {
    state.write_u8(byte)
}

/// Hashes one contiguous run of bytes.
pub fn hash_bytes(bytes: &[u8]) -> (hash: u64)
    ensures
        hash == digest(bytes@),
{
    let mut hasher = new_hasher();
    let mut i: usize = 0;
    while i < bytes.len()
        invariant
            i <= bytes@.len(),
            hasher_fed(hasher) == bytes@.take(i as int),
        decreases bytes@.len() - i,
    {
        feed_byte(&mut hasher, bytes[i]);
        assert(bytes@.take(i as int).push(bytes@[i as int]) =~= bytes@.take(i + 1));
        i += 1;
    }
    assert(bytes@.take(bytes@.len() as int) =~= bytes@);
    finish_hasher(&hasher)
}

} // verus!
