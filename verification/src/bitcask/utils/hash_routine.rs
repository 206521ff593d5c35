//! The checksum of a run of bytes.

use std::collections::hash_map::DefaultHasher;
use std::hash::Hash;
use std::hash::Hasher;
use vstd::prelude::*;
use vstd::std_specs::hash::DefaultHasherAdditionalSpecFns;

verus! {

/// The sequence of writes that hashing a byte slice feeds into a hasher.
pub uninterp spec fn slice_hash_feed(input: Seq<u8>) -> Seq<Seq<u8>>;

/// The mask that keeps the `size` low bits of a 64-bit word.
pub open spec fn low_bits_mask(size: usize) -> u64
    recommends
        size < 64,
{
    ((1u64 << size) - 1) as u64
}

/// The 64-bit hash of `input`, folded to its `size` low bits.
pub open spec fn spec_encode_vec_u8(input: Seq<u8>, size: usize) -> u64
    recommends
        size < 64,
{
    DefaultHasher::spec_finish(slice_hash_feed(input)) & low_bits_mask(size)
}

/// Feeds `input` into `state` through `<[u8] as Hash>::hash`.
///
/// Trusted: the writes that reach the hasher depend on the bytes of `input`
/// alone, so they are given the name [`slice_hash_feed`]; nothing else is
/// claimed about them.
#[verifier::external_body]
fn feed_slice(input: &[u8], state: &mut DefaultHasher)
    ensures
        final(state)@ == old(state)@ + slice_hash_feed(input@),
{
    input.hash(state)
}

/// Hashes `input` with the standard library's default hasher and keeps the
/// `size` low bits of the result.
pub fn encode_vec_u8(input: &[u8], size: usize) -> (h: u64)
    requires
        size < 64,
    ensures
        h == spec_encode_vec_u8(input@, size),
{
    let mut hasher = DefaultHasher::new();
    feed_slice(input, &mut hasher);
    assert(hasher@ == slice_hash_feed(input@));
    assert((1u64 << size) >= 1) by (bit_vector)
        requires
            size < 64,
    ;
    hasher.finish() & ((1u64 << size) - 1)
}

} // verus!
