//! Hashes of clipboard contents, by which equal contents are recognised.

use std::collections::hash_map::DefaultHasher;
use std::hash::Hasher;
use vstd::bytes::*;
use vstd::prelude::*;
use vstd::std_specs::hash::*;

verus! {

/// A length as it is hashed: in the bytes of an address, low byte first.
pub open spec fn length_bytes(n: nat) -> Seq<u8> {
    if usize::BITS == 64 {
        spec_u64_to_le_bytes(n as u64)
    } else {
        spec_u32_to_le_bytes(n as u32)
    }
}

/// The hash of a content: that of its length and of its bytes.
pub open spec fn content_hash(data: Seq<u8>) -> u64 {
    DefaultHasher::spec_finish(seq![length_bytes(data.len()), data])
}

/// The hash of a content.
pub fn hash_bytes(data: &[u8]) -> (r: u64)
    ensures
        r == content_hash(data@),
{
    let mut h = DefaultHasher::new();
    let len = if usize::BITS == 64 {
        u64_to_le_bytes(data.len() as u64)
    } else {
        u32_to_le_bytes(data.len() as u32)
    };
    h.write(len.as_slice());
    h.write(data);
    assert(h@ =~= seq![length_bytes(data@.len()), data@]);
    h.finish()
}

/// The hash as the database holds it: the same 64 bits, signed.
pub open spec fn stored_hash(h: u64) -> int {
    if h < 0x8000_0000_0000_0000 {
        h as int
    } else {
        h - 0x1_0000_0000_0000_0000
    }
}

/// The hash as the database holds it.
pub fn hash_column(h: u64) -> (r: i64)
    ensures
        r == stored_hash(h),
{
    if h < 0x8000_0000_0000_0000 {
        h as i64
    } else {
        (h as i128 - 0x1_0000_0000_0000_0000) as i64
    }
}

/// Two hashes are held alike exactly where they are the same.
pub proof fn stored_hash_injective(a: u64, b: u64)
    ensures
        stored_hash(a) == stored_hash(b) <==> a == b,
{
}

/// A content is hashed as the bytes of a slice are: its length first, in as many bytes
/// as an address has, low byte first, and then the bytes.
pub proof fn contents_are_hashed_as_slices(data: Seq<u8>)
    ensures
        usize::BITS == 64 ==> content_hash(data) == DefaultHasher::spec_finish(
            seq![spec_u64_to_le_bytes(data.len() as u64), data],
        ),
        usize::BITS == 32 ==> content_hash(data) == DefaultHasher::spec_finish(
            seq![spec_u32_to_le_bytes(data.len() as u32), data],
        ),
{
}

/// The database holds the same 64 bits, as a signed number.
pub proof fn stored_hash_has_the_same_bits(h: u64)
    ensures
        i64::MIN <= stored_hash(h) <= i64::MAX,
        stored_hash(h) == h || stored_hash(h) + 0x1_0000_0000_0000_0000 == h,
{
}

} // verus!
