//! A small stable hash, so that handles derived from URIs survive restarts.

use vstd::prelude::*;

verus! {

/// The hash of the empty sequence.
pub const OFFSET_BASIS: u64 = 0xcbf2_9ce4_8422_2325;

/// What the hash is multiplied by for every byte.
pub const PRIME: u64 = 0x100_0000_01b3;

/// FNV-1a with 64 bits: for every byte, mix it into the lowest byte, then
/// multiply.
pub open spec fn fnv1a(bytes: Seq<u8>) -> u64
    decreases bytes.len(),
{
    if bytes.len() == 0 {
        OFFSET_BASIS
    } else {
        (fnv1a(bytes.drop_last()) ^ (bytes.last() as u64)).wrapping_mul(PRIME)
    }
}

/// The 64-bit hash of `bytes`.
pub fn fnv(bytes: &[u8]) -> (out: u64)
    ensures
        out == fnv1a(bytes@),
{
    let mut h: u64 = OFFSET_BASIS;
    let mut i: usize = 0;
    assert(bytes@.take(0) =~= Seq::<u8>::empty());
    while i < bytes.len()
        invariant
            i <= bytes@.len(),
            h == fnv1a(bytes@.take(i as int)),
        decreases bytes@.len() - i,
    {
        assert(bytes@.take(i + 1).drop_last() =~= bytes@.take(i as int));
        h = (h ^ (bytes[i] as u64)).wrapping_mul(PRIME);
        i = i + 1;
    }
    assert(bytes@.take(i as int) =~= bytes@);
    h
}

/// The hash starts from the offset basis of 64-bit FNV and takes in one byte after
/// the other: the byte is mixed in first, then the prime is multiplied with, and
/// what exceeds 64 bits is dropped.
pub proof fn bytes_are_mixed_in_one_by_one(bytes: Seq<u8>, byte: u8)
    ensures
        fnv1a(Seq::<u8>::empty()) == 14695981039346656037,
        fnv1a(bytes.push(byte)) as int == ((fnv1a(bytes) ^ (byte as u64)) * 1099511628211)
            % 0x1_0000_0000_0000_0000,
{
    assert(bytes.push(byte).drop_last() =~= bytes);
}

} // verus!
