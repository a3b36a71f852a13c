//! A fixed 64-bit hash, the same on every peer: FNV-1a.

use vstd::prelude::*;

verus! {

/// The hash of no bytes.
pub const FNV_OFFSET: u64 = 0xcbf2_9ce4_8422_2325;

/// The factor that each byte is mixed in with.
pub const FNV_PRIME: u64 = 0x0000_0100_0000_01b3;

/// The hash `hash` with the byte `byte` mixed in.
pub open spec fn mixed(hash: u64, byte: u8) -> u64 {
    (hash ^ (byte as u64)).wrapping_mul(FNV_PRIME)
}

/// The hash of `bytes`: from the offset, each byte in turn is mixed in.
pub open spec fn fnv1a(bytes: Seq<u8>) -> u64
    decreases bytes.len(),
{
    if bytes.len() == 0 {
        FNV_OFFSET
    } else {
        mixed(fnv1a(bytes.drop_last()), bytes.last())
    }
}

/// The eight bytes of `value`, the lowest first.
pub open spec fn le_bytes(value: u64) -> Seq<u8> {
    Seq::new(8, |i: int| (value >> ((8 * i) as u64) & 0xff) as u8)
}

/// The hash of `bytes`.
pub fn hash_bytes(bytes: &Vec<u8>) -> (hash: u64)
    ensures
        hash == fnv1a(bytes@),
{
    let mut hash: u64 = FNV_OFFSET;
    let mut n: usize = 0;
    while n < bytes.len()
        invariant
            n <= bytes@.len(),
            hash == fnv1a(bytes@.subrange(0, n as int)),
        decreases bytes@.len() - n,
    {
        proof {
            assert(bytes@.subrange(0, n + 1).drop_last() =~= bytes@.subrange(0, n as int));
        }
        hash = (hash ^ (bytes[n] as u64)).wrapping_mul(FNV_PRIME);
        n = n + 1;
    }
    proof {
        assert(bytes@.subrange(0, n as int) =~= bytes@);
    }
    hash
}

/// The eight bytes of `value`, the lowest first.
pub fn to_le_bytes(value: u64) -> (bytes: Vec<u8>)
    ensures
        bytes@ == le_bytes(value),
{
    let mut bytes: Vec<u8> = Vec::new();
    let mut i: u64 = 0;
    while i < 8
        invariant
            i <= 8,
            bytes@.len() == i,
            forall|k: int| 0 <= k < i ==> bytes@[k] == (value >> ((8 * k) as u64) & 0xff) as u8,
        decreases 8 - i,
    {
        let shifted: u64 = value >> (8 * i);
        let low: u64 = shifted & 0xff;
        assert(low < 256) by (bit_vector)
            requires
                low == shifted & 0xff,
        ;
        bytes.push(low as u8);
        i = i + 1;
    }
    assert(bytes@ =~= le_bytes(value));
    bytes
}

/// The hash of a number: that of its eight bytes, the lowest first.
pub fn hash_u64(value: u64) -> (hash: u64)
    ensures
        hash == fnv1a(le_bytes(value)),
{
    let bytes = to_le_bytes(value);
    hash_bytes(&bytes)
}

} // verus!
