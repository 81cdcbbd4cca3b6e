//! The 64-bit FNV-1a hash that turns a procedure name into its fingerprint.

use vstd::prelude::*;

verus! {

pub const OFFSET_BASIS: u64 = 0xcbf2_9ce4_8422_2325;

pub const PRIME: u64 = 0x0100_0000_01b3;

/// One round of FNV-1a: fold the byte into the low bits, then multiply by the
/// prime modulo 2^64.
pub open spec fn fnv1a_step(hash: u64, byte: u8) -> u64 {
    (((hash ^ (byte as u64)) as int * PRIME as int) % 0x1_0000_0000_0000_0000) as u64
}

/// FNV-1a of a byte sequence, starting from the offset basis.
pub open spec fn fnv1a_64(bytes: Seq<u8>) -> u64
    decreases bytes.len(),
{
    if bytes.len() == 0 {
        OFFSET_BASIS
    } else {
        fnv1a_step(fnv1a_64(bytes.drop_last()), bytes.last())
    }
}

/// The fingerprint of a name: FNV-1a over its UTF-8 bytes, exactly as written.
pub open spec fn fingerprint(name: Seq<char>) -> u64 {
    fnv1a_64(vstd::utf8::encode_utf8(name))
}

/// FNV-1a over a byte slice.
pub fn fnv_bytes(bytes: &[u8]) -> (hash: u64)
    ensures
        hash == fnv1a_64(bytes@),
{
    let mut hash: u64 = OFFSET_BASIS;
    let mut idx: usize = 0;
    while idx < bytes.len()
        invariant
            idx <= bytes.len(),
            hash == fnv1a_64(bytes@.take(idx as int)),
        decreases bytes.len() - idx,
    {
        let byte: u8 = bytes[idx];
        proof {
            let next = bytes@.take(idx + 1);
            assert(next.drop_last() =~= bytes@.take(idx as int));
            assert(next.last() == byte);
        }
        hash = (hash ^ (byte as u64)).wrapping_mul(PRIME);
        idx += 1;
    }
    proof {
        assert(bytes@.take(idx as int) =~= bytes@);
    }
    hash
}

/// The FNV-1a hash of a name.
pub fn fnv(name: &str) -> (hash: u64)
    ensures
        hash == fingerprint(name@),
{
    fnv_bytes(name.as_bytes())
}

} // verus!
