//! Variable-length integer encoding.

use vstd::prelude::*;

use crate::wire::{lemma_varint_bytes_len, varint_bytes, zigzag_32, zigzag_64};

verus! {

/// Apply the 32-bit zig-zag transform.
pub fn encode_zig_zag_32(n: i32) -> (r: u32)
    ensures
        r == zigzag_32(n),
{
    if n >= 0 {
        (n as u32) * 2
    } else {
        let m = -(n + 1);
        (m as u32) * 2 + 1
    }
}

/// Apply the 64-bit zig-zag transform.
pub fn encode_zig_zag_64(n: i64) -> (r: u64)
    ensures
        r == zigzag_64(n),
{
    if n >= 0 {
        (n as u64) * 2
    } else {
        let m = -(n + 1);
        (m as u64) * 2 + 1
    }
}

/// Append the canonical varint encoding of a 64-bit value: seven bits per
/// byte, least significant group first, continuation bit on every byte but
/// the last.
pub fn encode_varint64(v: u64, out: &mut Vec<u8>) -> (count: usize)
    ensures
        final(out)@ == old(out)@ + varint_bytes(v as nat),
        count == varint_bytes(v as nat).len(),
        1 <= count <= 10,
    decreases v,
{
    proof {
        lemma_varint_bytes_len(v as nat);
    }
    if v < 0x80 {
        out.push(v as u8);
        proof {
            assert(out@ =~= old(out)@ + varint_bytes(v as nat));
        }
        1
    } else {
        out.push((v % 0x80) as u8 + 0x80);
        let c = encode_varint64(v / 0x80, out);
        proof {
            assert(out@ =~= old(out)@ + varint_bytes(v as nat));
        }
        c + 1
    }
}

/// Append the canonical varint encoding of a 32-bit value: at most five
/// bytes.
pub fn encode_varint32(v: u32, out: &mut Vec<u8>) -> (count: usize)
    ensures
        final(out)@ == old(out)@ + varint_bytes(v as nat),
        count == varint_bytes(v as nat).len(),
        1 <= count <= 5,
    decreases v,
{
    proof {
        lemma_varint_bytes_len(v as nat);
    }
    encode_varint64(v as u64, out)
}

} // verus!
