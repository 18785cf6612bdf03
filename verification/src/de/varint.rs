//! Variable-length integer decoding.

use vstd::arithmetic::div_mod::{
    lemma_add_mod_noop, lemma_mul_mod_noop_right, lemma_small_mod,
};
use vstd::prelude::*;

use crate::error::Error;
use crate::wire::{parse_varint_groups, unzigzag_32, unzigzag_64};

verus! {

/// Undo the 32-bit zig-zag transform.
pub fn decode_zig_zag_32(n: u32) -> (r: i32)
    ensures
        r == unzigzag_32(n),
{
    if n % 2 == 0 {
        (n / 2) as i32
    } else {
        -((n / 2) as i32) - 1
    }
}

/// Undo the 64-bit zig-zag transform.
pub fn decode_zig_zag_64(n: u64) -> (r: i64)
    ensures
        r == unzigzag_64(n),
{
    if n % 2 == 0 {
        (n / 2) as i64
    } else {
        -((n / 2) as i64) - 1
    }
}

/// Decode the varint whose groups start at `pos`, allowing at most `max`
/// groups.  Reports the value, truncated to 64 bits, and the number of
/// bytes it occupied.
pub(crate) fn decode_varint_prefix(buf: &[u8], pos: usize, max: u8) -> (r: Result<
    (u64, usize),
    Error,
>)
    requires
        pos <= buf@.len(),
    ensures
        match parse_varint_groups(buf@.skip(pos as int), max as nat) {
            Ok((v, n)) => r matches Ok(p) && p.0 as nat == v % 0x10000000000000000 && p.1 == n && 1
                <= n <= max,
            Err(e) => r matches Err(e2) && e2 == e,
        },
    decreases max,
{
    let ghost s = buf@.skip(pos as int);
    if pos == buf.len() {
        if max == 0 {
            Err(Error::IncorrectVarint)
        } else {
            Err(Error::OutOfBounds)
        }
    } else if max == 0 {
        Err(Error::IncorrectVarint)
    } else {
        let b = buf[pos];
        assert(s[0] == b);
        if b < 0x80 {
            Ok((b as u64, 1))
        } else {
            assert(buf@.skip(pos as int + 1) =~= s.skip(1));
            match decode_varint_prefix(buf, pos + 1, max - 1) {
                Ok((v, n)) => {
                    let g = (b - 0x80) as u64;
                    let w = v.wrapping_mul(0x80).wrapping_add(g);
                    proof {
                        let m = 0x10000000000000000int;
                        let vm = parse_varint_groups(s.skip(1), (max - 1) as nat)->Ok_0.0;
                        lemma_mul_mod_noop_right(0x80, vm as int, m);
                        assert(0x80 * vm == 0x80 * (vm as int));
                        assert((0x80 * ((vm as int) % m)) % m == (0x80 * (vm as int)) % m);
                        lemma_add_mod_noop(g as int, 0x80 * (vm as int), m);
                        lemma_small_mod(g as nat, m as nat);
                        assert(w as int == (g + 0x80 * vm) % m);
                    }
                    Ok((w, n + 1))
                },
                Err(e) => Err(e),
            }
        }
    }
}

/// Decode one varint of at most ten groups from the front of `buf`,
/// truncating the value to 64 bits.  As a slice-level utility it reports
/// a single error kind: input that ends, or passes ten groups, without a
/// terminating byte is `IncorrectVarint`.
pub fn decode_varint64(buf: &[u8]) -> (r: Result<u64, Error>)
    ensures
        match parse_varint_groups(buf@, 10) {
            Ok((v, n)) => r matches Ok(w) && w as nat == v % 0x10000000000000000,
            Err(_) => r == Err::<u64, Error>(Error::IncorrectVarint),
        },
{
    proof {
        assert(buf@.skip(0) =~= buf@);
    }
    match decode_varint_prefix(buf, 0, 10) {
        Ok((v, _)) => Ok(v),
        Err(_) => Err(Error::IncorrectVarint),
    }
}

} // verus!
