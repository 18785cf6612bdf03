//! Mathematical model of the wire format.
//!
//! Every encoder contract appends what a `*_wire` function describes, and
//! every decoder contract returns what a `parse_*` function describes.  A
//! `parse_*` function consumes a prefix of the byte sequence it is given and
//! reports the value together with how many bytes the value occupied, or the
//! exact error the decoder must return.

use vstd::prelude::*;

use crate::error::Error;

verus! {

// ===== Fixed-width big-endian integers =====

/// The two big-endian bytes of a 16-bit value.
pub open spec fn be_bytes_16(v: u16) -> Seq<u8> {
    seq![(v >> 8) as u8, (v & 0xff) as u8]
}

/// The 16-bit value held by two big-endian bytes.
pub open spec fn be_val_16(s: Seq<u8>) -> u16
    recommends
        s.len() == 2,
{
    ((s[0] as u16) << 8) | (s[1] as u16)
}

/// The four big-endian bytes of a 32-bit value.
pub open spec fn be_bytes_32(v: u32) -> Seq<u8> {
    seq![
        ((v >> 24) & 0xff) as u8,
        ((v >> 16) & 0xff) as u8,
        ((v >> 8) & 0xff) as u8,
        (v & 0xff) as u8,
    ]
}

/// The 32-bit value held by four big-endian bytes.
pub open spec fn be_val_32(s: Seq<u8>) -> u32
    recommends
        s.len() == 4,
{
    ((s[0] as u32) << 24) | ((s[1] as u32) << 16) | ((s[2] as u32) << 8) | (s[3] as u32)
}

/// The eight big-endian bytes of a 64-bit value.
pub open spec fn be_bytes_64(v: u64) -> Seq<u8> {
    seq![
        ((v >> 56) & 0xff) as u8,
        ((v >> 48) & 0xff) as u8,
        ((v >> 40) & 0xff) as u8,
        ((v >> 32) & 0xff) as u8,
        ((v >> 24) & 0xff) as u8,
        ((v >> 16) & 0xff) as u8,
        ((v >> 8) & 0xff) as u8,
        (v & 0xff) as u8,
    ]
}

/// The 64-bit value held by eight big-endian bytes.
pub open spec fn be_val_64(s: Seq<u8>) -> u64
    recommends
        s.len() == 8,
{
    ((s[0] as u64) << 56) | ((s[1] as u64) << 48) | ((s[2] as u64) << 40) | ((s[3] as u64) << 32)
        | ((s[4] as u64) << 24) | ((s[5] as u64) << 16) | ((s[6] as u64) << 8) | (s[7] as u64)
}

/// Reading back the big-endian bytes of a 16-bit value gives the value.
pub proof fn lemma_be_16_round_trip(v: u16)
    ensures
        be_bytes_16(v).len() == 2,
        be_val_16(be_bytes_16(v)) == v,
{
    let b0 = (v >> 8) as u8;
    let b1 = (v & 0xff) as u8;
    assert((((b0 as u16) << 8) | (b1 as u16)) == v) by (bit_vector)
        requires
            b0 == (v >> 8) as u8,
            b1 == (v & 0xff) as u8,
    ;
}

/// Reading back the big-endian bytes of a 32-bit value gives the value.
pub proof fn lemma_be_32_round_trip(v: u32)
    ensures
        be_bytes_32(v).len() == 4,
        be_val_32(be_bytes_32(v)) == v,
{
    let b0 = ((v >> 24) & 0xff) as u8;
    let b1 = ((v >> 16) & 0xff) as u8;
    let b2 = ((v >> 8) & 0xff) as u8;
    let b3 = (v & 0xff) as u8;
    assert((((b0 as u32) << 24) | ((b1 as u32) << 16) | ((b2 as u32) << 8) | (b3 as u32)) == v)
        by (bit_vector)
        requires
            b0 == ((v >> 24) & 0xff) as u8,
            b1 == ((v >> 16) & 0xff) as u8,
            b2 == ((v >> 8) & 0xff) as u8,
            b3 == (v & 0xff) as u8,
    ;
}

/// Reading back the big-endian bytes of a 64-bit value gives the value.
pub proof fn lemma_be_64_round_trip(v: u64)
    ensures
        be_bytes_64(v).len() == 8,
        be_val_64(be_bytes_64(v)) == v,
{
    let b0 = ((v >> 56) & 0xff) as u8;
    let b1 = ((v >> 48) & 0xff) as u8;
    let b2 = ((v >> 40) & 0xff) as u8;
    let b3 = ((v >> 32) & 0xff) as u8;
    let b4 = ((v >> 24) & 0xff) as u8;
    let b5 = ((v >> 16) & 0xff) as u8;
    let b6 = ((v >> 8) & 0xff) as u8;
    let b7 = (v & 0xff) as u8;
    assert((((b0 as u64) << 56) | ((b1 as u64) << 48) | ((b2 as u64) << 40) | ((b3 as u64) << 32)
        | ((b4 as u64) << 24) | ((b5 as u64) << 16) | ((b6 as u64) << 8) | (b7 as u64)) == v)
        by (bit_vector)
        requires
            b0 == ((v >> 56) & 0xff) as u8,
            b1 == ((v >> 48) & 0xff) as u8,
            b2 == ((v >> 40) & 0xff) as u8,
            b3 == ((v >> 32) & 0xff) as u8,
            b4 == ((v >> 24) & 0xff) as u8,
            b5 == ((v >> 16) & 0xff) as u8,
            b6 == ((v >> 8) & 0xff) as u8,
            b7 == (v & 0xff) as u8,
    ;
}

// ===== Parsers for fixed-width values =====

/// Parse one byte.
pub open spec fn parse_u8(s: Seq<u8>) -> Result<(u8, int), Error> {
    if s.len() < 1 {
        Err(Error::OutOfBounds)
    } else {
        Ok((s[0], 1))
    }
}

/// Parse a big-endian 16-bit value.
pub open spec fn parse_u16(s: Seq<u8>) -> Result<(u16, int), Error> {
    if s.len() < 2 {
        Err(Error::OutOfBounds)
    } else {
        Ok((be_val_16(s.take(2)), 2))
    }
}

/// Parse a big-endian 32-bit value.
pub open spec fn parse_u32(s: Seq<u8>) -> Result<(u32, int), Error> {
    if s.len() < 4 {
        Err(Error::OutOfBounds)
    } else {
        Ok((be_val_32(s.take(4)), 4))
    }
}

/// Parse a big-endian 64-bit value.
pub open spec fn parse_u64(s: Seq<u8>) -> Result<(u64, int), Error> {
    if s.len() < 8 {
        Err(Error::OutOfBounds)
    } else {
        Ok((be_val_64(s.take(8)), 8))
    }
}

// ===== Zig-zag transform =====

/// Map a signed 32-bit value onto an unsigned one so that values of small
/// magnitude, positive or negative, stay small: 0, -1, 1, -2 become
/// 0, 1, 2, 3.
pub open spec fn zigzag_32(n: i32) -> u32 {
    if n >= 0 {
        (2 * (n as int)) as u32
    } else {
        (-2 * (n as int) - 1) as u32
    }
}

/// Inverse of [`zigzag_32`].
pub open spec fn unzigzag_32(u: u32) -> i32 {
    if u % 2 == 0 {
        ((u as int) / 2) as i32
    } else {
        (-((u as int) / 2) - 1) as i32
    }
}

/// Map a signed 64-bit value onto an unsigned one, as [`zigzag_32`] does.
pub open spec fn zigzag_64(n: i64) -> u64 {
    if n >= 0 {
        (2 * (n as int)) as u64
    } else {
        (-2 * (n as int) - 1) as u64
    }
}

/// Inverse of [`zigzag_64`].
pub open spec fn unzigzag_64(u: u64) -> i64 {
    if u % 2 == 0 {
        ((u as int) / 2) as i64
    } else {
        (-((u as int) / 2) - 1) as i64
    }
}

/// The zig-zag transform loses nothing: mapping back gives the value.
pub proof fn lemma_zigzag_32_round_trip(n: i32)
    ensures
        unzigzag_32(zigzag_32(n)) == n,
{
}

/// The 64-bit zig-zag transform loses nothing.
pub proof fn lemma_zigzag_64_round_trip(n: i64)
    ensures
        unzigzag_64(zigzag_64(n)) == n,
{
}

// ===== Base-128 variable-length integers =====

/// The canonical varint encoding of a value: groups of seven bits, least
/// significant group first, the high bit of every byte but the last set.
pub open spec fn varint_bytes(v: nat) -> Seq<u8>
    decreases v,
{
    if v < 0x80 {
        seq![v as u8]
    } else {
        seq![((v % 0x80) + 0x80) as u8] + varint_bytes(v / 0x80)
    }
}

/// Parse a varint of at most `max` groups.  Fails with `OutOfBounds` when
/// the bytes run out before a terminating byte, and with `IncorrectVarint`
/// when `max` groups pass without one.  The value is returned without any
/// width truncation.
pub open spec fn parse_varint_groups(s: Seq<u8>, max: nat) -> Result<(nat, int), Error>
    decreases max,
{
    if s.len() == 0 {
        if max == 0 {
            Err(Error::IncorrectVarint)
        } else {
            Err(Error::OutOfBounds)
        }
    } else if max == 0 {
        Err(Error::IncorrectVarint)
    } else if s[0] < 0x80 {
        Ok(((s[0] as nat), 1))
    } else {
        match parse_varint_groups(s.skip(1), (max - 1) as nat) {
            Ok((v, n)) => Ok((((s[0] - 0x80) as nat) + 0x80 * v, n + 1)),
            Err(e) => Err(e),
        }
    }
}

/// How long varint encodings are, bracketed by the magnitude of the value.
pub proof fn lemma_varint_bytes_len(v: nat)
    ensures
        1 <= varint_bytes(v).len(),
        v < 0x80 ==> varint_bytes(v).len() == 1,
        v < 0x4000 ==> varint_bytes(v).len() <= 2,
        v < 0x200000 ==> varint_bytes(v).len() <= 3,
        v < 0x10000000 ==> varint_bytes(v).len() <= 4,
        v < 0x800000000 ==> varint_bytes(v).len() <= 5,
        v < 0x40000000000 ==> varint_bytes(v).len() <= 6,
        v < 0x2000000000000 ==> varint_bytes(v).len() <= 7,
        v < 0x100000000000000 ==> varint_bytes(v).len() <= 8,
        v < 0x8000000000000000 ==> varint_bytes(v).len() <= 9,
        v < 0x400000000000000000 ==> varint_bytes(v).len() <= 10,
        v >= 0x80 ==> varint_bytes(v).len() >= 2,
        v >= 0x4000 ==> varint_bytes(v).len() >= 3,
        v >= 0x200000 ==> varint_bytes(v).len() >= 4,
        v >= 0x10000000 ==> varint_bytes(v).len() >= 5,
        v >= 0x800000000 ==> varint_bytes(v).len() >= 6,
        v >= 0x40000000000 ==> varint_bytes(v).len() >= 7,
        v >= 0x2000000000000 ==> varint_bytes(v).len() >= 8,
        v >= 0x100000000000000 ==> varint_bytes(v).len() >= 9,
        v >= 0x8000000000000000 ==> varint_bytes(v).len() >= 10,
    decreases v,
{
    if v >= 0x80 {
        lemma_varint_bytes_len(v / 0x80);
    }
}

/// A parsed varint of `max` groups or fewer is bounded by seven bits per
/// group, and consumes between one and `max` bytes.
pub proof fn lemma_parse_varint_groups_bound(s: Seq<u8>, max: nat)
    ensures
        parse_varint_groups(s, max) matches Ok(p) ==> {
            &&& 1 <= p.1 <= max
            &&& p.1 <= s.len()
            &&& max <= 1 ==> p.0 < 0x80
            &&& max <= 2 ==> p.0 < 0x4000
            &&& max <= 3 ==> p.0 < 0x200000
            &&& max <= 4 ==> p.0 < 0x10000000
            &&& max <= 5 ==> p.0 < 0x800000000
            &&& max <= 6 ==> p.0 < 0x40000000000
            &&& max <= 7 ==> p.0 < 0x2000000000000
            &&& max <= 8 ==> p.0 < 0x100000000000000
            &&& max <= 9 ==> p.0 < 0x8000000000000000
            &&& max <= 10 ==> p.0 < 0x400000000000000000
        },
    decreases max,
{
    if s.len() > 0 && max > 0 && s[0] >= 0x80 {
        lemma_parse_varint_groups_bound(s.skip(1), (max - 1) as nat);
    }
}

/// A canonical varint encoding cut off before its terminating byte parses
/// as `OutOfBounds`: every byte of a strict prefix has the continuation bit
/// set, so the parser runs out of input.
pub proof fn lemma_varint_truncation(v: nat, k: int, max: nat)
    requires
        0 <= k < varint_bytes(v).len(),
        k < max,
    ensures
        parse_varint_groups(varint_bytes(v).take(k), max) == Err::<(nat, int), Error>(
            Error::OutOfBounds,
        ),
    decreases v,
{
    let s = varint_bytes(v).take(k);
    if k == 0 {
        assert(s.len() == 0);
    } else {
        assert(v >= 0x80);
        assert(s[0] == ((v % 0x80) + 0x80) as u8);
        assert(s[0] >= 0x80);
        assert(s.skip(1) =~= varint_bytes(v / 0x80).take(k - 1));
        lemma_varint_truncation(v / 0x80, k - 1, (max - 1) as nat);
    }
}

/// A run of `max` bytes that all carry the continuation bit is rejected as
/// a malformed varint.
pub proof fn lemma_varint_all_continuation(s: Seq<u8>, max: nat)
    requires
        s.len() >= max,
        forall|j: int| 0 <= j < max ==> s[j] >= 0x80,
    ensures
        parse_varint_groups(s, max) == Err::<(nat, int), Error>(Error::IncorrectVarint),
    decreases max,
{
    if max > 0 {
        lemma_varint_all_continuation(s.skip(1), (max - 1) as nat);
    }
}

/// Round trip for varints: parsing the canonical encoding of a value, with
/// anything at all after it, yields the value and consumes exactly the
/// encoding.
pub proof fn lemma_varint_round_trip(v: nat, tail: Seq<u8>, max: nat)
    requires
        varint_bytes(v).len() <= max,
    ensures
        parse_varint_groups(varint_bytes(v) + tail, max) == Ok::<(nat, int), Error>(
            (v, varint_bytes(v).len() as int),
        ),
    decreases v,
{
    let s = varint_bytes(v) + tail;
    if v < 0x80 {
        assert(s[0] == v as u8);
    } else {
        let first = ((v % 0x80) + 0x80) as u8;
        assert(s[0] == first);
        assert(first >= 0x80);
        assert(s.skip(1) =~= varint_bytes(v / 0x80) + tail);
        lemma_varint_round_trip(v / 0x80, tail, (max - 1) as nat);
        assert(((first - 0x80) as nat) + 0x80 * (v / 0x80) == v);
    }
}

// ===== Zig-zag varints as they appear on the wire =====

/// Wire form of a signed 32-bit varint: zig-zag, then base-128 groups.
pub open spec fn varint_wire_32(n: i32) -> Seq<u8> {
    varint_bytes(zigzag_32(n) as nat)
}

/// Wire form of a signed 64-bit varint.
pub open spec fn varint_wire_64(n: i64) -> Seq<u8> {
    varint_bytes(zigzag_64(n) as nat)
}

/// Parse a signed 32-bit varint: at most five groups, truncated to 32 bits
/// as the decoder does, then the zig-zag transform undone.
pub open spec fn parse_varint_32(s: Seq<u8>) -> Result<(i32, int), Error> {
    match parse_varint_groups(s, 5) {
        Ok((v, n)) => Ok((unzigzag_32((v % 0x100000000) as u32), n)),
        Err(e) => Err(e),
    }
}

/// Parse a signed 64-bit varint: at most ten groups, truncated to 64 bits.
pub open spec fn parse_varint_64(s: Seq<u8>) -> Result<(i64, int), Error> {
    match parse_varint_groups(s, 10) {
        Ok((v, n)) => Ok((unzigzag_64((v % 0x10000000000000000) as u64), n)),
        Err(e) => Err(e),
    }
}

/// Round trip for signed 32-bit varints, with the encoded length bracketed
/// for the edge values.
pub proof fn lemma_varint_32_round_trip(n: i32, tail: Seq<u8>)
    ensures
        parse_varint_32(varint_wire_32(n) + tail) == Ok::<(i32, int), Error>(
            (n, varint_wire_32(n).len() as int),
        ),
        1 <= varint_wire_32(n).len() <= 5,
{
    let z = zigzag_32(n) as nat;
    lemma_varint_bytes_len(z);
    lemma_varint_round_trip(z, tail, 5);
    assert(z % 0x100000000 == z);
    lemma_zigzag_32_round_trip(n);
}

/// Round trip for signed 64-bit varints.
pub proof fn lemma_varint_64_round_trip(n: i64, tail: Seq<u8>)
    ensures
        parse_varint_64(varint_wire_64(n) + tail) == Ok::<(i64, int), Error>(
            (n, varint_wire_64(n).len() as int),
        ),
        1 <= varint_wire_64(n).len() <= 10,
{
    let z = zigzag_64(n) as nat;
    lemma_varint_bytes_len(z);
    lemma_varint_round_trip(z, tail, 10);
    assert(z % 0x10000000000000000 == z);
    lemma_zigzag_64_round_trip(n);
}

// ===== Length prefixes =====

/// Parse the compact (varint) length prefix: at most five groups, then the
/// same 32-bit truncation the decoder applies.
pub open spec fn parse_len_compact(s: Seq<u8>) -> Result<(int, int), Error> {
    match parse_varint_groups(s, 5) {
        Ok((v, n)) => Ok(((v % 0x100000000) as int, n)),
        Err(e) => Err(e),
    }
}

/// Round trip for the compact length prefix.
pub proof fn lemma_len_compact_round_trip(len: nat, rest: Seq<u8>)
    requires
        len <= 0xffffffff,
    ensures
        parse_len_compact(varint_bytes(len) + rest) == Ok::<(int, int), Error>(
            (len as int, varint_bytes(len).len() as int),
        ),
        1 <= varint_bytes(len).len() <= 5,
{
    lemma_varint_bytes_len(len);
    lemma_varint_round_trip(len, rest, 5);
    assert(len % 0x100000000 == len);
}

// ===== Strings =====

/// Wire form of a string: its UTF-8 bytes behind a length prefix, a
/// two-byte signed length in the legacy encoding and a varint length in the
/// compact encoding.
pub open spec fn string_wire(cs: Seq<char>, flexible: bool) -> Seq<u8> {
    if flexible {
        varint_bytes(vstd::utf8::encode_utf8(cs).len()) + vstd::utf8::encode_utf8(cs)
    } else {
        be_bytes_16(vstd::utf8::encode_utf8(cs).len() as u16) + vstd::utf8::encode_utf8(cs)
    }
}

/// Whether a string's byte length fits the length prefix it must be
/// written in.
pub open spec fn string_fits(cs: Seq<char>, flexible: bool) -> bool {
    if flexible {
        vstd::utf8::encode_utf8(cs).len() <= 0xffffffff
    } else {
        vstd::utf8::encode_utf8(cs).len() <= 0x7fff
    }
}

/// Parse `len` payload bytes that start at offset `n`, and require them to
/// be valid UTF-8.
pub open spec fn parse_string_payload(s: Seq<u8>, n: int, len: int) -> Result<
    (Seq<char>, int),
    Error,
> {
    if s.len() - n < len {
        Err(Error::OutOfBounds)
    } else if vstd::utf8::valid_utf8(s.subrange(n, n + len)) {
        Ok((vstd::utf8::decode_utf8(s.subrange(n, n + len)), n + len))
    } else {
        Err(Error::UTF8Error)
    }
}

/// Parse a string in either encoding.  A legacy length prefix that is
/// negative cannot name a byte count and is a `BoundsCheck` failure.
pub open spec fn parse_string(s: Seq<u8>, flexible: bool) -> Result<(Seq<char>, int), Error> {
    if flexible {
        match parse_len_compact(s) {
            Ok((len, n)) => parse_string_payload(s, n, len),
            Err(e) => Err(e),
        }
    } else {
        match parse_u16(s) {
            Ok((u, n)) => {
                if u >= 0x8000 {
                    Err(Error::BoundsCheck)
                } else {
                    parse_string_payload(s, n, u as int)
                }
            },
            Err(e) => Err(e),
        }
    }
}

/// Round trip for strings in both encodings.
pub proof fn lemma_string_round_trip(cs: Seq<char>, tail: Seq<u8>, flexible: bool)
    requires
        string_fits(cs, flexible),
    ensures
        parse_string(string_wire(cs, flexible) + tail, flexible) == Ok::<(Seq<char>, int), Error>(
            (cs, string_wire(cs, flexible).len() as int),
        ),
{
    let pay = vstd::utf8::encode_utf8(cs);
    let l = pay.len();
    vstd::utf8::encode_utf8_valid_utf8(cs);
    vstd::utf8::encode_utf8_decode_utf8(cs);
    if flexible {
        let pre = varint_bytes(l);
        let s = string_wire(cs, true) + tail;
        assert(s =~= pre + (pay + tail));
        lemma_len_compact_round_trip(l, pay + tail);
        let n = pre.len() as int;
        assert(s.subrange(n, n + l) =~= pay);
        assert(s.len() - n >= l);
    } else {
        let pre = be_bytes_16(l as u16);
        let s = string_wire(cs, false) + tail;
        assert(s =~= pre + (pay + tail));
        assert(s.take(2) =~= pre);
        lemma_be_16_round_trip(l as u16);
        assert(be_val_16(pre) == l);
        assert(s.subrange(2, 2 + l as int) =~= pay);
    }
}

/// Truncation safety for strings: any strict prefix of a string's wire
/// form fails to parse with `OutOfBounds`.
pub proof fn lemma_string_truncation(cs: Seq<char>, flexible: bool, k: int)
    requires
        string_fits(cs, flexible),
        0 <= k < string_wire(cs, flexible).len(),
    ensures
        parse_string(string_wire(cs, flexible).take(k), flexible) == Err::<(Seq<char>, int), Error>(
            Error::OutOfBounds,
        ),
{
    let pay = vstd::utf8::encode_utf8(cs);
    let l = pay.len();
    let w = string_wire(cs, flexible);
    if flexible {
        let pre = varint_bytes(l);
        lemma_varint_bytes_len(l);
        if k < pre.len() {
            assert(w.take(k) =~= pre.take(k));
            lemma_varint_truncation(l, k, 5);
        } else {
            let n = pre.len() as int;
            assert(w.take(k) =~= pre + pay.take(k - n));
            lemma_len_compact_round_trip(l, pay.take(k - n));
            assert(w.take(k).len() - n < l);
        }
    } else {
        let pre = be_bytes_16(l as u16);
        if k < 2 {
            assert(w.take(k).len() < 2);
        } else {
            assert(w.take(k).take(2) =~= pre);
            lemma_be_16_round_trip(l as u16);
            assert(w.take(k).len() - 2 < l);
        }
    }
}

// ===== Nullable strings =====

/// Wire form of a nullable string.  Legacy: length -1 marks an absent
/// value.  Compact: varint 0 marks an absent value, and a present value's
/// length is written with a bias of one.
pub open spec fn nullable_string_wire(v: Option<Seq<char>>, flexible: bool) -> Seq<u8> {
    match v {
        Option::None => if flexible {
            seq![0u8]
        } else {
            be_bytes_16(0xffff)
        },
        Option::Some(cs) => if flexible {
            varint_bytes(vstd::utf8::encode_utf8(cs).len() + 1) + vstd::utf8::encode_utf8(cs)
        } else {
            string_wire(cs, false)
        },
    }
}

/// Whether a nullable string fits its length prefix.
pub open spec fn nullable_string_fits(v: Option<Seq<char>>, flexible: bool) -> bool {
    match v {
        Option::None => true,
        Option::Some(cs) => if flexible {
            vstd::utf8::encode_utf8(cs).len() + 1 <= 0xffffffff
        } else {
            vstd::utf8::encode_utf8(cs).len() <= 0x7fff
        },
    }
}

/// Parse a nullable string in either encoding.
pub open spec fn parse_nullable_string(s: Seq<u8>, flexible: bool) -> Result<
    (Option<Seq<char>>, int),
    Error,
> {
    if flexible {
        match parse_len_compact(s) {
            Ok((k, n)) => {
                if k == 0 {
                    Ok((Option::None, n))
                } else {
                    match parse_string_payload(s, n, k - 1) {
                        Ok((cs, m)) => Ok((Option::Some(cs), m)),
                        Err(e) => Err(e),
                    }
                }
            },
            Err(e) => Err(e),
        }
    } else {
        match parse_u16(s) {
            Ok((u, n)) => {
                if u == 0xffff {
                    Ok((Option::None, n))
                } else if u >= 0x8000 {
                    Err(Error::BoundsCheck)
                } else {
                    match parse_string_payload(s, n, u as int) {
                        Ok((cs, m)) => Ok((Option::Some(cs), m)),
                        Err(e) => Err(e),
                    }
                }
            },
            Err(e) => Err(e),
        }
    }
}

/// Round trip for nullable strings in both encodings.
pub proof fn lemma_nullable_string_round_trip(v: Option<Seq<char>>, tail: Seq<u8>, flexible: bool)
    requires
        nullable_string_fits(v, flexible),
    ensures
        parse_nullable_string(nullable_string_wire(v, flexible) + tail, flexible) == Ok::<
            (Option<Seq<char>>, int),
            Error,
        >((v, nullable_string_wire(v, flexible).len() as int)),
{
    match v {
        Option::None => {
            if flexible {
                let s = nullable_string_wire(v, true) + tail;
                assert(s =~= varint_bytes(0) + tail);
                lemma_len_compact_round_trip(0, tail);
            } else {
                let s = nullable_string_wire(v, false) + tail;
                assert(s.take(2) =~= be_bytes_16(0xffff));
                lemma_be_16_round_trip(0xffff);
            }
        },
        Option::Some(cs) => {
            let pay = vstd::utf8::encode_utf8(cs);
            let l = pay.len();
            vstd::utf8::encode_utf8_valid_utf8(cs);
            vstd::utf8::encode_utf8_decode_utf8(cs);
            if flexible {
                let pre = varint_bytes(l + 1);
                let s = nullable_string_wire(v, true) + tail;
                assert(s =~= pre + (pay + tail));
                lemma_len_compact_round_trip(l + 1, pay + tail);
                let n = pre.len() as int;
                assert(s.subrange(n, n + l) =~= pay);
                assert(s.len() - n >= l);
            } else {
                let s = nullable_string_wire(v, false) + tail;
                let pre = be_bytes_16(l as u16);
                assert(s =~= pre + (pay + tail));
                assert(s.take(2) =~= pre);
                lemma_be_16_round_trip(l as u16);
                assert(s.subrange(2, 2 + l as int) =~= pay);
            }
        },
    }
}

/// The absent sentinel never collides with an empty-but-present string: the
/// two wire forms differ, and each parses back to its own state.
pub proof fn lemma_nullable_string_sentinel_distinct(flexible: bool, tail: Seq<u8>)
    ensures
        parse_nullable_string(nullable_string_wire(Option::None, flexible) + tail, flexible)
            == Ok::<(Option<Seq<char>>, int), Error>(
            (Option::None, nullable_string_wire(Option::None, flexible).len() as int),
        ),
        parse_nullable_string(
            nullable_string_wire(Option::Some(Seq::<char>::empty()), flexible) + tail,
            flexible,
        ) == Ok::<(Option<Seq<char>>, int), Error>(
            (
                Option::Some(Seq::<char>::empty()),
                nullable_string_wire(Option::Some(Seq::<char>::empty()), flexible).len() as int,
            ),
        ),
        nullable_string_wire(Option::None, flexible) != nullable_string_wire(
            Option::Some(Seq::<char>::empty()),
            flexible,
        ),
{
    let empty = Seq::<char>::empty();
    assert(vstd::utf8::encode_utf8(empty) =~= Seq::<u8>::empty());
    lemma_nullable_string_round_trip(Option::None, tail, flexible);
    lemma_nullable_string_round_trip(Option::Some(empty), tail, flexible);
    if flexible {
        assert(nullable_string_wire(Option::None, true) =~= seq![0u8]);
        assert(nullable_string_wire(Option::Some(empty), true) =~= seq![1u8]);
    } else {
        lemma_be_16_round_trip(0xffff);
        lemma_be_16_round_trip(0);
        assert(nullable_string_wire(Option::Some(empty), false) =~= be_bytes_16(0));
        assert(be_val_16(be_bytes_16(0xffff)) != be_val_16(be_bytes_16(0)));
    }
}

// ===== Byte strings =====

/// Wire form of a byte string: the bytes behind a length prefix, a
/// four-byte signed length in the legacy encoding and a varint length in
/// the compact encoding.
pub open spec fn bytes_wire(b: Seq<u8>, flexible: bool) -> Seq<u8> {
    if flexible {
        varint_bytes(b.len()) + b
    } else {
        be_bytes_32(b.len() as u32) + b
    }
}

/// Whether a byte string's length fits the prefix it must be written in.
pub open spec fn bytes_fits(b: Seq<u8>, flexible: bool) -> bool {
    if flexible {
        b.len() <= 0xffffffff
    } else {
        b.len() <= 0x7fffffff
    }
}

/// Parse `len` payload bytes that start at offset `n`.
pub open spec fn parse_bytes_payload(s: Seq<u8>, n: int, len: int) -> Result<(Seq<u8>, int), Error> {
    if s.len() - n < len {
        Err(Error::OutOfBounds)
    } else {
        Ok((s.subrange(n, n + len), n + len))
    }
}

/// Parse a byte string in either encoding.
pub open spec fn parse_bytes(s: Seq<u8>, flexible: bool) -> Result<(Seq<u8>, int), Error> {
    if flexible {
        match parse_len_compact(s) {
            Ok((len, n)) => parse_bytes_payload(s, n, len),
            Err(e) => Err(e),
        }
    } else {
        match parse_u32(s) {
            Ok((u, n)) => {
                if u >= 0x80000000 {
                    Err(Error::BoundsCheck)
                } else {
                    parse_bytes_payload(s, n, u as int)
                }
            },
            Err(e) => Err(e),
        }
    }
}

/// Round trip for byte strings in both encodings.
pub proof fn lemma_bytes_round_trip(b: Seq<u8>, tail: Seq<u8>, flexible: bool)
    requires
        bytes_fits(b, flexible),
    ensures
        parse_bytes(bytes_wire(b, flexible) + tail, flexible) == Ok::<(Seq<u8>, int), Error>(
            (b, bytes_wire(b, flexible).len() as int),
        ),
{
    let l = b.len();
    if flexible {
        let pre = varint_bytes(l);
        let s = bytes_wire(b, true) + tail;
        assert(s =~= pre + (b + tail));
        lemma_len_compact_round_trip(l, b + tail);
        let n = pre.len() as int;
        assert(s.subrange(n, n + l as int) =~= b);
        assert(s.len() - n >= l);
    } else {
        let pre = be_bytes_32(l as u32);
        let s = bytes_wire(b, false) + tail;
        assert(s =~= pre + (b + tail));
        assert(s.take(4) =~= pre);
        lemma_be_32_round_trip(l as u32);
        assert(s.subrange(4, 4 + l as int) =~= b);
    }
}

/// Truncation safety for byte strings: any strict prefix of the wire form
/// fails to parse with `OutOfBounds`.
pub proof fn lemma_bytes_truncation(b: Seq<u8>, flexible: bool, k: int)
    requires
        bytes_fits(b, flexible),
        0 <= k < bytes_wire(b, flexible).len(),
    ensures
        parse_bytes(bytes_wire(b, flexible).take(k), flexible) == Err::<(Seq<u8>, int), Error>(
            Error::OutOfBounds,
        ),
{
    let l = b.len();
    let w = bytes_wire(b, flexible);
    if flexible {
        let pre = varint_bytes(l);
        lemma_varint_bytes_len(l);
        if k < pre.len() {
            assert(w.take(k) =~= pre.take(k));
            lemma_varint_truncation(l, k, 5);
        } else {
            let n = pre.len() as int;
            assert(w.take(k) =~= pre + b.take(k - n));
            lemma_len_compact_round_trip(l, b.take(k - n));
            assert(w.take(k).len() - n < l);
        }
    } else {
        let pre = be_bytes_32(l as u32);
        if k < 4 {
            assert(w.take(k).len() < 4);
        } else {
            assert(w.take(k).take(4) =~= pre);
            lemma_be_32_round_trip(l as u32);
            assert(w.take(k).len() - 4 < l);
        }
    }
}

// ===== Nullable byte strings =====

/// Wire form of a nullable byte string, with the same sentinels as
/// [`nullable_string_wire`] but a four-byte legacy prefix.
pub open spec fn nullable_bytes_wire(v: Option<Seq<u8>>, flexible: bool) -> Seq<u8> {
    match v {
        Option::None => if flexible {
            seq![0u8]
        } else {
            be_bytes_32(0xffffffff)
        },
        Option::Some(b) => if flexible {
            varint_bytes(b.len() + 1) + b
        } else {
            bytes_wire(b, false)
        },
    }
}

/// Whether a nullable byte string fits its length prefix.
pub open spec fn nullable_bytes_fits(v: Option<Seq<u8>>, flexible: bool) -> bool {
    match v {
        Option::None => true,
        Option::Some(b) => if flexible {
            b.len() + 1 <= 0xffffffff
        } else {
            b.len() <= 0x7fffffff
        },
    }
}

/// Parse a nullable byte string in either encoding.
pub open spec fn parse_nullable_bytes(s: Seq<u8>, flexible: bool) -> Result<
    (Option<Seq<u8>>, int),
    Error,
> {
    if flexible {
        match parse_len_compact(s) {
            Ok((k, n)) => {
                if k == 0 {
                    Ok((Option::None, n))
                } else {
                    match parse_bytes_payload(s, n, k - 1) {
                        Ok((b, m)) => Ok((Option::Some(b), m)),
                        Err(e) => Err(e),
                    }
                }
            },
            Err(e) => Err(e),
        }
    } else {
        match parse_u32(s) {
            Ok((u, n)) => {
                if u == 0xffffffff {
                    Ok((Option::None, n))
                } else if u >= 0x80000000 {
                    Err(Error::BoundsCheck)
                } else {
                    match parse_bytes_payload(s, n, u as int) {
                        Ok((b, m)) => Ok((Option::Some(b), m)),
                        Err(e) => Err(e),
                    }
                }
            },
            Err(e) => Err(e),
        }
    }
}

/// Round trip for nullable byte strings in both encodings.
pub proof fn lemma_nullable_bytes_round_trip(v: Option<Seq<u8>>, tail: Seq<u8>, flexible: bool)
    requires
        nullable_bytes_fits(v, flexible),
    ensures
        parse_nullable_bytes(nullable_bytes_wire(v, flexible) + tail, flexible) == Ok::<
            (Option<Seq<u8>>, int),
            Error,
        >((v, nullable_bytes_wire(v, flexible).len() as int)),
{
    match v {
        Option::None => {
            if flexible {
                let s = nullable_bytes_wire(v, true) + tail;
                assert(s =~= varint_bytes(0) + tail);
                lemma_len_compact_round_trip(0, tail);
            } else {
                let s = nullable_bytes_wire(v, false) + tail;
                assert(s.take(4) =~= be_bytes_32(0xffffffff));
                lemma_be_32_round_trip(0xffffffff);
            }
        },
        Option::Some(b) => {
            let l = b.len();
            if flexible {
                let pre = varint_bytes(l + 1);
                let s = nullable_bytes_wire(v, true) + tail;
                assert(s =~= pre + (b + tail));
                lemma_len_compact_round_trip(l + 1, b + tail);
                let n = pre.len() as int;
                assert(s.subrange(n, n + l as int) =~= b);
                assert(s.len() - n >= l);
            } else {
                let s = nullable_bytes_wire(v, false) + tail;
                let pre = be_bytes_32(l as u32);
                assert(s =~= pre + (b + tail));
                assert(s.take(4) =~= pre);
                lemma_be_32_round_trip(l as u32);
                assert(s.subrange(4, 4 + l as int) =~= b);
            }
        },
    }
}

/// The absent sentinel never collides with empty-but-present bytes.
pub proof fn lemma_nullable_bytes_sentinel_distinct(flexible: bool, tail: Seq<u8>)
    ensures
        parse_nullable_bytes(nullable_bytes_wire(Option::None, flexible) + tail, flexible) == Ok::<
            (Option<Seq<u8>>, int),
            Error,
        >((Option::None, nullable_bytes_wire(Option::None, flexible).len() as int)),
        parse_nullable_bytes(
            nullable_bytes_wire(Option::Some(Seq::<u8>::empty()), flexible) + tail,
            flexible,
        ) == Ok::<(Option<Seq<u8>>, int), Error>(
            (
                Option::Some(Seq::<u8>::empty()),
                nullable_bytes_wire(Option::Some(Seq::<u8>::empty()), flexible).len() as int,
            ),
        ),
        nullable_bytes_wire(Option::None, flexible) != nullable_bytes_wire(
            Option::Some(Seq::<u8>::empty()),
            flexible,
        ),
{
    let empty = Seq::<u8>::empty();
    lemma_nullable_bytes_round_trip(Option::None, tail, flexible);
    lemma_nullable_bytes_round_trip(Option::Some(empty), tail, flexible);
    if flexible {
        assert(nullable_bytes_wire(Option::None, true) =~= seq![0u8]);
        assert(nullable_bytes_wire(Option::Some(empty), true) =~= seq![1u8]);
    } else {
        lemma_be_32_round_trip(0xffffffff);
        lemma_be_32_round_trip(0);
        assert(nullable_bytes_wire(Option::Some(empty), false) =~= be_bytes_32(0));
        assert(be_val_32(be_bytes_32(0xffffffff)) != be_val_32(be_bytes_32(0)));
    }
}

// ===== Array headers =====

/// Wire form of an array header.  The legacy encoding writes a length of
/// -1 for an empty array, collapsing the null and empty states into one;
/// the compact encoding writes 0 for empty and the count plus one
/// otherwise.
pub open spec fn array_hdr_wire(count: nat, flexible: bool) -> Seq<u8> {
    if flexible {
        if count == 0 {
            seq![0u8]
        } else {
            varint_bytes(count + 1)
        }
    } else {
        if count == 0 {
            be_bytes_32(0xffffffff)
        } else {
            be_bytes_32(count as u32)
        }
    }
}

/// Whether an array count fits its header.
pub open spec fn array_hdr_fits(count: nat, flexible: bool) -> bool {
    if flexible {
        count + 1 <= 0xffffffff
    } else {
        count <= 0x7fffffff
    }
}

/// Parse an array header in either encoding.  A legacy length of -1 and a
/// compact length of 0 both decode to zero elements.
pub open spec fn parse_array_hdr(s: Seq<u8>, flexible: bool) -> Result<(int, int), Error> {
    if flexible {
        match parse_len_compact(s) {
            Ok((k, n)) => {
                if k == 0 {
                    Ok((0, n))
                } else {
                    Ok((k - 1, n))
                }
            },
            Err(e) => Err(e),
        }
    } else {
        match parse_u32(s) {
            Ok((u, n)) => {
                if u == 0xffffffff {
                    Ok((0, n))
                } else if u >= 0x80000000 {
                    Err(Error::BoundsCheck)
                } else {
                    Ok((u as int, n))
                }
            },
            Err(e) => Err(e),
        }
    }
}

/// Round trip for array headers in both encodings.
pub proof fn lemma_array_hdr_round_trip(count: nat, tail: Seq<u8>, flexible: bool)
    requires
        array_hdr_fits(count, flexible),
    ensures
        parse_array_hdr(array_hdr_wire(count, flexible) + tail, flexible) == Ok::<
            (int, int),
            Error,
        >((count as int, array_hdr_wire(count, flexible).len() as int)),
{
    if flexible {
        if count == 0 {
            let s = array_hdr_wire(count, true) + tail;
            assert(s =~= varint_bytes(0) + tail);
            lemma_len_compact_round_trip(0, tail);
        } else {
            lemma_len_compact_round_trip(count + 1, tail);
        }
    } else {
        if count == 0 {
            let s = array_hdr_wire(count, false) + tail;
            assert(s.take(4) =~= be_bytes_32(0xffffffff));
            lemma_be_32_round_trip(0xffffffff);
        } else {
            let s = array_hdr_wire(count, false) + tail;
            assert(s.take(4) =~= be_bytes_32(count as u32));
            lemma_be_32_round_trip(count as u32);
        }
    }
}

// ===== Round trips for the signed fixed-width types =====

/// Round trip for booleans: one byte, nonzero meaning true.
pub proof fn lemma_bool_round_trip(v: bool, tail: Seq<u8>)
    ensures
        parse_u8(seq![if v { 1u8 } else { 0u8 }] + tail) matches Ok(p) && (p.0 != 0) == v && p.1
            == 1,
{
}

/// Round trip for signed 8-bit values.
pub proof fn lemma_int8_round_trip(v: i8, tail: Seq<u8>)
    ensures
        parse_u8(seq![v as u8] + tail) matches Ok(p) && p.0 as i8 == v && p.1 == 1,
{
    assert((v as u8) as i8 == v) by (bit_vector);
}

/// Round trip for signed 16-bit values.
pub proof fn lemma_int16_round_trip(v: i16, tail: Seq<u8>)
    ensures
        parse_u16(be_bytes_16(v as u16) + tail) matches Ok(p) && p.0 as i16 == v && p.1 == 2,
{
    let s = be_bytes_16(v as u16) + tail;
    assert(s.take(2) =~= be_bytes_16(v as u16));
    lemma_be_16_round_trip(v as u16);
    assert((v as u16) as i16 == v) by (bit_vector);
}

/// Round trip for signed 32-bit values.
pub proof fn lemma_int32_round_trip(v: i32, tail: Seq<u8>)
    ensures
        parse_u32(be_bytes_32(v as u32) + tail) matches Ok(p) && p.0 as i32 == v && p.1 == 4,
{
    let s = be_bytes_32(v as u32) + tail;
    assert(s.take(4) =~= be_bytes_32(v as u32));
    lemma_be_32_round_trip(v as u32);
    assert((v as u32) as i32 == v) by (bit_vector);
}

/// Round trip for signed 64-bit values.
pub proof fn lemma_int64_round_trip(v: i64, tail: Seq<u8>)
    ensures
        parse_u64(be_bytes_64(v as u64) + tail) matches Ok(p) && p.0 as i64 == v && p.1 == 8,
{
    let s = be_bytes_64(v as u64) + tail;
    assert(s.take(8) =~= be_bytes_64(v as u64));
    lemma_be_64_round_trip(v as u64);
    assert((v as u64) as i64 == v) by (bit_vector);
}

/// Round trip for unsigned 32-bit values.
pub proof fn lemma_uint32_round_trip(v: u32, tail: Seq<u8>)
    ensures
        parse_u32(be_bytes_32(v) + tail) matches Ok(p) && p.0 == v && p.1 == 4,
{
    let s = be_bytes_32(v) + tail;
    assert(s.take(4) =~= be_bytes_32(v));
    lemma_be_32_round_trip(v);
}

// ===== Varint edge values =====

/// The edge values of the signed 32-bit varint round-trip with the
/// documented byte counts: one byte for 0 and -1, five bytes for the
/// extremes.
pub proof fn lemma_varint_32_edge_values(tail: Seq<u8>)
    ensures
        varint_wire_32(0i32).len() == 1,
        varint_wire_32(-1i32).len() == 1,
        varint_wire_32(i32::MIN).len() == 5,
        varint_wire_32(i32::MAX).len() == 5,
        parse_varint_32(varint_wire_32(0i32) + tail) == Ok::<(i32, int), Error>((0i32, 1)),
        parse_varint_32(varint_wire_32(-1i32) + tail) == Ok::<(i32, int), Error>((-1i32, 1)),
        parse_varint_32(varint_wire_32(i32::MIN) + tail) == Ok::<(i32, int), Error>(
            (i32::MIN, 5),
        ),
        parse_varint_32(varint_wire_32(i32::MAX) + tail) == Ok::<(i32, int), Error>(
            (i32::MAX, 5),
        ),
{
    assert(zigzag_32(0i32) == 0);
    assert(zigzag_32(-1i32) == 1);
    assert(zigzag_32(i32::MIN) == 0xffffffff);
    assert(zigzag_32(i32::MAX) == 0xfffffffe);
    lemma_varint_bytes_len(0);
    lemma_varint_bytes_len(1);
    lemma_varint_bytes_len(0xffffffff);
    lemma_varint_bytes_len(0xfffffffe);
    lemma_varint_32_round_trip(0i32, tail);
    lemma_varint_32_round_trip(-1i32, tail);
    lemma_varint_32_round_trip(i32::MIN, tail);
    lemma_varint_32_round_trip(i32::MAX, tail);
}

/// The edge values of the signed 64-bit varint round-trip with the
/// documented byte counts: one byte for 0 and -1, ten bytes for the
/// extremes.
pub proof fn lemma_varint_64_edge_values(tail: Seq<u8>)
    ensures
        varint_wire_64(0i64).len() == 1,
        varint_wire_64(-1i64).len() == 1,
        varint_wire_64(i64::MIN).len() == 10,
        varint_wire_64(i64::MAX).len() == 10,
        parse_varint_64(varint_wire_64(0i64) + tail) == Ok::<(i64, int), Error>((0i64, 1)),
        parse_varint_64(varint_wire_64(-1i64) + tail) == Ok::<(i64, int), Error>((-1i64, 1)),
        parse_varint_64(varint_wire_64(i64::MIN) + tail) == Ok::<(i64, int), Error>(
            (i64::MIN, 10),
        ),
        parse_varint_64(varint_wire_64(i64::MAX) + tail) == Ok::<(i64, int), Error>(
            (i64::MAX, 10),
        ),
{
    assert(zigzag_64(0i64) == 0);
    assert(zigzag_64(-1i64) == 1);
    assert(zigzag_64(i64::MIN) == 0xffffffffffffffff);
    assert(zigzag_64(i64::MAX) == 0xfffffffffffffffe);
    lemma_varint_bytes_len(0);
    lemma_varint_bytes_len(1);
    lemma_varint_bytes_len(0xffffffffffffffff);
    lemma_varint_bytes_len(0xfffffffffffffffe);
    lemma_varint_64_round_trip(0i64, tail);
    lemma_varint_64_round_trip(-1i64, tail);
    lemma_varint_64_round_trip(i64::MIN, tail);
    lemma_varint_64_round_trip(i64::MAX, tail);
}

// ===== Malformed varints =====

/// A 32-bit varint whose first five bytes all carry the continuation bit
/// is rejected as malformed.
pub proof fn lemma_varint_32_malformed(s: Seq<u8>)
    requires
        s.len() >= 5,
        forall|j: int| 0 <= j < 5 ==> s[j] >= 0x80,
    ensures
        parse_varint_32(s) == Err::<(i32, int), Error>(Error::IncorrectVarint),
{
    lemma_varint_all_continuation(s, 5);
}

/// A 64-bit varint whose first ten bytes all carry the continuation bit
/// is rejected as malformed.
pub proof fn lemma_varint_64_malformed(s: Seq<u8>)
    requires
        s.len() >= 10,
        forall|j: int| 0 <= j < 10 ==> s[j] >= 0x80,
    ensures
        parse_varint_64(s) == Err::<(i64, int), Error>(Error::IncorrectVarint),
{
    lemma_varint_all_continuation(s, 10);
}

// ===== Offset bounds =====
//
// Every parser that succeeds consumed at least one byte and no more than
// it was given.  The lemmas are broadcast so that reasoning about the
// cursor after a read needs no explicit calls.

/// Bounds for [`parse_u8`].
pub broadcast proof fn lemma_parse_u8_bounds(s: Seq<u8>)
    ensures
        (#[trigger] parse_u8(s)) matches Ok(p) ==> 0 < p.1 <= s.len(),
{
}

/// Bounds for [`parse_u16`].
pub broadcast proof fn lemma_parse_u16_bounds(s: Seq<u8>)
    ensures
        (#[trigger] parse_u16(s)) matches Ok(p) ==> 0 < p.1 <= s.len(),
{
}

/// Bounds for [`parse_u32`].
pub broadcast proof fn lemma_parse_u32_bounds(s: Seq<u8>)
    ensures
        (#[trigger] parse_u32(s)) matches Ok(p) ==> 0 < p.1 <= s.len(),
{
}

/// Bounds for [`parse_u64`].
pub broadcast proof fn lemma_parse_u64_bounds(s: Seq<u8>)
    ensures
        (#[trigger] parse_u64(s)) matches Ok(p) ==> 0 < p.1 <= s.len(),
{
}

/// Bounds for [`parse_uuid`].
pub broadcast proof fn lemma_parse_uuid_bounds(s: Seq<u8>)
    ensures
        (#[trigger] parse_uuid(s)) matches Ok(p) ==> 0 < p.1 <= s.len(),
{
}

/// Bounds for [`parse_len_compact`]: the length itself is non-negative.
pub broadcast proof fn lemma_parse_len_compact_bounds(s: Seq<u8>)
    ensures
        (#[trigger] parse_len_compact(s)) matches Ok(p) ==> 0 < p.1 <= s.len() && 0 <= p.0,
{
    lemma_parse_varint_groups_bound(s, 5);
}

/// Bounds for [`parse_varint_32`].
pub broadcast proof fn lemma_parse_varint_32_bounds(s: Seq<u8>)
    ensures
        (#[trigger] parse_varint_32(s)) matches Ok(p) ==> 0 < p.1 <= s.len(),
{
    lemma_parse_varint_groups_bound(s, 5);
}

/// Bounds for [`parse_varint_64`].
pub broadcast proof fn lemma_parse_varint_64_bounds(s: Seq<u8>)
    ensures
        (#[trigger] parse_varint_64(s)) matches Ok(p) ==> 0 < p.1 <= s.len(),
{
    lemma_parse_varint_groups_bound(s, 10);
}

/// Bounds for [`parse_string`].
pub broadcast proof fn lemma_parse_string_bounds(s: Seq<u8>, flexible: bool)
    ensures
        (#[trigger] parse_string(s, flexible)) matches Ok(p) ==> 0 < p.1 <= s.len(),
{
    lemma_parse_len_compact_bounds(s);
}

/// Bounds for [`parse_nullable_string`].
pub broadcast proof fn lemma_parse_nullable_string_bounds(s: Seq<u8>, flexible: bool)
    ensures
        (#[trigger] parse_nullable_string(s, flexible)) matches Ok(p) ==> 0 < p.1 <= s.len(),
{
    lemma_parse_len_compact_bounds(s);
}

/// Bounds for [`parse_bytes`].
pub broadcast proof fn lemma_parse_bytes_bounds(s: Seq<u8>, flexible: bool)
    ensures
        (#[trigger] parse_bytes(s, flexible)) matches Ok(p) ==> 0 < p.1 <= s.len(),
{
    lemma_parse_len_compact_bounds(s);
}

/// Bounds for [`parse_nullable_bytes`].
pub broadcast proof fn lemma_parse_nullable_bytes_bounds(s: Seq<u8>, flexible: bool)
    ensures
        (#[trigger] parse_nullable_bytes(s, flexible)) matches Ok(p) ==> 0 < p.1 <= s.len(),
{
    lemma_parse_len_compact_bounds(s);
}

/// Bounds for [`parse_array_hdr`]: the count itself is non-negative.
pub broadcast proof fn lemma_parse_array_hdr_bounds(s: Seq<u8>, flexible: bool)
    ensures
        (#[trigger] parse_array_hdr(s, flexible)) matches Ok(p) ==> 0 < p.1 <= s.len() && 0
            <= p.0,
{
    lemma_parse_len_compact_bounds(s);
}

/// Every parser consumes at least one byte and at most what it was given.
pub broadcast group group_parse_bounds {
    lemma_parse_u8_bounds,
    lemma_parse_u16_bounds,
    lemma_parse_u32_bounds,
    lemma_parse_u64_bounds,
    lemma_parse_uuid_bounds,
    lemma_parse_len_compact_bounds,
    lemma_parse_varint_32_bounds,
    lemma_parse_varint_64_bounds,
    lemma_parse_string_bounds,
    lemma_parse_nullable_string_bounds,
    lemma_parse_bytes_bounds,
    lemma_parse_nullable_bytes_bounds,
    lemma_parse_array_hdr_bounds,
}

// ===== UUIDs =====

/// Wire form of a UUID: sixteen bytes, the most significant half first,
/// each half big-endian.
pub open spec fn uuid_wire(msb: u64, lsb: u64) -> Seq<u8> {
    be_bytes_64(msb) + be_bytes_64(lsb)
}

/// Parse a UUID.
pub open spec fn parse_uuid(s: Seq<u8>) -> Result<((u64, u64), int), Error> {
    if s.len() < 16 {
        Err(Error::OutOfBounds)
    } else {
        Ok(((be_val_64(s.take(8)), be_val_64(s.subrange(8, 16))), 16))
    }
}

/// Round trip for UUIDs.
pub proof fn lemma_uuid_round_trip(msb: u64, lsb: u64, tail: Seq<u8>)
    ensures
        parse_uuid(uuid_wire(msb, lsb) + tail) == Ok::<((u64, u64), int), Error>(
            ((msb, lsb), 16),
        ),
        uuid_wire(msb, lsb).len() == 16,
{
    let s = uuid_wire(msb, lsb) + tail;
    assert(s.take(8) =~= be_bytes_64(msb));
    assert(s.subrange(8, 16) =~= be_bytes_64(lsb));
    lemma_be_64_round_trip(msb);
    lemma_be_64_round_trip(lsb);
}

} // verus!
