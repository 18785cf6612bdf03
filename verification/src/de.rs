//! Decoding: a cursor over a borrowed byte buffer.

use vstd::prelude::*;

use crate::error::Error;
use crate::wire::{
    lemma_parse_varint_groups_bound, parse_array_hdr, parse_bytes, parse_bytes_payload,
    parse_nullable_bytes, parse_nullable_string, parse_string, parse_string_payload, parse_u16,
    parse_u32, parse_u64, parse_u8, parse_uuid, parse_varint_32, parse_varint_64,
    parse_varint_groups,
};

use crate::KafkaUuid;

mod varint;

pub use varint::{decode_varint64, decode_zig_zag_32, decode_zig_zag_64};

verus! {

/// Sequential, non-backtracking reader over a borrowed buffer.
///
/// Every read either succeeds and advances the cursor by exactly the bytes
/// the value occupied, or fails and leaves the reader untouched.
pub struct KafkaDeserializer<'a> {
    buf: &'a [u8],
    i: usize,
}

impl<'a> KafkaDeserializer<'a> {
    /// The whole input buffer.
    pub closed spec fn data(&self) -> Seq<u8> {
        self.buf@
    }

    /// The read cursor.
    pub closed spec fn pos(&self) -> int {
        self.i as int
    }

    /// The cursor never passes the end of the buffer.
    pub open spec fn wf(&self) -> bool {
        0 <= self.pos() <= self.data().len()
    }

    /// The bytes not yet consumed.
    pub open spec fn rest(&self) -> Seq<u8> {
        self.data().skip(self.pos())
    }

    /// Start reading `buf` from its beginning.
    pub fn new(buf: &'a [u8]) -> (r: KafkaDeserializer<'a>)
        ensures
            r.wf(),
            r.data() == buf@,
            r.pos() == 0,
    {
        KafkaDeserializer { buf, i: 0 }
    }

    /// Read one byte.
    fn read_raw_u8(&mut self) -> (r: Result<u8, Error>)
        requires
            old(self).wf(),
        ensures
            final(self).wf(),
            final(self).data() == old(self).data(),
            match parse_u8(old(self).rest()) {
                Ok((u, n)) => r matches Ok(v) && v == u && final(self).pos() == old(self).pos()
                    + n,
                Err(e) => r matches Err(e2) && e2 == e && final(self).pos() == old(self).pos(),
            },
    {
        if self.buf.len() - self.i < 1 {
            return Err(Error::OutOfBounds);
        }
        let b = self.buf[self.i];
        assert(old(self).rest()[0] == b);
        self.i = self.i + 1;
        Ok(b)
    }

    /// Read a big-endian 16-bit value.
    fn read_raw_u16(&mut self) -> (r: Result<u16, Error>)
        requires
            old(self).wf(),
        ensures
            final(self).wf(),
            final(self).data() == old(self).data(),
            match parse_u16(old(self).rest()) {
                Ok((u, n)) => r matches Ok(v) && v == u && final(self).pos() == old(self).pos()
                    + n,
                Err(e) => r matches Err(e2) && e2 == e && final(self).pos() == old(self).pos(),
            },
    {
        if self.buf.len() - self.i < 2 {
            return Err(Error::OutOfBounds);
        }
        let b0 = self.buf[self.i];
        let b1 = self.buf[self.i + 1];
        let v = ((b0 as u16) << 8) | (b1 as u16);
        assert(old(self).rest().take(2) =~= seq![b0, b1]);
        self.i = self.i + 2;
        Ok(v)
    }

    /// Read a big-endian 32-bit value.
    fn read_raw_u32(&mut self) -> (r: Result<u32, Error>)
        requires
            old(self).wf(),
        ensures
            final(self).wf(),
            final(self).data() == old(self).data(),
            match parse_u32(old(self).rest()) {
                Ok((u, n)) => r matches Ok(v) && v == u && final(self).pos() == old(self).pos()
                    + n,
                Err(e) => r matches Err(e2) && e2 == e && final(self).pos() == old(self).pos(),
            },
    {
        if self.buf.len() - self.i < 4 {
            return Err(Error::OutOfBounds);
        }
        let b0 = self.buf[self.i];
        let b1 = self.buf[self.i + 1];
        let b2 = self.buf[self.i + 2];
        let b3 = self.buf[self.i + 3];
        let v = ((b0 as u32) << 24) | ((b1 as u32) << 16) | ((b2 as u32) << 8) | (b3 as u32);
        assert(old(self).rest().take(4) =~= seq![b0, b1, b2, b3]);
        self.i = self.i + 4;
        Ok(v)
    }

    /// Read a big-endian 64-bit value.
    fn read_raw_u64(&mut self) -> (r: Result<u64, Error>)
        requires
            old(self).wf(),
        ensures
            final(self).wf(),
            final(self).data() == old(self).data(),
            match parse_u64(old(self).rest()) {
                Ok((u, n)) => r matches Ok(v) && v == u && final(self).pos() == old(self).pos()
                    + n,
                Err(e) => r matches Err(e2) && e2 == e && final(self).pos() == old(self).pos(),
            },
    {
        if self.buf.len() - self.i < 8 {
            return Err(Error::OutOfBounds);
        }
        let b0 = self.buf[self.i];
        let b1 = self.buf[self.i + 1];
        let b2 = self.buf[self.i + 2];
        let b3 = self.buf[self.i + 3];
        let b4 = self.buf[self.i + 4];
        let b5 = self.buf[self.i + 5];
        let b6 = self.buf[self.i + 6];
        let b7 = self.buf[self.i + 7];
        let v = ((b0 as u64) << 56) | ((b1 as u64) << 48) | ((b2 as u64) << 40) | ((b3 as u64)
            << 32) | ((b4 as u64) << 24) | ((b5 as u64) << 16) | ((b6 as u64) << 8) | (b7 as u64);
        assert(old(self).rest().take(8) =~= seq![b0, b1, b2, b3, b4, b5, b6, b7]);
        self.i = self.i + 8;
        Ok(v)
    }

    /// Read a boolean: one byte, zero for false, anything else for true.
    pub fn read_bool(&mut self) -> (r: Result<bool, Error>)
        requires
            old(self).wf(),
        ensures
            final(self).wf(),
            final(self).data() == old(self).data(),
            match parse_u8(old(self).rest()) {
                Ok((u, n)) => r matches Ok(v) && v == (u != 0) && final(self).pos() == old(self).pos() + n,
                Err(e) => r matches Err(e2) && e2 == e && final(self).pos() == old(self).pos(),
            },
    {
        match self.read_raw_u8() {
            Ok(b) => Ok(b != 0),
            Err(e) => Err(e),
        }
    }

    /// Read a signed 8-bit value.
    pub fn read_int8(&mut self) -> (r: Result<i8, Error>)
        requires
            old(self).wf(),
        ensures
            final(self).wf(),
            final(self).data() == old(self).data(),
            match parse_u8(old(self).rest()) {
                Ok((u, n)) => r matches Ok(v) && v == u as i8 && final(self).pos() == old(self).pos() + n,
                Err(e) => r matches Err(e2) && e2 == e && final(self).pos() == old(self).pos(),
            },
    {
        match self.read_raw_u8() {
            Ok(b) => Ok(
                #[verifier::truncate]
                (b as i8),
            ),
            Err(e) => Err(e),
        }
    }

    /// Read a big-endian signed 16-bit value.
    pub fn read_int16(&mut self) -> (r: Result<i16, Error>)
        requires
            old(self).wf(),
        ensures
            final(self).wf(),
            final(self).data() == old(self).data(),
            match parse_u16(old(self).rest()) {
                Ok((u, n)) => r matches Ok(v) && v == u as i16 && final(self).pos() == old(self).pos() + n,
                Err(e) => r matches Err(e2) && e2 == e && final(self).pos() == old(self).pos(),
            },
    {
        match self.read_raw_u16() {
            Ok(v) => Ok(
                #[verifier::truncate]
                (v as i16),
            ),
            Err(e) => Err(e),
        }
    }

    /// Read a big-endian signed 32-bit value.
    pub fn read_int32(&mut self) -> (r: Result<i32, Error>)
        requires
            old(self).wf(),
        ensures
            final(self).wf(),
            final(self).data() == old(self).data(),
            match parse_u32(old(self).rest()) {
                Ok((u, n)) => r matches Ok(v) && v == u as i32 && final(self).pos() == old(self).pos() + n,
                Err(e) => r matches Err(e2) && e2 == e && final(self).pos() == old(self).pos(),
            },
    {
        match self.read_raw_u32() {
            Ok(v) => Ok(
                #[verifier::truncate]
                (v as i32),
            ),
            Err(e) => Err(e),
        }
    }

    /// Read a big-endian signed 64-bit value.
    pub fn read_int64(&mut self) -> (r: Result<i64, Error>)
        requires
            old(self).wf(),
        ensures
            final(self).wf(),
            final(self).data() == old(self).data(),
            match parse_u64(old(self).rest()) {
                Ok((u, n)) => r matches Ok(v) && v == u as i64 && final(self).pos() == old(self).pos() + n,
                Err(e) => r matches Err(e2) && e2 == e && final(self).pos() == old(self).pos(),
            },
    {
        match self.read_raw_u64() {
            Ok(v) => Ok(
                #[verifier::truncate]
                (v as i64),
            ),
            Err(e) => Err(e),
        }
    }

    /// Read a big-endian unsigned 32-bit value.
    pub fn read_uint32(&mut self) -> (r: Result<u32, Error>)
        requires
            old(self).wf(),
        ensures
            final(self).wf(),
            final(self).data() == old(self).data(),
            match parse_u32(old(self).rest()) {
                Ok((u, n)) => r matches Ok(v) && v == u && final(self).pos() == old(self).pos()
                    + n,
                Err(e) => r matches Err(e2) && e2 == e && final(self).pos() == old(self).pos(),
            },
    {
        self.read_raw_u32()
    }

    /// Read the bit pattern of a big-endian 64-bit floating-point value.
    /// The caller reinterprets the bits; the codec itself never computes
    /// with them.
    pub fn read_float64_bits(&mut self) -> (r: Result<u64, Error>)
        requires
            old(self).wf(),
        ensures
            final(self).wf(),
            final(self).data() == old(self).data(),
            match parse_u64(old(self).rest()) {
                Ok((u, n)) => r matches Ok(v) && v == u && final(self).pos() == old(self).pos()
                    + n,
                Err(e) => r matches Err(e2) && e2 == e && final(self).pos() == old(self).pos(),
            },
    {
        self.read_raw_u64()
    }

    /// Read a UUID: sixteen bytes, most significant half first.
    pub fn read_uuid(&mut self) -> (r: Result<KafkaUuid, Error>)
        requires
            old(self).wf(),
        ensures
            final(self).wf(),
            final(self).data() == old(self).data(),
            match parse_uuid(old(self).rest()) {
                Ok(((msb, lsb), n)) => r matches Ok(u) && u.msb == msb && u.lsb == lsb && final(self).pos() == old(self).pos() + n,
                Err(e) => r matches Err(e2) && e2 == e && final(self).pos() == old(self).pos(),
            },
    {
        if self.buf.len() - self.i < 16 {
            return Err(Error::OutOfBounds);
        }
        let msb = match self.read_raw_u64() {
            Ok(v) => v,
            Err(e) => {
                return Err(e);
            },
        };
        let lsb = match self.read_raw_u64() {
            Ok(v) => v,
            Err(e) => {
                return Err(e);
            },
        };
        proof {
            let s = old(self).rest();
            assert(s.skip(8).take(8) =~= s.subrange(8, 16));
        }
        Ok(KafkaUuid { msb, lsb })
    }

    /// Read an unsigned varint of at most five groups, truncated to 32
    /// bits.
    pub fn read_varuint(&mut self) -> (r: Result<u32, Error>)
        requires
            old(self).wf(),
        ensures
            final(self).wf(),
            final(self).data() == old(self).data(),
            match parse_varint_groups(old(self).rest(), 5) {
                Ok((v, n)) => r matches Ok(w) && w as nat == v % 0x100000000 && 1 <= n <= 5
                    && final(self).pos() == old(self).pos() + n,
                Err(e) => r matches Err(e2) && e2 == e && final(self).pos() == old(self).pos(),
            },
    {
        match varint::decode_varint_prefix(self.buf, self.i, 5) {
            Ok((v, n)) => {
                proof {
                    let s = old(self).rest();
                    lemma_parse_varint_groups_bound(s, 5);
                    let vm = parse_varint_groups(s, 5)->Ok_0.0;
                    vstd::arithmetic::div_mod::lemma_small_mod(vm, 0x10000000000000000);
                    assert(v as u32 as u64 == v % 0x100000000) by (bit_vector)
                        requires
                            v < 0x800000000u64,
                    ;
                    assert(self.buf@.len() <= usize::MAX) by {
                        assert(vstd::slice::spec_slice_len(self.buf) == self.buf@.len());
                    }
                }
                self.i = self.i + n;
                Ok(#[verifier::truncate] (v as u32))
            },
            Err(e) => Err(e),
        }
    }

    /// Read an unsigned varint of at most ten groups, truncated to 64
    /// bits.
    pub fn read_varulong(&mut self) -> (r: Result<u64, Error>)
        requires
            old(self).wf(),
        ensures
            final(self).wf(),
            final(self).data() == old(self).data(),
            match parse_varint_groups(old(self).rest(), 10) {
                Ok((v, n)) => r matches Ok(w) && w as nat == v % 0x10000000000000000 && 1 <= n
                    <= 10 && final(self).pos() == old(self).pos() + n,
                Err(e) => r matches Err(e2) && e2 == e && final(self).pos() == old(self).pos(),
            },
    {
        match varint::decode_varint_prefix(self.buf, self.i, 10) {
            Ok((v, n)) => {
                proof {
                    lemma_parse_varint_groups_bound(old(self).rest(), 10);
                    assert(self.buf@.len() <= usize::MAX) by {
                        assert(vstd::slice::spec_slice_len(self.buf) == self.buf@.len());
                    }
                }
                self.i = self.i + n;
                Ok(v)
            },
            Err(e) => Err(e),
        }
    }

    /// Read a zig-zag signed 32-bit varint.
    pub fn read_varint(&mut self) -> (r: Result<i32, Error>)
        requires
            old(self).wf(),
        ensures
            final(self).wf(),
            final(self).data() == old(self).data(),
            match parse_varint_32(old(self).rest()) {
                Ok((v, n)) => r matches Ok(w) && w == v && final(self).pos() == old(self).pos()
                    + n,
                Err(e) => r matches Err(e2) && e2 == e && final(self).pos() == old(self).pos(),
            },
    {
        match self.read_varuint() {
            Ok(u) => Ok(varint::decode_zig_zag_32(u)),
            Err(e) => Err(e),
        }
    }

    /// Read a zig-zag signed 64-bit varint.
    pub fn read_varlong(&mut self) -> (r: Result<i64, Error>)
        requires
            old(self).wf(),
        ensures
            final(self).wf(),
            final(self).data() == old(self).data(),
            match parse_varint_64(old(self).rest()) {
                Ok((v, n)) => r matches Ok(w) && w == v && final(self).pos() == old(self).pos()
                    + n,
                Err(e) => r matches Err(e2) && e2 == e && final(self).pos() == old(self).pos(),
            },
    {
        match self.read_varulong() {
            Ok(u) => Ok(varint::decode_zig_zag_64(u)),
            Err(e) => Err(e),
        }
    }

    /// Read `len` payload bytes as UTF-8, rewinding to `start` on failure.
    fn read_string_payload(&mut self, start: usize, len: usize) -> (r: Result<String, Error>)
        requires
            old(self).wf(),
            start <= old(self).pos(),
        ensures
            final(self).wf(),
            final(self).data() == old(self).data(),
            match parse_string_payload(
                old(self).data().skip(start as int),
                old(self).pos() - start,
                len as int,
            ) {
                Ok((cs, n)) => r matches Ok(s) && s@ == cs && final(self).pos() == start + n,
                Err(e) => r matches Err(e2) && e2 == e && final(self).pos() == start,
            },
    {
        let ghost s = old(self).data().skip(start as int);
        let ghost n = old(self).pos() - start;
        if self.buf.len() - self.i < len {
            self.i = start;
            return Err(Error::OutOfBounds);
        }
        let sl = vstd::slice::slice_subrange(self.buf, self.i, self.i + len);
        proof {
            assert(sl@ =~= s.subrange(n, n + len as int));
        }
        match try_str_from_utf8(sl) {
            Some(st) => {
                let owned = st.to_owned();
                self.i = self.i + len;
                Ok(owned)
            },
            None => {
                self.i = start;
                Err(Error::UTF8Error)
            },
        }
    }

    /// Read `len` payload bytes, rewinding to `start` on failure.
    fn read_bytes_payload(&mut self, start: usize, len: usize) -> (r: Result<Vec<u8>, Error>)
        requires
            old(self).wf(),
            start <= old(self).pos(),
        ensures
            final(self).wf(),
            final(self).data() == old(self).data(),
            match parse_bytes_payload(
                old(self).data().skip(start as int),
                old(self).pos() - start,
                len as int,
            ) {
                Ok((b, n)) => r matches Ok(v) && v@ == b && final(self).pos() == start + n,
                Err(e) => r matches Err(e2) && e2 == e && final(self).pos() == start,
            },
    {
        let ghost s = old(self).data().skip(start as int);
        let ghost n = old(self).pos() - start;
        if self.buf.len() - self.i < len {
            self.i = start;
            return Err(Error::OutOfBounds);
        }
        let sl = vstd::slice::slice_subrange(self.buf, self.i, self.i + len);
        proof {
            assert(sl@ =~= s.subrange(n, n + len as int));
        }
        let owned = vstd::slice::slice_to_vec(sl);
        self.i = self.i + len;
        Ok(owned)
    }

    /// Read a legacy string: a two-byte signed length, then that many
    /// UTF-8 bytes.
    pub fn read_string(&mut self) -> (r: Result<String, Error>)
        requires
            old(self).wf(),
        ensures
            final(self).wf(),
            final(self).data() == old(self).data(),
            match parse_string(old(self).rest(), false) {
                Ok((cs, n)) => r matches Ok(s) && s@ == cs && final(self).pos() == old(self).pos()
                    + n,
                Err(e) => r matches Err(e2) && e2 == e && final(self).pos() == old(self).pos(),
            },
    {
        let start = self.i;
        let len16 = match self.read_raw_u16() {
            Ok(v) => v,
            Err(e) => {
                return Err(e);
            },
        };
        if len16 >= 0x8000 {
            self.i = start;
            return Err(Error::BoundsCheck);
        }
        self.read_string_payload(start, len16 as usize)
    }

    /// Read a compact string: a varint length, then that many UTF-8
    /// bytes.
    pub fn read_compact_string(&mut self) -> (r: Result<String, Error>)
        requires
            old(self).wf(),
        ensures
            final(self).wf(),
            final(self).data() == old(self).data(),
            match parse_string(old(self).rest(), true) {
                Ok((cs, n)) => r matches Ok(s) && s@ == cs && final(self).pos() == old(self).pos()
                    + n,
                Err(e) => r matches Err(e2) && e2 == e && final(self).pos() == old(self).pos(),
            },
    {
        let start = self.i;
        let lv = match self.read_varuint() {
            Ok(v) => v,
            Err(e) => {
                return Err(e);
            },
        };
        self.read_string_payload(start, lv as usize)
    }

    /// Read a legacy nullable string: a length of -1 denotes an absent
    /// value; any non-negative length denotes a present value, including
    /// a present-but-empty one.
    pub fn read_nullable_string(&mut self) -> (r: Result<Option<String>, Error>)
        requires
            old(self).wf(),
        ensures
            final(self).wf(),
            final(self).data() == old(self).data(),
            match parse_nullable_string(old(self).rest(), false) {
                Ok((cs, n)) => r matches Ok(s) && option_str_view(s) == cs && final(self).pos() == old(self).pos() + n,
                Err(e) => r matches Err(e2) && e2 == e && final(self).pos() == old(self).pos(),
            },
    {
        let start = self.i;
        let len16 = match self.read_raw_u16() {
            Ok(v) => v,
            Err(e) => {
                return Err(e);
            },
        };
        if len16 == 0xffff {
            return Ok(None);
        }
        if len16 >= 0x8000 {
            self.i = start;
            return Err(Error::BoundsCheck);
        }
        match self.read_string_payload(start, len16 as usize) {
            Ok(s) => Ok(Some(s)),
            Err(e) => Err(e),
        }
    }

    /// Read a compact nullable string: a varint of 0 denotes an absent
    /// value; a varint of k > 0 denotes a present value of k - 1 bytes.
    pub fn read_compact_nullable_string(&mut self) -> (r: Result<Option<String>, Error>)
        requires
            old(self).wf(),
        ensures
            final(self).wf(),
            final(self).data() == old(self).data(),
            match parse_nullable_string(old(self).rest(), true) {
                Ok((cs, n)) => r matches Ok(s) && option_str_view(s) == cs && final(self).pos() == old(self).pos() + n,
                Err(e) => r matches Err(e2) && e2 == e && final(self).pos() == old(self).pos(),
            },
    {
        let start = self.i;
        let lv = match self.read_varuint() {
            Ok(v) => v,
            Err(e) => {
                return Err(e);
            },
        };
        if lv == 0 {
            return Ok(None);
        }
        match self.read_string_payload(start, (lv - 1) as usize) {
            Ok(s) => Ok(Some(s)),
            Err(e) => Err(e),
        }
    }

    /// Read legacy bytes: a four-byte signed length, then that many raw
    /// bytes.
    pub fn read_bytes(&mut self) -> (r: Result<Vec<u8>, Error>)
        requires
            old(self).wf(),
        ensures
            final(self).wf(),
            final(self).data() == old(self).data(),
            match parse_bytes(old(self).rest(), false) {
                Ok((b, n)) => r matches Ok(v) && v@ == b && final(self).pos() == old(self).pos()
                    + n,
                Err(e) => r matches Err(e2) && e2 == e && final(self).pos() == old(self).pos(),
            },
    {
        let start = self.i;
        let len32 = match self.read_raw_u32() {
            Ok(v) => v,
            Err(e) => {
                return Err(e);
            },
        };
        if len32 >= 0x80000000 {
            self.i = start;
            return Err(Error::BoundsCheck);
        }
        self.read_bytes_payload(start, len32 as usize)
    }

    /// Read compact bytes: a varint length, then that many raw bytes.
    pub fn read_compact_bytes(&mut self) -> (r: Result<Vec<u8>, Error>)
        requires
            old(self).wf(),
        ensures
            final(self).wf(),
            final(self).data() == old(self).data(),
            match parse_bytes(old(self).rest(), true) {
                Ok((b, n)) => r matches Ok(v) && v@ == b && final(self).pos() == old(self).pos()
                    + n,
                Err(e) => r matches Err(e2) && e2 == e && final(self).pos() == old(self).pos(),
            },
    {
        let start = self.i;
        let lv = match self.read_varuint() {
            Ok(v) => v,
            Err(e) => {
                return Err(e);
            },
        };
        self.read_bytes_payload(start, lv as usize)
    }

    /// Read legacy nullable bytes, with a length of -1 for an absent
    /// value.
    pub fn read_nullable_bytes(&mut self) -> (r: Result<Option<Vec<u8>>, Error>)
        requires
            old(self).wf(),
        ensures
            final(self).wf(),
            final(self).data() == old(self).data(),
            match parse_nullable_bytes(old(self).rest(), false) {
                Ok((b, n)) => r matches Ok(v) && option_bytes_view(v) == b && final(self).pos() == old(self).pos() + n,
                Err(e) => r matches Err(e2) && e2 == e && final(self).pos() == old(self).pos(),
            },
    {
        let start = self.i;
        let len32 = match self.read_raw_u32() {
            Ok(v) => v,
            Err(e) => {
                return Err(e);
            },
        };
        if len32 == 0xffffffff {
            return Ok(None);
        }
        if len32 >= 0x80000000 {
            self.i = start;
            return Err(Error::BoundsCheck);
        }
        match self.read_bytes_payload(start, len32 as usize) {
            Ok(v) => Ok(Some(v)),
            Err(e) => Err(e),
        }
    }

    /// Read compact nullable bytes: a varint of 0 for an absent value and
    /// k > 0 for k - 1 present bytes.
    pub fn read_compact_nullable_bytes(&mut self) -> (r: Result<Option<Vec<u8>>, Error>)
        requires
            old(self).wf(),
        ensures
            final(self).wf(),
            final(self).data() == old(self).data(),
            match parse_nullable_bytes(old(self).rest(), true) {
                Ok((b, n)) => r matches Ok(v) && option_bytes_view(v) == b && final(self).pos() == old(self).pos() + n,
                Err(e) => r matches Err(e2) && e2 == e && final(self).pos() == old(self).pos(),
            },
    {
        let start = self.i;
        let lv = match self.read_varuint() {
            Ok(v) => v,
            Err(e) => {
                return Err(e);
            },
        };
        if lv == 0 {
            return Ok(None);
        }
        match self.read_bytes_payload(start, (lv - 1) as usize) {
            Ok(v) => Ok(Some(v)),
            Err(e) => Err(e),
        }
    }

    /// Read a legacy array header.  A length of -1 decodes to zero
    /// elements, collapsing the null and empty array states.
    pub fn read_array_hdr(&mut self) -> (r: Result<usize, Error>)
        requires
            old(self).wf(),
        ensures
            final(self).wf(),
            final(self).data() == old(self).data(),
            match parse_array_hdr(old(self).rest(), false) {
                Ok((c, n)) => r matches Ok(v) && v == c && final(self).pos() == old(self).pos()
                    + n,
                Err(e) => r matches Err(e2) && e2 == e && final(self).pos() == old(self).pos(),
            },
    {
        let start = self.i;
        let len32 = match self.read_raw_u32() {
            Ok(v) => v,
            Err(e) => {
                return Err(e);
            },
        };
        if len32 == 0xffffffff {
            return Ok(0);
        }
        if len32 >= 0x80000000 {
            self.i = start;
            return Err(Error::BoundsCheck);
        }
        Ok(len32 as usize)
    }

    /// Read a compact array header: a varint of 0 decodes to zero
    /// elements, and k > 0 to k - 1 elements.
    pub fn read_compact_array_hdr(&mut self) -> (r: Result<usize, Error>)
        requires
            old(self).wf(),
        ensures
            final(self).wf(),
            final(self).data() == old(self).data(),
            match parse_array_hdr(old(self).rest(), true) {
                Ok((c, n)) => r matches Ok(v) && v == c && final(self).pos() == old(self).pos()
                    + n,
                Err(e) => r matches Err(e2) && e2 == e && final(self).pos() == old(self).pos(),
            },
    {
        let lv = match self.read_varuint() {
            Ok(v) => v,
            Err(e) => {
                return Err(e);
            },
        };
        if lv == 0 {
            Ok(0)
        } else {
            Ok((lv - 1) as usize)
        }
    }
}


/// Decoder that hides the legacy-or-compact choice behind one flag fixed
/// at construction.
///
/// Fixed-width primitives pass straight through; every length-prefixed
/// primitive picks its physical encoding from the flag.
pub struct KafkaFlexiDeserializer<'a> {
    use_flexible: bool,
    /// The plain reader underneath, exposed so that a caller can decode a
    /// fixed-layout header through it before the body.
    pub de: KafkaDeserializer<'a>,
}

impl<'a> KafkaFlexiDeserializer<'a> {
    /// Whether compact encodings are in use.
    pub closed spec fn flexible(&self) -> bool {
        self.use_flexible
    }

    /// The cursor never passes the end of the buffer.
    pub open spec fn wf(&self) -> bool {
        0 <= self.pos() <= self.data().len()
    }

    /// The whole input buffer.
    pub closed spec fn data(&self) -> Seq<u8> {
        self.de.data()
    }

    /// The read cursor.
    pub closed spec fn pos(&self) -> int {
        self.de.pos()
    }

    /// The bytes not yet consumed.
    pub open spec fn rest(&self) -> Seq<u8> {
        self.data().skip(self.pos())
    }

    /// Start reading `buf`, with the compact encodings switched on when
    /// `use_flexible` is set.
    pub fn new(use_flexible: bool, buf: &'a [u8]) -> (r: KafkaFlexiDeserializer<'a>)
        ensures
            r.wf(),
            r.data() == buf@,
            r.pos() == 0,
            r.flexible() == use_flexible,
    {
        KafkaFlexiDeserializer { use_flexible, de: KafkaDeserializer::new(buf) }
    }

    /// Read a boolean.  The physical encoding does not vary with the flag.
    pub fn read_bool(&mut self) -> (r: Result<bool, Error>)
        requires
            old(self).wf(),
        ensures
            final(self).wf(),
            final(self).data() == old(self).data(),
            final(self).flexible() == old(self).flexible(),
            match parse_u8(old(self).rest()) {
                Ok((u, n)) => r matches Ok(v) && v == (u != 0) && final(self).pos() == old(self).pos() + n,
                Err(e) => r matches Err(e2) && e2 == e && final(self).pos() == old(self).pos(),
            },
    {
        self.de.read_bool()
    }

    /// Read a signed 8-bit value.  The physical encoding does not vary with the flag.
    pub fn read_int8(&mut self) -> (r: Result<i8, Error>)
        requires
            old(self).wf(),
        ensures
            final(self).wf(),
            final(self).data() == old(self).data(),
            final(self).flexible() == old(self).flexible(),
            match parse_u8(old(self).rest()) {
                Ok((u, n)) => r matches Ok(v) && v == u as i8 && final(self).pos() == old(self).pos() + n,
                Err(e) => r matches Err(e2) && e2 == e && final(self).pos() == old(self).pos(),
            },
    {
        self.de.read_int8()
    }

    /// Read a big-endian signed 16-bit value.  The physical encoding does not vary with the flag.
    pub fn read_int16(&mut self) -> (r: Result<i16, Error>)
        requires
            old(self).wf(),
        ensures
            final(self).wf(),
            final(self).data() == old(self).data(),
            final(self).flexible() == old(self).flexible(),
            match parse_u16(old(self).rest()) {
                Ok((u, n)) => r matches Ok(v) && v == u as i16 && final(self).pos() == old(self).pos() + n,
                Err(e) => r matches Err(e2) && e2 == e && final(self).pos() == old(self).pos(),
            },
    {
        self.de.read_int16()
    }

    /// Read a big-endian signed 32-bit value.  The physical encoding does not vary with the flag.
    pub fn read_int32(&mut self) -> (r: Result<i32, Error>)
        requires
            old(self).wf(),
        ensures
            final(self).wf(),
            final(self).data() == old(self).data(),
            final(self).flexible() == old(self).flexible(),
            match parse_u32(old(self).rest()) {
                Ok((u, n)) => r matches Ok(v) && v == u as i32 && final(self).pos() == old(self).pos() + n,
                Err(e) => r matches Err(e2) && e2 == e && final(self).pos() == old(self).pos(),
            },
    {
        self.de.read_int32()
    }

    /// Read a big-endian signed 64-bit value.  The physical encoding does not vary with the flag.
    pub fn read_int64(&mut self) -> (r: Result<i64, Error>)
        requires
            old(self).wf(),
        ensures
            final(self).wf(),
            final(self).data() == old(self).data(),
            final(self).flexible() == old(self).flexible(),
            match parse_u64(old(self).rest()) {
                Ok((u, n)) => r matches Ok(v) && v == u as i64 && final(self).pos() == old(self).pos() + n,
                Err(e) => r matches Err(e2) && e2 == e && final(self).pos() == old(self).pos(),
            },
    {
        self.de.read_int64()
    }

    /// Read a big-endian unsigned 32-bit value.  The physical encoding does not vary with the flag.
    pub fn read_uint32(&mut self) -> (r: Result<u32, Error>)
        requires
            old(self).wf(),
        ensures
            final(self).wf(),
            final(self).data() == old(self).data(),
            final(self).flexible() == old(self).flexible(),
            match parse_u32(old(self).rest()) {
                Ok((u, n)) => r matches Ok(v) && v == u && final(self).pos() == old(self).pos() + n,
                Err(e) => r matches Err(e2) && e2 == e && final(self).pos() == old(self).pos(),
            },
    {
        self.de.read_uint32()
    }

    /// Read a zig-zag signed 32-bit varint.  The physical encoding does not vary with the flag.
    pub fn read_varint(&mut self) -> (r: Result<i32, Error>)
        requires
            old(self).wf(),
        ensures
            final(self).wf(),
            final(self).data() == old(self).data(),
            final(self).flexible() == old(self).flexible(),
            match parse_varint_32(old(self).rest()) {
                Ok((u, n)) => r matches Ok(v) && v == u && final(self).pos() == old(self).pos() + n,
                Err(e) => r matches Err(e2) && e2 == e && final(self).pos() == old(self).pos(),
            },
    {
        self.de.read_varint()
    }

    /// Read a zig-zag signed 64-bit varint.  The physical encoding does not vary with the flag.
    pub fn read_varlong(&mut self) -> (r: Result<i64, Error>)
        requires
            old(self).wf(),
        ensures
            final(self).wf(),
            final(self).data() == old(self).data(),
            final(self).flexible() == old(self).flexible(),
            match parse_varint_64(old(self).rest()) {
                Ok((u, n)) => r matches Ok(v) && v == u && final(self).pos() == old(self).pos() + n,
                Err(e) => r matches Err(e2) && e2 == e && final(self).pos() == old(self).pos(),
            },
    {
        self.de.read_varlong()
    }

    /// Read the bit pattern of a 64-bit floating-point value.  The physical encoding does not vary with the flag.
    pub fn read_float64_bits(&mut self) -> (r: Result<u64, Error>)
        requires
            old(self).wf(),
        ensures
            final(self).wf(),
            final(self).data() == old(self).data(),
            final(self).flexible() == old(self).flexible(),
            match parse_u64(old(self).rest()) {
                Ok((u, n)) => r matches Ok(v) && v == u && final(self).pos() == old(self).pos() + n,
                Err(e) => r matches Err(e2) && e2 == e && final(self).pos() == old(self).pos(),
            },
    {
        self.de.read_float64_bits()
    }

    /// Read a UUID.  The physical encoding does not vary with the flag.
    pub fn read_uuid(&mut self) -> (r: Result<KafkaUuid, Error>)
        requires
            old(self).wf(),
        ensures
            final(self).wf(),
            final(self).data() == old(self).data(),
            final(self).flexible() == old(self).flexible(),
            match parse_uuid(old(self).rest()) {
                Ok(((msb, lsb), n)) => r matches Ok(u) && u.msb == msb && u.lsb == lsb
                    && final(self).pos() == old(self).pos() + n,
                Err(e) => r matches Err(e2) && e2 == e && final(self).pos() == old(self).pos(),
            },
    {
        self.de.read_uuid()
    }

    /// Read a string in whichever encoding the flag selects.
    pub fn read_string(&mut self) -> (r: Result<String, Error>)
        requires
            old(self).wf(),
        ensures
            final(self).wf(),
            final(self).data() == old(self).data(),
            final(self).flexible() == old(self).flexible(),
            match parse_string(old(self).rest(), old(self).flexible()) {
                Ok((cs, n)) => r matches Ok(s) && s@ == cs && final(self).pos() == old(self).pos() + n,
                Err(e) => r matches Err(e2) && e2 == e && final(self).pos() == old(self).pos(),
            },
    {
        if self.use_flexible {
            self.de.read_compact_string()
        } else {
            self.de.read_string()
        }
    }

    /// Read a nullable string in whichever encoding the flag selects.
    pub fn read_nullable_string(&mut self) -> (r: Result<Option<String>, Error>)
        requires
            old(self).wf(),
        ensures
            final(self).wf(),
            final(self).data() == old(self).data(),
            final(self).flexible() == old(self).flexible(),
            match parse_nullable_string(old(self).rest(), old(self).flexible()) {
                Ok((cs, n)) => r matches Ok(s) && option_str_view(s) == cs && final(self).pos() == old(self).pos() + n,
                Err(e) => r matches Err(e2) && e2 == e && final(self).pos() == old(self).pos(),
            },
    {
        if self.use_flexible {
            self.de.read_compact_nullable_string()
        } else {
            self.de.read_nullable_string()
        }
    }

    /// Read a byte string in whichever encoding the flag selects.
    pub fn read_bytes(&mut self) -> (r: Result<Vec<u8>, Error>)
        requires
            old(self).wf(),
        ensures
            final(self).wf(),
            final(self).data() == old(self).data(),
            final(self).flexible() == old(self).flexible(),
            match parse_bytes(old(self).rest(), old(self).flexible()) {
                Ok((cs, n)) => r matches Ok(s) && s@ == cs && final(self).pos() == old(self).pos() + n,
                Err(e) => r matches Err(e2) && e2 == e && final(self).pos() == old(self).pos(),
            },
    {
        if self.use_flexible {
            self.de.read_compact_bytes()
        } else {
            self.de.read_bytes()
        }
    }

    /// Read nullable bytes in whichever encoding the flag selects.
    pub fn read_nullable_bytes(&mut self) -> (r: Result<Option<Vec<u8>>, Error>)
        requires
            old(self).wf(),
        ensures
            final(self).wf(),
            final(self).data() == old(self).data(),
            final(self).flexible() == old(self).flexible(),
            match parse_nullable_bytes(old(self).rest(), old(self).flexible()) {
                Ok((cs, n)) => r matches Ok(s) && option_bytes_view(s) == cs && final(self).pos() == old(self).pos() + n,
                Err(e) => r matches Err(e2) && e2 == e && final(self).pos() == old(self).pos(),
            },
    {
        if self.use_flexible {
            self.de.read_compact_nullable_bytes()
        } else {
            self.de.read_nullable_bytes()
        }
    }

    /// Read an array header in whichever encoding the flag selects.
    pub fn read_array_hdr(&mut self) -> (r: Result<usize, Error>)
        requires
            old(self).wf(),
        ensures
            final(self).wf(),
            final(self).data() == old(self).data(),
            final(self).flexible() == old(self).flexible(),
            match parse_array_hdr(old(self).rest(), old(self).flexible()) {
                Ok((cs, n)) => r matches Ok(s) && s == cs && final(self).pos() == old(self).pos() + n,
                Err(e) => r matches Err(e2) && e2 == e && final(self).pos() == old(self).pos(),
            },
    {
        if self.use_flexible {
            self.de.read_compact_array_hdr()
        } else {
            self.de.read_array_hdr()
        }
    }
}

/// The sequence-of-characters view of an optional string.
pub open spec fn option_str_view(v: Option<String>) -> Option<Seq<char>> {
    match v {
        Option::Some(s) => Option::Some(s@),
        Option::None => Option::None,
    }
}

/// The byte-sequence view of optional bytes.
pub open spec fn option_bytes_view(v: Option<Vec<u8>>) -> Option<Seq<u8>> {
    match v {
        Option::Some(b) => Option::Some(b@),
        Option::None => Option::None,
    }
}

/// A value that can be read as part of a message body.
///
/// Messages always start with a header holding the message type and
/// version; `deserialize` reads only the body.  Array elements may ignore
/// the version argument: they are laid out the same way at every version.
pub trait KafkaProtoDecodable: Sized + View {
    /// The parse of this value's wire form from the front of `s`.
    spec fn parse_body(s: Seq<u8>, ver: i16, flexible: bool) -> Result<(Self::V, int), Error>;

    /// Read the value from `d`.  On failure the cursor may rest anywhere
    /// in the partially read value.
    fn deserialize(ver: i16, d: &mut KafkaFlexiDeserializer) -> (r: Result<Self, Error>)
        requires
            old(d).wf(),
        ensures
            final(d).wf(),
            final(d).data() == old(d).data(),
            final(d).flexible() == old(d).flexible(),
            match Self::parse_body(old(d).rest(), ver, old(d).flexible()) {
                Ok((v, n)) => r matches Ok(m) && m@ == v && final(d).pos() == old(d).pos() + n,
                Err(e) => r matches Err(e2) && e2 == e && old(d).pos() <= final(d).pos(),
            },
    ;
}

/// Decode one message: a response header, then the body, both read from
/// one forward-only cursor, with the compact encodings switched on when
/// `ver` reaches the message type's flexible threshold.
///
/// The header's correlation id is read and discarded; validating it
/// against the expected one is left to the caller.
pub fn deserialize_message<M: KafkaProtoDecodable + crate::Request>(ver: i16, buf: &[u8]) -> (r:
    Result<M, Error>)
    ensures
        match parse_u32(buf@) {
            Ok((u, n)) => match M::parse_body(buf@.skip(n), ver, ver >= M::FLEXIBLE_VERSION) {
                Ok((v, _m)) => r matches Ok(x) && x@ == v,
                Err(e) => r matches Err(e2) && e2 == e,
            },
            Err(e) => r matches Err(e2) && e2 == e,
        },
{
    let is_flexible = ver >= M::FLEXIBLE_VERSION;
    let mut d = KafkaFlexiDeserializer::new(is_flexible, buf);
    match crate::messages::ResponseHeader::deserialize(&mut d.de) {
        Ok(_h) => (),
        Err(e) => {
            return Err(e);
        },
    }
    proof {
        match parse_u32(buf@) {
            Ok((u, n)) => {
                assert(d.rest() =~= buf@.skip(n));
            },
            Err(_) => {},
        }
    }
    M::deserialize(ver, &mut d)
}

/// Relies on core::str::from_utf8: it succeeds exactly on the byte
/// sequences that are valid UTF-8, and the string slice it returns views
/// the same bytes.
#[verifier::external_body]
fn try_str_from_utf8<'b>(b: &'b [u8]) -> (r: Option<&'b str>)
    ensures
        r matches Some(s) ==> vstd::utf8::valid_utf8(b@) && s@ == vstd::utf8::decode_utf8(b@)
            && vstd::utf8::encode_utf8(s@) == b@,
        r is None ==> !vstd::utf8::valid_utf8(b@),
{
    core::str::from_utf8(b).ok()
}

} // verus!
