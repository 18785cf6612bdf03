//! Encoding: an append-only sink of wire bytes.

use vstd::prelude::*;

use crate::error::Error;
use crate::wire::{
    array_hdr_fits, array_hdr_wire, be_bytes_16, be_bytes_32, be_bytes_64, bytes_fits, bytes_wire,
    nullable_bytes_fits, nullable_bytes_wire, nullable_string_fits, nullable_string_wire,
    string_fits, string_wire, uuid_wire, varint_bytes, varint_wire_32, varint_wire_64,
};
use crate::KafkaUuid;

mod varint;

pub use varint::{encode_varint32, encode_varint64, encode_zig_zag_32, encode_zig_zag_64};

verus! {

/// The sequence-of-characters view of an optional borrowed string.
pub open spec fn option_str_view(v: Option<&str>) -> Option<Seq<char>> {
    match v {
        Option::Some(s) => Option::Some(s@),
        Option::None => Option::None,
    }
}

/// The byte-sequence view of optional borrowed bytes.
pub open spec fn option_bytes_view(v: Option<&[u8]>) -> Option<Seq<u8>> {
    match v {
        Option::Some(b) => Option::Some(b@),
        Option::None => Option::None,
    }
}

/// Append-only encoder writing the legacy representation of every
/// primitive.
///
/// Each emit either succeeds and appends exactly the wire form of the
/// value, or fails before writing anything.
pub struct KafkaSerializer {
    out: Vec<u8>,
}

impl KafkaSerializer {
    /// Everything written so far.
    pub closed spec fn written(&self) -> Seq<u8> {
        self.out@
    }

    /// Start with an empty sink.
    pub fn new() -> (r: KafkaSerializer)
        ensures
            r.written() == Seq::<u8>::empty(),
    {
        KafkaSerializer { out: Vec::new() }
    }

    /// Hand the accumulated bytes over.
    pub fn into_bytes(self) -> (r: Vec<u8>)
        ensures
            r@ == self.written(),
    {
        self.out
    }

    /// Append two big-endian bytes.
    fn push_u16_be(&mut self, u: u16)
        ensures
            final(self).written() == old(self).written() + be_bytes_16(u),
    {
        self.out.push(#[verifier::truncate] ((u >> 8) as u8));
        self.out.push(#[verifier::truncate] ((u & 0xff) as u8));
        proof {
            assert(self.out@ =~= old(self).out@ + be_bytes_16(u));
        }
    }

    /// Append four big-endian bytes.
    fn push_u32_be(&mut self, u: u32)
        ensures
            final(self).written() == old(self).written() + be_bytes_32(u),
    {
        self.out.push(#[verifier::truncate] (((u >> 24) & 0xff) as u8));
        self.out.push(#[verifier::truncate] (((u >> 16) & 0xff) as u8));
        self.out.push(#[verifier::truncate] (((u >> 8) & 0xff) as u8));
        self.out.push(#[verifier::truncate] ((u & 0xff) as u8));
        proof {
            assert(self.out@ =~= old(self).out@ + be_bytes_32(u));
        }
    }

    /// Append eight big-endian bytes.
    fn push_u64_be(&mut self, u: u64)
        ensures
            final(self).written() == old(self).written() + be_bytes_64(u),
    {
        self.out.push(#[verifier::truncate] (((u >> 56) & 0xff) as u8));
        self.out.push(#[verifier::truncate] (((u >> 48) & 0xff) as u8));
        self.out.push(#[verifier::truncate] (((u >> 40) & 0xff) as u8));
        self.out.push(#[verifier::truncate] (((u >> 32) & 0xff) as u8));
        self.out.push(#[verifier::truncate] (((u >> 24) & 0xff) as u8));
        self.out.push(#[verifier::truncate] (((u >> 16) & 0xff) as u8));
        self.out.push(#[verifier::truncate] (((u >> 8) & 0xff) as u8));
        self.out.push(#[verifier::truncate] ((u & 0xff) as u8));
        proof {
            assert(self.out@ =~= old(self).out@ + be_bytes_64(u));
        }
    }

    /// Write a boolean as one byte, 1 for true and 0 for false.
    pub fn emit_bool(&mut self, v: bool) -> (r: Result<(), Error>)
        ensures
            r is Ok,
            final(self).written() == old(self).written() + seq![if v { 1u8 } else { 0u8 }],
    {
        self.out.push(if v { 1 } else { 0 });
        proof {
            assert(self.out@ =~= old(self).out@ + seq![if v { 1u8 } else { 0u8 }]);
        }
        Ok(())
    }

    /// Write a signed 8-bit value.
    pub fn emit_int8(&mut self, v: i8) -> (r: Result<(), Error>)
        ensures
            r is Ok,
            final(self).written() == old(self).written() + seq![v as u8],
    {
        self.out.push(#[verifier::truncate] (v as u8));
        proof {
            assert(self.out@ =~= old(self).out@ + seq![v as u8]);
        }
        Ok(())
    }

    /// Write a big-endian signed 16-bit value.
    pub fn emit_int16(&mut self, v: i16) -> (r: Result<(), Error>)
        ensures
            r is Ok,
            final(self).written() == old(self).written() + be_bytes_16(v as u16),
    {
        self.push_u16_be(#[verifier::truncate] (v as u16));
        Ok(())
    }

    /// Write a big-endian signed 32-bit value.
    pub fn emit_int32(&mut self, v: i32) -> (r: Result<(), Error>)
        ensures
            r is Ok,
            final(self).written() == old(self).written() + be_bytes_32(v as u32),
    {
        self.push_u32_be(#[verifier::truncate] (v as u32));
        Ok(())
    }

    /// Write a big-endian signed 64-bit value.
    pub fn emit_int64(&mut self, v: i64) -> (r: Result<(), Error>)
        ensures
            r is Ok,
            final(self).written() == old(self).written() + be_bytes_64(v as u64),
    {
        self.push_u64_be(#[verifier::truncate] (v as u64));
        Ok(())
    }

    /// Write a big-endian unsigned 32-bit value.
    pub fn emit_uint32(&mut self, v: u32) -> (r: Result<(), Error>)
        ensures
            r is Ok,
            final(self).written() == old(self).written() + be_bytes_32(v),
    {
        self.push_u32_be(v);
        Ok(())
    }

    /// Write an unsigned varint of at most five groups.
    pub fn emit_varuint(&mut self, v: u32) -> (r: Result<(), Error>)
        ensures
            r is Ok,
            final(self).written() == old(self).written() + varint_bytes(v as nat),
    {
        let _count: usize = varint::encode_varint32(v, &mut self.out);
        Ok(())
    }

    /// Write an unsigned varint of at most ten groups.
    pub fn emit_varulong(&mut self, v: u64) -> (r: Result<(), Error>)
        ensures
            r is Ok,
            final(self).written() == old(self).written() + varint_bytes(v as nat),
    {
        let _count: usize = varint::encode_varint64(v, &mut self.out);
        Ok(())
    }

    /// Write a zig-zag signed 32-bit varint.
    pub fn emit_varint(&mut self, v: i32) -> (r: Result<(), Error>)
        ensures
            r is Ok,
            final(self).written() == old(self).written() + varint_wire_32(v),
    {
        self.emit_varuint(varint::encode_zig_zag_32(v))
    }

    /// Write a zig-zag signed 64-bit varint.
    pub fn emit_varlong(&mut self, v: i64) -> (r: Result<(), Error>)
        ensures
            r is Ok,
            final(self).written() == old(self).written() + varint_wire_64(v),
    {
        self.emit_varulong(varint::encode_zig_zag_64(v))
    }

    /// Write a UUID as sixteen bytes, most significant half first.
    pub fn emit_uuid(&mut self, v: KafkaUuid) -> (r: Result<(), Error>)
        ensures
            r is Ok,
            final(self).written() == old(self).written() + uuid_wire(v.msb, v.lsb),
    {
        self.push_u64_be(v.msb);
        self.push_u64_be(v.lsb);
        proof {
            assert(self.written() =~= old(self).written() + uuid_wire(v.msb, v.lsb));
        }
        Ok(())
    }

    /// Write the bit pattern of a big-endian 64-bit floating-point value.
    pub fn emit_float64_bits(&mut self, bits: u64) -> (r: Result<(), Error>)
        ensures
            r is Ok,
            final(self).written() == old(self).written() + be_bytes_64(bits),
    {
        self.push_u64_be(bits);
        Ok(())
    }

    /// Write a legacy string: a two-byte signed length, then the UTF-8
    /// bytes.  Fails when the byte length does not fit the prefix.
    pub fn emit_string(&mut self, v: &str) -> (r: Result<(), Error>)
        ensures
            r is Ok <==> string_fits(v@, false),
            r is Ok ==> final(self).written() == old(self).written() + string_wire(v@, false),
            r is Err ==> final(self).written() == old(self).written() && r == Err::<(), Error>(
                Error::BoundsCheck,
            ),
    {
        let b = v.as_bytes();
        if b.len() > 0x7fff {
            return Err(Error::BoundsCheck);
        }
        self.push_u16_be(b.len() as u16);
        self.out.extend_from_slice(b);
        proof {
            assert(self.out@ =~= old(self).out@ + string_wire(v@, false));
        }
        Ok(())
    }

    /// Write a compact string: a varint length, then the UTF-8 bytes.
    pub fn emit_compact_string(&mut self, v: &str) -> (r: Result<(), Error>)
        ensures
            r is Ok <==> string_fits(v@, true),
            r is Ok ==> final(self).written() == old(self).written() + string_wire(v@, true),
            r is Err ==> final(self).written() == old(self).written() && r == Err::<(), Error>(
                Error::BoundsCheck,
            ),
    {
        let b = v.as_bytes();
        if b.len() as u64 > 0xffffffff {
            return Err(Error::BoundsCheck);
        }
        let _count: usize = varint::encode_varint32(b.len() as u32, &mut self.out);
        self.out.extend_from_slice(b);
        proof {
            assert(self.out@ =~= old(self).out@ + string_wire(v@, true));
        }
        Ok(())
    }

    /// Write a legacy nullable string: a length of -1 for an absent
    /// value, the plain string form otherwise.
    pub fn emit_nullable_string(&mut self, v: Option<&str>) -> (r: Result<(), Error>)
        ensures
            r is Ok <==> nullable_string_fits(option_str_view(v), false),
            r is Ok ==> final(self).written() == old(self).written() + nullable_string_wire(
                option_str_view(v),
                false,
            ),
            r is Err ==> final(self).written() == old(self).written() && r == Err::<(), Error>(
                Error::BoundsCheck,
            ),
    {
        match v {
            Some(s) => self.emit_string(s),
            None => {
                self.push_u16_be(0xffff);
                Ok(())
            },
        }
    }

    /// Write a compact nullable string: a varint of 0 for an absent
    /// value, the length plus one and the UTF-8 bytes otherwise.
    pub fn emit_compact_nullable_string(&mut self, v: Option<&str>) -> (r: Result<(), Error>)
        ensures
            r is Ok <==> nullable_string_fits(option_str_view(v), true),
            r is Ok ==> final(self).written() == old(self).written() + nullable_string_wire(
                option_str_view(v),
                true,
            ),
            r is Err ==> final(self).written() == old(self).written() && r == Err::<(), Error>(
                Error::BoundsCheck,
            ),
    {
        match v {
            Some(s) => {
                let b = s.as_bytes();
                if b.len() as u64 >= 0xffffffff {
                    return Err(Error::BoundsCheck);
                }
                let _count: usize = varint::encode_varint32(b.len() as u32 + 1, &mut self.out);
                self.out.extend_from_slice(b);
                proof {
                    assert(self.out@ =~= old(self).out@ + nullable_string_wire(
                        option_str_view(v),
                        true,
                    ));
                }
                Ok(())
            },
            None => {
                let _count: usize = varint::encode_varint32(0, &mut self.out);
                proof {
                    assert(varint_bytes(0) =~= seq![0u8]);
                    assert(self.out@ =~= old(self).out@ + nullable_string_wire(
                        option_str_view(v),
                        true,
                    ));
                }
                Ok(())
            },
        }
    }

    /// Write legacy bytes: a four-byte signed length, then the raw bytes.
    pub fn emit_bytes(&mut self, v: &[u8]) -> (r: Result<(), Error>)
        ensures
            r is Ok <==> bytes_fits(v@, false),
            r is Ok ==> final(self).written() == old(self).written() + bytes_wire(v@, false),
            r is Err ==> final(self).written() == old(self).written() && r == Err::<(), Error>(
                Error::BoundsCheck,
            ),
    {
        if v.len() as u64 > 0x7fffffff {
            return Err(Error::BoundsCheck);
        }
        self.push_u32_be(v.len() as u32);
        self.out.extend_from_slice(v);
        proof {
            assert(self.out@ =~= old(self).out@ + bytes_wire(v@, false));
        }
        Ok(())
    }

    /// Write compact bytes: a varint length, then the raw bytes.
    pub fn emit_compact_bytes(&mut self, v: &[u8]) -> (r: Result<(), Error>)
        ensures
            r is Ok <==> bytes_fits(v@, true),
            r is Ok ==> final(self).written() == old(self).written() + bytes_wire(v@, true),
            r is Err ==> final(self).written() == old(self).written() && r == Err::<(), Error>(
                Error::BoundsCheck,
            ),
    {
        if v.len() as u64 > 0xffffffff {
            return Err(Error::BoundsCheck);
        }
        let _count: usize = varint::encode_varint32(v.len() as u32, &mut self.out);
        self.out.extend_from_slice(v);
        proof {
            assert(self.out@ =~= old(self).out@ + bytes_wire(v@, true));
        }
        Ok(())
    }

    /// Write legacy nullable bytes: a length of -1 for an absent value.
    pub fn emit_nullable_bytes(&mut self, v: Option<&[u8]>) -> (r: Result<(), Error>)
        ensures
            r is Ok <==> nullable_bytes_fits(option_bytes_view(v), false),
            r is Ok ==> final(self).written() == old(self).written() + nullable_bytes_wire(
                option_bytes_view(v),
                false,
            ),
            r is Err ==> final(self).written() == old(self).written() && r == Err::<(), Error>(
                Error::BoundsCheck,
            ),
    {
        match v {
            Some(b) => self.emit_bytes(b),
            None => {
                self.push_u32_be(0xffffffff);
                Ok(())
            },
        }
    }

    /// Write compact nullable bytes: a varint of 0 for an absent value,
    /// the length plus one and the raw bytes otherwise.
    pub fn emit_compact_nullable_bytes(&mut self, v: Option<&[u8]>) -> (r: Result<(), Error>)
        ensures
            r is Ok <==> nullable_bytes_fits(option_bytes_view(v), true),
            r is Ok ==> final(self).written() == old(self).written() + nullable_bytes_wire(
                option_bytes_view(v),
                true,
            ),
            r is Err ==> final(self).written() == old(self).written() && r == Err::<(), Error>(
                Error::BoundsCheck,
            ),
    {
        match v {
            Some(b) => {
                if b.len() as u64 >= 0xffffffff {
                    return Err(Error::BoundsCheck);
                }
                let _count: usize = varint::encode_varint32(b.len() as u32 + 1, &mut self.out);
                self.out.extend_from_slice(b);
                proof {
                    assert(self.out@ =~= old(self).out@ + nullable_bytes_wire(
                        option_bytes_view(v),
                        true,
                    ));
                }
                Ok(())
            },
            None => {
                let _count: usize = varint::encode_varint32(0, &mut self.out);
                proof {
                    assert(varint_bytes(0) =~= seq![0u8]);
                    assert(self.out@ =~= old(self).out@ + nullable_bytes_wire(
                        option_bytes_view(v),
                        true,
                    ));
                }
                Ok(())
            },
        }
    }

    /// Write a legacy array header.  A count of zero is written as -1,
    /// the legacy convention that collapses the null and empty states.
    pub fn emit_array_hdr(&mut self, len: usize) -> (r: Result<(), Error>)
        ensures
            r is Ok <==> array_hdr_fits(len as nat, false),
            r is Ok ==> final(self).written() == old(self).written() + array_hdr_wire(
                len as nat,
                false,
            ),
            r is Err ==> final(self).written() == old(self).written() && r == Err::<(), Error>(
                Error::BoundsCheck,
            ),
    {
        if len == 0 {
            self.push_u32_be(0xffffffff);
            Ok(())
        } else if len as u64 > 0x7fffffff {
            Err(Error::BoundsCheck)
        } else {
            self.push_u32_be(len as u32);
            Ok(())
        }
    }

    /// Write a compact array header: 0 for an empty array, the count plus
    /// one otherwise.
    pub fn emit_compact_array_hdr(&mut self, len: usize) -> (r: Result<(), Error>)
        ensures
            r is Ok <==> array_hdr_fits(len as nat, true),
            r is Ok ==> final(self).written() == old(self).written() + array_hdr_wire(
                len as nat,
                true,
            ),
            r is Err ==> final(self).written() == old(self).written() && r == Err::<(), Error>(
                Error::BoundsCheck,
            ),
    {
        if len == 0 {
            let _count: usize = varint::encode_varint32(0, &mut self.out);
            proof {
                assert(varint_bytes(0) =~= seq![0u8]);
                assert(self.out@ =~= old(self).out@ + array_hdr_wire(len as nat, true));
            }
            Ok(())
        } else if len as u64 >= 0xffffffff {
            Err(Error::BoundsCheck)
        } else {
            let _count: usize = varint::encode_varint32(len as u32 + 1, &mut self.out);
            Ok(())
        }
    }
}

/// A value that can be written as part of a message body.
///
/// Messages always start with a header holding the message type and
/// version; `serialize` writes only the body.  Array elements may ignore
/// the version argument: they emit the same bytes regardless of it, since
/// version-conditioning applies only at the field-selection level.
pub trait KafkaProtoEncodable {
    /// The bytes this value contributes to a message body at `ver`.
    spec fn wire(&self, ver: i16, flexible: bool) -> Seq<u8>;

    /// Whether every length in this value fits its length prefix.
    spec fn fits(&self, ver: i16, flexible: bool) -> bool;

    /// Append the value's wire form to `s`.
    fn serialize(&self, ver: i16, s: &mut KafkaFlexiSerializer) -> (r: Result<(), Error>)
        ensures
            final(s).flexible() == old(s).flexible(),
            r is Ok <==> self.fits(ver, old(s).flexible()),
            r is Ok ==> final(s).written() == old(s).written() + self.wire(
                ver,
                old(s).flexible(),
            ),
    ;
}

/// The bytes of a run of array elements, each encoded the same way
/// regardless of the message version.
pub open spec fn elems_wire<T: KafkaProtoEncodable>(v: Seq<T>, flexible: bool) -> Seq<u8>
    decreases v.len(),
{
    if v.len() == 0 {
        Seq::empty()
    } else {
        v[0].wire(0, flexible) + elems_wire(v.drop_first(), flexible)
    }
}

/// Whether every element of an array fits its length prefixes.
pub open spec fn elems_fit<T: KafkaProtoEncodable>(v: Seq<T>, flexible: bool) -> bool {
    forall|i: int| 0 <= i < v.len() ==> v[i].fits(0, flexible)
}

/// Appending one element extends the run's bytes by that element's wire
/// form.
pub proof fn lemma_elems_wire_push<T: KafkaProtoEncodable>(v: Seq<T>, x: T, flexible: bool)
    ensures
        elems_wire(v.push(x), flexible) == elems_wire(v, flexible) + x.wire(0, flexible),
    decreases v.len(),
{
    let w = v.push(x);
    if v.len() == 0 {
        assert(w[0] == x);
        assert(w.drop_first() =~= Seq::<T>::empty());
        assert(elems_wire(w.drop_first(), flexible) =~= Seq::<u8>::empty());
        assert(elems_wire(w, flexible) == w[0].wire(0, flexible) + elems_wire(
            w.drop_first(),
            flexible,
        ));
        assert(elems_wire(w, flexible) =~= elems_wire(v, flexible) + x.wire(0, flexible));
    } else {
        assert(w[0] == v[0]);
        assert(w.drop_first() =~= v.drop_first().push(x));
        lemma_elems_wire_push(v.drop_first(), x, flexible);
        assert(elems_wire(w, flexible) == w[0].wire(0, flexible) + elems_wire(
            w.drop_first(),
            flexible,
        ));
        assert(elems_wire(w, flexible) =~= elems_wire(v, flexible) + x.wire(0, flexible));
    }
}

/// Encoder that hides the legacy-or-compact choice behind one flag fixed
/// at construction.
///
/// Fixed-width primitives pass straight through; every length-prefixed
/// primitive picks its physical encoding from the flag.
pub struct KafkaFlexiSerializer {
    use_flexible: bool,
    /// The plain encoder underneath, exposed so that a caller can write a
    /// fixed-layout header through it before the body.
    pub serializer: KafkaSerializer,
}

impl KafkaFlexiSerializer {
    /// Whether compact encodings are in use.
    pub closed spec fn flexible(&self) -> bool {
        self.use_flexible
    }

    /// Everything written so far.
    pub closed spec fn written(&self) -> Seq<u8> {
        self.serializer.written()
    }

    /// Start with an empty sink, with the compact encodings switched on
    /// when `use_flexible` is set.
    pub fn new(use_flexible: bool) -> (r: KafkaFlexiSerializer)
        ensures
            r.flexible() == use_flexible,
            r.written() == Seq::<u8>::empty(),
    {
        KafkaFlexiSerializer { use_flexible, serializer: KafkaSerializer::new() }
    }

    /// Hand the accumulated bytes over.
    pub fn into_bytes(self) -> (r: Vec<u8>)
        ensures
            r@ == self.written(),
    {
        self.serializer.into_bytes()
    }

    /// Write a boolean.  The physical encoding does not vary with the
    /// flag.
    pub fn emit_bool(&mut self, v: bool) -> (r: Result<(), Error>)
        ensures
            final(self).flexible() == old(self).flexible(),
            r is Ok,
            final(self).written() == old(self).written() + seq![if v { 1u8 } else { 0u8 }],
    {
        self.serializer.emit_bool(v)
    }

    /// Write a signed 8-bit value.
    pub fn emit_int8(&mut self, v: i8) -> (r: Result<(), Error>)
        ensures
            final(self).flexible() == old(self).flexible(),
            r is Ok,
            final(self).written() == old(self).written() + seq![v as u8],
    {
        self.serializer.emit_int8(v)
    }

    /// Write a big-endian signed 16-bit value.
    pub fn emit_int16(&mut self, v: i16) -> (r: Result<(), Error>)
        ensures
            final(self).flexible() == old(self).flexible(),
            r is Ok,
            final(self).written() == old(self).written() + be_bytes_16(v as u16),
    {
        self.serializer.emit_int16(v)
    }

    /// Write a big-endian signed 32-bit value.
    pub fn emit_int32(&mut self, v: i32) -> (r: Result<(), Error>)
        ensures
            final(self).flexible() == old(self).flexible(),
            r is Ok,
            final(self).written() == old(self).written() + be_bytes_32(v as u32),
    {
        self.serializer.emit_int32(v)
    }

    /// Write a big-endian signed 64-bit value.
    pub fn emit_int64(&mut self, v: i64) -> (r: Result<(), Error>)
        ensures
            final(self).flexible() == old(self).flexible(),
            r is Ok,
            final(self).written() == old(self).written() + be_bytes_64(v as u64),
    {
        self.serializer.emit_int64(v)
    }

    /// Write a big-endian unsigned 32-bit value.
    pub fn emit_uint32(&mut self, v: u32) -> (r: Result<(), Error>)
        ensures
            final(self).flexible() == old(self).flexible(),
            r is Ok,
            final(self).written() == old(self).written() + be_bytes_32(v),
    {
        self.serializer.emit_uint32(v)
    }

    /// Write a zig-zag signed 32-bit varint.
    pub fn emit_varint(&mut self, v: i32) -> (r: Result<(), Error>)
        ensures
            final(self).flexible() == old(self).flexible(),
            r is Ok,
            final(self).written() == old(self).written() + varint_wire_32(v),
    {
        self.serializer.emit_varint(v)
    }

    /// Write a zig-zag signed 64-bit varint.
    pub fn emit_varlong(&mut self, v: i64) -> (r: Result<(), Error>)
        ensures
            final(self).flexible() == old(self).flexible(),
            r is Ok,
            final(self).written() == old(self).written() + varint_wire_64(v),
    {
        self.serializer.emit_varlong(v)
    }

    /// Write a UUID.
    pub fn emit_uuid(&mut self, v: KafkaUuid) -> (r: Result<(), Error>)
        ensures
            final(self).flexible() == old(self).flexible(),
            r is Ok,
            final(self).written() == old(self).written() + uuid_wire(v.msb, v.lsb),
    {
        self.serializer.emit_uuid(v)
    }

    /// Write the bit pattern of a 64-bit floating-point value.
    pub fn emit_float64_bits(&mut self, bits: u64) -> (r: Result<(), Error>)
        ensures
            final(self).flexible() == old(self).flexible(),
            r is Ok,
            final(self).written() == old(self).written() + be_bytes_64(bits),
    {
        self.serializer.emit_float64_bits(bits)
    }

    /// Write a string in whichever encoding the flag selects.
    pub fn emit_string(&mut self, v: &str) -> (r: Result<(), Error>)
        ensures
            final(self).flexible() == old(self).flexible(),
            r is Ok <==> string_fits(v@, old(self).flexible()),
            r is Ok ==> final(self).written() == old(self).written() + string_wire(
                v@,
                old(self).flexible(),
            ),
            r is Err ==> final(self).written() == old(self).written() && r == Err::<(), Error>(
                Error::BoundsCheck,
            ),
    {
        if self.use_flexible {
            self.serializer.emit_compact_string(v)
        } else {
            self.serializer.emit_string(v)
        }
    }

    /// Write a nullable string in whichever encoding the flag selects.
    pub fn emit_nullable_string(&mut self, v: Option<&str>) -> (r: Result<(), Error>)
        ensures
            final(self).flexible() == old(self).flexible(),
            r is Ok <==> nullable_string_fits(option_str_view(v), old(self).flexible()),
            r is Ok ==> final(self).written() == old(self).written() + nullable_string_wire(
                option_str_view(v),
                old(self).flexible(),
            ),
            r is Err ==> final(self).written() == old(self).written() && r == Err::<(), Error>(
                Error::BoundsCheck,
            ),
    {
        if self.use_flexible {
            self.serializer.emit_compact_nullable_string(v)
        } else {
            self.serializer.emit_nullable_string(v)
        }
    }

    /// Write a byte string in whichever encoding the flag selects.
    pub fn emit_bytes(&mut self, v: &[u8]) -> (r: Result<(), Error>)
        ensures
            final(self).flexible() == old(self).flexible(),
            r is Ok <==> bytes_fits(v@, old(self).flexible()),
            r is Ok ==> final(self).written() == old(self).written() + bytes_wire(
                v@,
                old(self).flexible(),
            ),
            r is Err ==> final(self).written() == old(self).written() && r == Err::<(), Error>(
                Error::BoundsCheck,
            ),
    {
        if self.use_flexible {
            self.serializer.emit_compact_bytes(v)
        } else {
            self.serializer.emit_bytes(v)
        }
    }

    /// Write nullable bytes in whichever encoding the flag selects.
    pub fn emit_nullable_bytes(&mut self, v: Option<&[u8]>) -> (r: Result<(), Error>)
        ensures
            final(self).flexible() == old(self).flexible(),
            r is Ok <==> nullable_bytes_fits(option_bytes_view(v), old(self).flexible()),
            r is Ok ==> final(self).written() == old(self).written() + nullable_bytes_wire(
                option_bytes_view(v),
                old(self).flexible(),
            ),
            r is Err ==> final(self).written() == old(self).written() && r == Err::<(), Error>(
                Error::BoundsCheck,
            ),
    {
        if self.use_flexible {
            self.serializer.emit_compact_nullable_bytes(v)
        } else {
            self.serializer.emit_nullable_bytes(v)
        }
    }

    /// Write an array: its header in whichever encoding the flag selects,
    /// then every element in order through the element type's own
    /// encoder.
    pub fn emit_array<T: KafkaProtoEncodable>(&mut self, v: &Vec<T>) -> (r: Result<(), Error>)
        ensures
            final(self).flexible() == old(self).flexible(),
            r is Ok <==> array_hdr_fits(v@.len(), old(self).flexible()) && elems_fit(
                v@,
                old(self).flexible(),
            ),
            r is Ok ==> final(self).written() == old(self).written() + array_hdr_wire(
                v@.len(),
                old(self).flexible(),
            ) + elems_wire(v@, old(self).flexible()),
    {
        let ghost flex = self.flexible();
        let ghost w0 = self.written();
        let hdr = if self.use_flexible {
            self.serializer.emit_compact_array_hdr(v.len())
        } else {
            self.serializer.emit_array_hdr(v.len())
        };
        match hdr {
            Ok(()) => (),
            Err(e) => {
                return Err(e);
            },
        }
        let ghost w1 = self.written();
        let mut k: usize = 0;
        while k < v.len()
            invariant
                k <= v@.len(),
                self.flexible() == flex,
                flex == old(self).flexible(),
                w0 == old(self).written(),
                w1 == w0 + array_hdr_wire(v@.len(), flex),
                self.written() == w1 + elems_wire(v@.take(k as int), flex),
                forall|i: int| 0 <= i < k ==> v@[i].fits(0, flex),
            decreases v@.len() - k,
        {
            match v[k].serialize(0, self) {
                Ok(()) => (),
                Err(e) => {
                    return Err(e);
                },
            }
            proof {
                lemma_elems_wire_push(v@.take(k as int), v@[k as int], flex);
                assert(v@.take(k as int).push(v@[k as int]) =~= v@.take(k as int + 1));
                assert(self.written() =~= w1 + elems_wire(v@.take(k as int + 1), flex));
            }
            k = k + 1;
        }
        proof {
            assert(v@.take(v@.len() as int) =~= v@);
        }
        Ok(())
    }
}

/// Encode one message: a request header, then the body, written through
/// one sink so that both share the physical-encoding decision.
///
/// The compact encodings are switched on when `ver` reaches the message
/// type's flexible threshold; the header's own wire version is then 2
/// rather than 1, a protocol convention derived from the same threshold.
/// The correlation id is written as 0: assigning one is the caller's
/// business.
pub fn serialize_message<M: KafkaProtoEncodable + crate::Request>(
    m: &M,
    ver: i16,
    client_id: &str,
) -> (r: Result<Vec<u8>, Error>)
    ensures
        ({
            let flexible = ver >= M::FLEXIBLE_VERSION;
            let hdr_ver: i16 = if flexible {
                2
            } else {
                1
            };
            &&& r is Ok <==> crate::messages::request_header_fits(client_id@, hdr_ver) && m.fits(
                ver,
                flexible,
            )
            &&& r matches Ok(out) ==> out@ == crate::messages::request_header_wire(
                M::API_KEY,
                ver,
                0,
                client_id@,
                hdr_ver,
            ) + m.wire(ver, flexible)
        }),
{
    let hdr = crate::messages::RequestHeader {
        request_api_key: M::API_KEY,
        request_api_version: ver,
        correlation_id: 0,
        client_id,
    };
    let is_flexible = ver >= M::FLEXIBLE_VERSION;
    let hdr_ver: i16 = if is_flexible {
        2
    } else {
        1
    };
    let mut s = KafkaFlexiSerializer::new(is_flexible);
    match hdr.serialize(hdr_ver, &mut s.serializer) {
        Ok(()) => (),
        Err(e) => {
            return Err(e);
        },
    }
    match m.serialize(ver, &mut s) {
        Ok(()) => (),
        Err(e) => {
            return Err(e);
        },
    }
    Ok(s.into_bytes())
}

} // verus!
