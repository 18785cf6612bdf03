//! The header written in front of every request body.

use vstd::prelude::*;

use crate::error::Error;
use crate::ser::KafkaSerializer;
use crate::wire::{be_bytes_16, be_bytes_32, string_fits, string_wire};

verus! {

/// Request header: message type, version, correlation id and, from header
/// version 1 on, the client id.
pub struct RequestHeader<'a> {
    /// Protocol identifier of the message type that follows.
    pub request_api_key: i16,
    /// Version the message body is encoded at.
    pub request_api_version: i16,
    /// Caller-assigned id that matches a response to its request.
    pub correlation_id: i32,
    /// Name under which the client introduces itself.
    pub client_id: &'a str,
}

/// Wire form of a request header at header version `hdr_ver`: two 16-bit
/// values and a 32-bit value, big-endian, then the client id as a legacy
/// string whenever `hdr_ver` is positive.
pub open spec fn request_header_wire(
    api_key: i16,
    api_version: i16,
    correlation_id: i32,
    client_id: Seq<char>,
    hdr_ver: i16,
) -> Seq<u8> {
    be_bytes_16(api_key as u16) + be_bytes_16(api_version as u16) + be_bytes_32(
        correlation_id as u32,
    ) + if hdr_ver > 0 {
        string_wire(client_id, false)
    } else {
        Seq::empty()
    }
}

/// Whether a request header can be written: only the client id carries a
/// length prefix.
pub open spec fn request_header_fits(client_id: Seq<char>, hdr_ver: i16) -> bool {
    hdr_ver > 0 ==> string_fits(client_id, false)
}

impl<'a> RequestHeader<'a> {
    /// Write the header at header version `ver` through a plain encoder:
    /// the header's own fields never use the compact encodings.
    pub fn serialize(&self, ver: i16, s: &mut KafkaSerializer) -> (r: Result<(), Error>)
        ensures
            r is Ok <==> request_header_fits(self.client_id@, ver),
            r is Ok ==> final(s).written() == old(s).written() + request_header_wire(
                self.request_api_key,
                self.request_api_version,
                self.correlation_id,
                self.client_id@,
                ver,
            ),
            r is Err ==> r == Err::<(), Error>(Error::BoundsCheck),
    {
        match self.emit_fixed(s) {
            Ok(()) => (),
            Err(e) => {
                return Err(e);
            },
        }
        if ver > 0 {
            match s.emit_string(self.client_id) {
                Ok(()) => (),
                Err(e) => {
                    return Err(e);
                },
            }
        }
        proof {
            assert(s.written() =~= old(s).written() + request_header_wire(
                self.request_api_key,
                self.request_api_version,
                self.correlation_id,
                self.client_id@,
                ver,
            ));
        }
        Ok(())
    }

    /// Write the three fixed-width fields.
    fn emit_fixed(&self, s: &mut KafkaSerializer) -> (r: Result<(), Error>)
        ensures
            r is Ok,
            final(s).written() == old(s).written() + be_bytes_16(self.request_api_key as u16)
                + be_bytes_16(self.request_api_version as u16) + be_bytes_32(
                self.correlation_id as u32,
            ),
    {
        match s.emit_int16(self.request_api_key) {
            Ok(()) => (),
            Err(e) => {
                return Err(e);
            },
        }
        match s.emit_int16(self.request_api_version) {
            Ok(()) => (),
            Err(e) => {
                return Err(e);
            },
        }
        match s.emit_int32(self.correlation_id) {
            Ok(()) => (),
            Err(e) => {
                return Err(e);
            },
        }
        proof {
            assert(s.written() =~= old(s).written() + be_bytes_16(self.request_api_key as u16)
                + be_bytes_16(self.request_api_version as u16) + be_bytes_32(
                self.correlation_id as u32,
            ));
        }
        Ok(())
    }
}

} // verus!
