//! The header written in front of every response body.

use vstd::prelude::*;

use crate::de::KafkaDeserializer;
use crate::error::Error;
use crate::ser::KafkaSerializer;
use crate::wire::{be_bytes_32, parse_u32};

verus! {

/// Response header: only the correlation id of the request it answers.
pub struct ResponseHeader {
    /// The correlation id the matching request carried.
    pub correlation_id: i32,
}

/// Wire form of a response header: one big-endian 32-bit value.
pub open spec fn response_header_wire(correlation_id: i32) -> Seq<u8> {
    be_bytes_32(correlation_id as u32)
}

impl ResponseHeader {
    /// Write the header.  Its layout is the same at every header version.
    pub fn serialize(&self, _ver: i16, s: &mut KafkaSerializer) -> (r: Result<(), Error>)
        ensures
            r is Ok,
            final(s).written() == old(s).written() + response_header_wire(self.correlation_id),
    {
        s.emit_int32(self.correlation_id)
    }

    /// Read the header from the front of a response.
    pub fn deserialize(de: &mut KafkaDeserializer) -> (r: Result<ResponseHeader, Error>)
        requires
            old(de).wf(),
        ensures
            final(de).wf(),
            final(de).data() == old(de).data(),
            match parse_u32(old(de).rest()) {
                Ok((u, n)) => r matches Ok(h) && h.correlation_id == u as i32 && final(de).pos()
                    == old(de).pos() + n,
                Err(e) => r matches Err(e2) && e2 == e && final(de).pos() == old(de).pos(),
            },
    {
        match de.read_int32() {
            Ok(v) => Ok(ResponseHeader { correlation_id: v }),
            Err(e) => Err(e),
        }
    }
}

} // verus!
