//! Codec for the Kafka binary wire protocol.
//!
//! The crate converts typed request/response values to and from the exact
//! byte sequences that brokers understand, across protocol versions that
//! differ in which fields exist and in how length-prefixed values are
//! encoded ("legacy" fixed-width prefixes versus "compact" varint prefixes).

use vstd::prelude::*;

pub mod de;
pub mod error;
pub mod messages;
pub mod ser;
pub mod wire;

verus! {

/// A UUID as the wire carries it: sixteen bytes, split into the most and
/// least significant big-endian halves.
#[derive(Clone, Copy, Debug, PartialEq, Eq, Structural)]
pub struct KafkaUuid {
    /// The first eight wire bytes, big-endian.
    pub msb: u64,
    /// The last eight wire bytes, big-endian.
    pub lsb: u64,
}

/// A message type of the protocol: the constants that message framing
/// needs to build a header and to pick between the legacy and compact
/// encodings.
pub trait Request {
    /// Protocol identifier of this message type.
    const API_KEY: i16;

    /// Lowest version this message type supports.
    const MIN_API_VERSION: i16;

    /// Highest version this message type supports.
    const MAX_API_VERSION: i16;

    /// First version at which this message type uses the compact
    /// encodings.
    const FLEXIBLE_VERSION: i16;

    /// The message type answering this one.
    type Response;
}

/// Identifier of a transactional producer.
pub type TransactionalId = String;

/// Identifier assigned to a producer.
pub type ProducerId = i64;

/// Identifier of a consumer group.
pub type GroupId = String;

/// Name of a topic.
pub type TopicName = String;

/// Identifier of a broker.
pub type BrokerId = i32;

} // verus!
