//! Message framing: the headers that precede every request and response
//! body, and an illustrative message binding.

mod join_group;
mod join_group_laws;
mod request_header;
mod response_header;

pub use join_group::{
    entries_insert, entries_remove, join_group_body_fits, join_group_body_wire,
    parse_join_group_body, parse_join_group_head, parse_join_group_prefix, parse_join_group_tail,
    parse_protocol, parse_protocols, protocol_fits, protocol_wire, protocols_wire,
    JoinGroupRequest, JoinGroupRequestProtocol, JoinGroupRequestView, ProtocolEntry, ProtocolName,
};
pub use join_group_laws::{
    entries_wf, lemma_join_group_body_round_trip, lemma_protocol_round_trip,
};
pub use request_header::{request_header_fits, request_header_wire, RequestHeader};
pub use response_header::{response_header_wire, ResponseHeader};
