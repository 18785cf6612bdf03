//! An illustrative message binding: the request that joins a consumer
//! group.
//!
//! The binding is mechanical: it walks the fields in wire order, gates
//! each field on the version that introduced it, and leaves every byte of
//! physical encoding to the flexible encoder or decoder it is handed.

use linked_hash_map::LinkedHashMap;
use vstd::prelude::*;

use crate::error::Error;
use crate::de::{KafkaFlexiDeserializer, KafkaProtoDecodable};
use crate::ser::{elems_fit, elems_wire, KafkaFlexiSerializer, KafkaProtoEncodable};
use crate::wire::{
    array_hdr_fits, array_hdr_wire, be_bytes_32, bytes_fits, bytes_wire, nullable_string_fits,
    nullable_string_wire, parse_array_hdr, parse_bytes, parse_nullable_string, parse_string,
    parse_u32, string_fits, string_wire,
};
use crate::{GroupId, Request};

verus! {

broadcast use crate::wire::group_parse_bounds;

/// Name under which a protocol is offered.
pub type ProtocolName = String;

/// The protocols-map model: for each entry its key, then the protocol's
/// name and metadata.
pub type ProtocolEntry = (Seq<char>, (Seq<char>, Seq<u8>));

#[verifier::external_type_specification]
#[verifier::external_body]
#[verifier::reject_recursive_types(K)]
#[verifier::reject_recursive_types(V)]
#[verifier::reject_recursive_types(S)]
pub struct ExLinkedHashMap<K, V, S>(LinkedHashMap<K, V, S>);

/// What a protocols map holds, in the map's iteration order: for each
/// entry its key and its protocol's fields.
pub uninterp spec fn protocols_model(
    m: LinkedHashMap<ProtocolName, JoinGroupRequestProtocol>,
) -> Seq<ProtocolEntry>;

/// The entries with the first entry under `k`, if any, taken out.  The
/// maps modelled here never hold a key twice, so this is every entry
/// under `k`.
pub open spec fn entries_remove(es: Seq<ProtocolEntry>, k: Seq<char>) -> Seq<ProtocolEntry>
    decreases es.len(),
{
    if es.len() == 0 {
        Seq::empty()
    } else if es[0].0 == k {
        es.drop_first()
    } else {
        seq![es[0]] + entries_remove(es.drop_first(), k)
    }
}

/// What inserting under a key does to the entries of an insertion-ordered
/// map: an entry already under that key leaves its place, and the new
/// entry joins at the back.
pub open spec fn entries_insert(
    es: Seq<ProtocolEntry>,
    k: Seq<char>,
    v: (Seq<char>, Seq<u8>),
) -> Seq<ProtocolEntry> {
    entries_remove(es, k).push((k, v))
}

/// Relies on linked_hash_map::LinkedHashMap::with_capacity: the new map
/// is empty.
#[verifier::external_body]
fn protocols_with_capacity(capacity: usize) -> (m: LinkedHashMap<
    ProtocolName,
    JoinGroupRequestProtocol,
>)
    ensures
        protocols_model(m) == Seq::<ProtocolEntry>::empty(),
{
    LinkedHashMap::with_capacity(capacity)
}

/// Relies on linked_hash_map::LinkedHashMap::insert: a key not yet
/// present is attached at the back; a key already present keeps the map's
/// size, takes the new value and moves to the back of the iteration
/// order.
#[verifier::external_body]
fn protocols_insert(
    m: &mut LinkedHashMap<ProtocolName, JoinGroupRequestProtocol>,
    k: ProtocolName,
    v: JoinGroupRequestProtocol,
)
    ensures
        protocols_model(*final(m)) == entries_insert(
            protocols_model(*old(m)),
            k@,
            (v.name@, v.metadata@),
        ),
{
    m.insert(k, v);
}

/// Relies on linked_hash_map::LinkedHashMap::values: the values come out
/// in the map's iteration order.
#[verifier::external_body]
fn protocols_values(m: &LinkedHashMap<ProtocolName, JoinGroupRequestProtocol>) -> (r: Vec<
    JoinGroupRequestProtocol,
>)
    ensures
        r@.len() == protocols_model(*m).len(),
        forall|i: int|
            0 <= i < r@.len() ==> (#[trigger] r@[i]).name@ == protocols_model(*m)[i].1.0
                && r@[i].metadata@ == protocols_model(*m)[i].1.1,
{
    m.values().cloned().collect()
}

/// One protocol a member offers when joining: a name and opaque metadata.
#[derive(Clone)]
pub struct JoinGroupRequestProtocol {
    /// Name under which the protocol is offered.
    pub name: ProtocolName,
    /// Protocol-specific payload, not interpreted by the codec.
    pub metadata: Vec<u8>,
}

/// Wire form of one protocol entry: its name, then its metadata.
pub open spec fn protocol_wire(name: Seq<char>, metadata: Seq<u8>, flexible: bool) -> Seq<u8> {
    string_wire(name, flexible) + bytes_wire(metadata, flexible)
}

/// Whether one protocol entry fits its length prefixes.
pub open spec fn protocol_fits(name: Seq<char>, metadata: Seq<u8>, flexible: bool) -> bool {
    string_fits(name, flexible) && bytes_fits(metadata, flexible)
}

/// Bounds for [`parse_protocol`].
pub broadcast proof fn lemma_parse_protocol_bounds(s: Seq<u8>, flexible: bool)
    ensures
        (#[trigger] parse_protocol(s, flexible)) matches Ok(p) ==> 0 < p.1 <= s.len(),
{
}

/// Parse one protocol entry.
pub open spec fn parse_protocol(s: Seq<u8>, flexible: bool) -> Result<
    ((Seq<char>, Seq<u8>), int),
    Error,
> {
    match parse_string(s, flexible) {
        Ok((name, n)) => match parse_bytes(s.skip(n), flexible) {
            Ok((meta, m)) => Ok(((name, meta), n + m)),
            Err(e) => Err(e),
        },
        Err(e) => Err(e),
    }
}

impl View for JoinGroupRequestProtocol {
    type V = (Seq<char>, Seq<u8>);

    open spec fn view(&self) -> (Seq<char>, Seq<u8>) {
        (self.name@, self.metadata@)
    }
}

impl KafkaProtoEncodable for JoinGroupRequestProtocol {
    open spec fn wire(&self, ver: i16, flexible: bool) -> Seq<u8> {
        protocol_wire(self.name@, self.metadata@, flexible)
    }

    open spec fn fits(&self, ver: i16, flexible: bool) -> bool {
        protocol_fits(self.name@, self.metadata@, flexible)
    }

    fn serialize(&self, ver: i16, s: &mut KafkaFlexiSerializer) -> (r: Result<(), Error>) {
        match s.emit_string(self.name.as_str()) {
            Ok(()) => (),
            Err(e) => {
                return Err(e);
            },
        }
        match s.emit_bytes(self.metadata.as_slice()) {
            Ok(()) => (),
            Err(e) => {
                return Err(e);
            },
        }
        proof {
            assert(s.written() =~= old(s).written() + self.wire(ver, old(s).flexible()));
        }
        Ok(())
    }
}

/// The bytes of a run of protocol entries, in order.
pub open spec fn protocols_wire(ps: Seq<ProtocolEntry>, flexible: bool) -> Seq<u8>
    decreases ps.len(),
{
    if ps.len() == 0 {
        Seq::empty()
    } else {
        protocol_wire(ps[0].1.0, ps[0].1.1, flexible) + protocols_wire(ps.drop_first(), flexible)
    }
}

/// A vector of protocol values writes the same bytes as the entries it
/// models.
proof fn lemma_protocols_wire_correspond(
    vals: Seq<JoinGroupRequestProtocol>,
    ps: Seq<ProtocolEntry>,
    flexible: bool,
)
    requires
        vals.len() == ps.len(),
        forall|i: int|
            0 <= i < vals.len() ==> (#[trigger] vals[i]).name@ == ps[i].1.0 && vals[i].metadata@
                == ps[i].1.1,
    ensures
        elems_wire(vals, flexible) == protocols_wire(ps, flexible),
        elems_fit(vals, flexible) <==> (forall|i: int|
            0 <= i < ps.len() ==> protocol_fits(ps[i].1.0, ps[i].1.1, flexible)),
    decreases vals.len(),
{
    if vals.len() > 0 {
        assert(forall|i: int|
            0 <= i < vals.drop_first().len() ==> (#[trigger] vals.drop_first()[i]).name@
                == ps.drop_first()[i].1.0 && vals.drop_first()[i].metadata@
                == ps.drop_first()[i].1.1);
        lemma_protocols_wire_correspond(vals.drop_first(), ps.drop_first(), flexible);
        assert(elems_wire(vals, flexible) =~= protocols_wire(ps, flexible));
    }
    if elems_fit(vals, flexible) {
        assert forall|i: int| 0 <= i < ps.len() implies protocol_fits(
            ps[i].1.0,
            ps[i].1.1,
            flexible,
        ) by {
            assert(vals[i].fits(0, flexible));
        }
    }
    if forall|i: int| 0 <= i < ps.len() ==> protocol_fits(ps[i].1.0, ps[i].1.1, flexible) {
        assert forall|i: int| 0 <= i < vals.len() implies vals[i].fits(0, flexible) by {
            assert(protocol_fits(ps[i].1.0, ps[i].1.1, flexible));
        }
        assert(elems_fit(vals, flexible));
    }
}

/// A request to join a consumer group.
pub struct JoinGroupRequest {
    /// The group to join.
    pub group_id: GroupId,
    /// How long the coordinator waits for a heartbeat before dropping the
    /// member.
    pub session_timeout_ms: i32,
    /// How long the coordinator waits for this member during a rebalance.
    /// Introduced at version 1; -1 below it.
    pub rebalance_timeout_ms: i32,
    /// The member id the coordinator assigned, or empty on first contact.
    pub member_id: String,
    /// A user-set id that outlives restarts.  Introduced at version 5.
    pub group_instance_id: Option<String>,
    /// The class of protocols offered, such as "consumer".
    pub protocol_type: String,
    /// The protocols the member can work with, keyed by name, in
    /// insertion order.
    pub protocols: LinkedHashMap<ProtocolName, JoinGroupRequestProtocol>,
}

/// Mathematical view of a join-group request.
#[verifier::ext_equal]
pub struct JoinGroupRequestView {
    /// The group to join.
    pub group_id: Seq<char>,
    /// Session timeout in milliseconds.
    pub session_timeout_ms: i32,
    /// Rebalance timeout in milliseconds.
    pub rebalance_timeout_ms: i32,
    /// The member id.
    pub member_id: Seq<char>,
    /// The instance id, when one is set.
    pub group_instance_id: Option<Seq<char>>,
    /// The class of protocols offered.
    pub protocol_type: Seq<char>,
    /// The protocols offered, each under its key.
    pub protocols: Seq<ProtocolEntry>,
}

impl View for JoinGroupRequest {
    type V = JoinGroupRequestView;

    open spec fn view(&self) -> JoinGroupRequestView {
        JoinGroupRequestView {
            group_id: self.group_id@,
            session_timeout_ms: self.session_timeout_ms,
            rebalance_timeout_ms: self.rebalance_timeout_ms,
            member_id: self.member_id@,
            group_instance_id: match self.group_instance_id {
                Option::Some(ref s) => Option::Some(s@),
                Option::None => Option::None,
            },
            protocol_type: self.protocol_type@,
            protocols: protocols_model(self.protocols),
        }
    }
}

/// Wire form of a join-group request body: the fields in order, each
/// written only from the version that introduced it.
pub open spec fn join_group_body_wire(v: JoinGroupRequestView, ver: i16, flexible: bool) -> Seq<
    u8,
> {
    string_wire(v.group_id, flexible) + be_bytes_32(v.session_timeout_ms as u32) + (if ver >= 1 {
        be_bytes_32(v.rebalance_timeout_ms as u32)
    } else {
        Seq::empty()
    }) + string_wire(v.member_id, flexible) + (if ver >= 5 {
        nullable_string_wire(v.group_instance_id, flexible)
    } else {
        Seq::empty()
    }) + string_wire(v.protocol_type, flexible) + array_hdr_wire(v.protocols.len(), flexible)
        + protocols_wire(v.protocols, flexible)
}

/// Whether every length in a join-group request fits its prefix.
pub open spec fn join_group_body_fits(v: JoinGroupRequestView, ver: i16, flexible: bool) -> bool {
    &&& string_fits(v.group_id, flexible)
    &&& string_fits(v.member_id, flexible)
    &&& (ver >= 5 ==> nullable_string_fits(v.group_instance_id, flexible))
    &&& string_fits(v.protocol_type, flexible)
    &&& array_hdr_fits(v.protocols.len(), flexible)
    &&& (forall|i: int|
        0 <= i < v.protocols.len() ==> protocol_fits(v.protocols[i].1.0, v.protocols[i].1.1, flexible))
}

impl KafkaProtoEncodable for JoinGroupRequest {
    open spec fn wire(&self, ver: i16, flexible: bool) -> Seq<u8> {
        join_group_body_wire(self@, ver, flexible)
    }

    open spec fn fits(&self, ver: i16, flexible: bool) -> bool {
        join_group_body_fits(self@, ver, flexible)
    }

    #[verifier::rlimit(100)]
    fn serialize(&self, ver: i16, s: &mut KafkaFlexiSerializer) -> (r: Result<(), Error>) {
        let ghost flex = s.flexible();
        let ghost w0 = s.written();
        let ghost p1 = string_wire(self.group_id@, flex);
        let ghost p2 = be_bytes_32(self.session_timeout_ms as u32);
        let ghost p3 = if ver >= 1 {
            be_bytes_32(self.rebalance_timeout_ms as u32)
        } else {
            Seq::<u8>::empty()
        };
        let ghost p4 = string_wire(self.member_id@, flex);
        let ghost p5 = if ver >= 5 {
            nullable_string_wire(self@.group_instance_id, flex)
        } else {
            Seq::<u8>::empty()
        };
        let ghost p6 = string_wire(self.protocol_type@, flex);
        let ghost p7 = array_hdr_wire(self@.protocols.len(), flex);
        let ghost p8 = protocols_wire(self@.protocols, flex);
        match s.emit_string(self.group_id.as_str()) {
            Ok(()) => (),
            Err(e) => {
                return Err(e);
            },
        }
        match s.emit_int32(self.session_timeout_ms) {
            Ok(()) => (),
            Err(e) => {
                return Err(e);
            },
        }
        proof {
            assert(s.written() =~= w0 + (p1 + p2));
        }
        if ver >= 1 {
            match s.emit_int32(self.rebalance_timeout_ms) {
                Ok(()) => (),
                Err(e) => {
                    return Err(e);
                },
            }
        }
        proof {
            assert(s.written() =~= w0 + (p1 + p2 + p3));
        }
        match s.emit_string(self.member_id.as_str()) {
            Ok(()) => (),
            Err(e) => {
                return Err(e);
            },
        }
        proof {
            assert(s.written() =~= w0 + (p1 + p2 + p3 + p4));
        }
        if ver >= 5 {
            let gii: Option<&str> = match &self.group_instance_id {
                Some(x) => Some(x.as_str()),
                None => None,
            };
            proof {
                assert(crate::ser::option_str_view(gii) == self@.group_instance_id);
            }
            match s.emit_nullable_string(gii) {
                Ok(()) => (),
                Err(e) => {
                    return Err(e);
                },
            }
        }
        proof {
            assert(s.written() =~= w0 + (p1 + p2 + p3 + p4 + p5));
        }
        match s.emit_string(self.protocol_type.as_str()) {
            Ok(()) => (),
            Err(e) => {
                return Err(e);
            },
        }
        proof {
            assert(s.written() =~= w0 + (p1 + p2 + p3 + p4 + p5 + p6));
        }
        let vals = protocols_values(&self.protocols);
        proof {
            lemma_protocols_wire_correspond(vals@, protocols_model(self.protocols), flex);
        }
        match s.emit_array(&vals) {
            Ok(()) => (),
            Err(e) => {
                return Err(e);
            },
        }
        proof {
            assert(s.written() =~= w0 + (p1 + p2 + p3 + p4 + p5 + p6 + p7 + p8));
        }
        Ok(())
    }
}

/// Parse `count` protocol entries, folding each into the entries built so
/// far the way an insertion-ordered map does.
pub open spec fn parse_protocols(
    s: Seq<u8>,
    count: int,
    acc: Seq<ProtocolEntry>,
    flexible: bool,
) -> Result<(Seq<ProtocolEntry>, int), Error>
    decreases count,
{
    if count <= 0 {
        Ok((acc, 0))
    } else {
        match parse_protocol(s, flexible) {
            Ok(((name, meta), n)) => match parse_protocols(
                s.skip(n),
                count - 1,
                entries_insert(acc, name, (name, meta)),
                flexible,
            ) {
                Ok((es, m)) => Ok((es, n + m)),
                Err(e) => Err(e),
            },
            Err(e) => Err(e),
        }
    }
}

/// The first fields of a join-group request: the group id, the session
/// timeout, and, from version 1 on, the rebalance timeout, which defaults
/// to -1 below that.
#[verifier::opaque]
pub open spec fn parse_join_group_head(s: Seq<u8>, ver: i16, flexible: bool) -> Result<
    ((Seq<char>, i32, i32), int),
    Error,
> {
    match parse_string(s, flexible) {
        Err(e) => Err(e),
        Ok((group_id, n1)) => match parse_u32(s.skip(n1)) {
            Err(e) => Err(e),
            Ok((st, k2)) => {
                let n2 = n1 + k2;
                match (if ver >= 1 {
                    parse_u32(s.skip(n2))
                } else {
                    Ok((0xffffffffu32, 0int))
                }) {
                    Err(e) => Err(e),
                    Ok((rt, k3)) => Ok(((group_id, st as i32, rt as i32), n2 + k3)),
                }
            },
        },
    }
}

/// The remaining fields before the protocols array: the member id, from
/// version 5 on the instance id (absent below that), the protocol class,
/// and the declared protocol count.
#[verifier::opaque]
pub open spec fn parse_join_group_tail(s: Seq<u8>, ver: i16, flexible: bool) -> Result<
    ((Seq<char>, Option<Seq<char>>, Seq<char>, int), int),
    Error,
> {
    match parse_string(s, flexible) {
        Err(e) => Err(e),
        Ok((member_id, k4)) => {
            match (if ver >= 5 {
                parse_nullable_string(s.skip(k4), flexible)
            } else {
                Ok((Option::<Seq<char>>::None, 0int))
            }) {
                Err(e) => Err(e),
                Ok((gii, k5)) => {
                    let n5 = k4 + k5;
                    match parse_string(s.skip(n5), flexible) {
                        Err(e) => Err(e),
                        Ok((ptype, k6)) => {
                            let n6 = n5 + k6;
                            match parse_array_hdr(s.skip(n6), flexible) {
                                Err(e) => Err(e),
                                Ok((count, k7)) => Ok(((member_id, gii, ptype, count), n6 + k7)),
                            }
                        },
                    }
                },
            }
        },
    }
}

/// The fields of a join-group request that precede the protocols array,
/// as one parse.  The last component is the declared protocol count.
pub open spec fn parse_join_group_prefix(s: Seq<u8>, ver: i16, flexible: bool) -> Result<
    ((Seq<char>, i32, i32, Seq<char>, Option<Seq<char>>, Seq<char>, int), int),
    Error,
> {
    match parse_join_group_head(s, ver, flexible) {
        Err(e) => Err(e),
        Ok((h, n)) => match parse_join_group_tail(s.skip(n), ver, flexible) {
            Err(e) => Err(e),
            Ok((t, m)) => Ok(((h.0, h.1, h.2, t.0, t.1, t.2, t.3), n + m)),
        },
    }
}

/// Parse a join-group request body: the fields before the protocols
/// array, then that many protocol entries.
pub open spec fn parse_join_group_body(s: Seq<u8>, ver: i16, flexible: bool) -> Result<
    (JoinGroupRequestView, int),
    Error,
> {
    match parse_join_group_prefix(s, ver, flexible) {
        Err(e) => Err(e),
        Ok((f, n)) => match parse_protocols(s.skip(n), f.6, Seq::empty(), flexible) {
            Err(e) => Err(e),
            Ok((entries, m)) => Ok(
                (
                    JoinGroupRequestView {
                        group_id: f.0,
                        session_timeout_ms: f.1,
                        rebalance_timeout_ms: f.2,
                        member_id: f.3,
                        group_instance_id: f.4,
                        protocol_type: f.5,
                        protocols: entries,
                    },
                    n + m,
                ),
            ),
        },
    }
}

/// Bounds for [`parse_join_group_head`].
pub broadcast proof fn lemma_parse_join_group_head_bounds(s: Seq<u8>, ver: i16, flexible: bool)
    ensures
        (#[trigger] parse_join_group_head(s, ver, flexible)) matches Ok(p) ==> 0 < p.1 <= s.len(),
{
    reveal(parse_join_group_head);
}

/// Bounds for [`parse_join_group_tail`]: the declared count too is
/// non-negative.
pub broadcast proof fn lemma_parse_join_group_tail_bounds(s: Seq<u8>, ver: i16, flexible: bool)
    ensures
        (#[trigger] parse_join_group_tail(s, ver, flexible)) matches Ok(p) ==> 0 < p.1 <= s.len()
            && 0 <= p.0.3,
{
    reveal(parse_join_group_tail);
}

/// Bounds for [`parse_join_group_prefix`]: the declared count too is
/// non-negative.
pub broadcast proof fn lemma_parse_join_group_prefix_bounds(s: Seq<u8>, ver: i16, flexible: bool)
    ensures
        (#[trigger] parse_join_group_prefix(s, ver, flexible)) matches Ok(p) ==> 0 < p.1 <= s.len()
            && 0 <= p.0.6,
{
    lemma_parse_join_group_head_bounds(s, ver, flexible);
    match parse_join_group_head(s, ver, flexible) {
        Ok((h, n)) => {
            lemma_parse_join_group_tail_bounds(s.skip(n), ver, flexible);
        },
        Err(_) => {},
    }
}

/// The offset bounds of this binding's parsers, used where one parse
/// follows another.
pub broadcast group group_join_group_parse_bounds {
    lemma_parse_protocol_bounds,
    lemma_parse_join_group_head_bounds,
    lemma_parse_join_group_tail_bounds,
    lemma_parse_join_group_prefix_bounds,
}

/// Read the first fields of a join-group request.
#[verifier::rlimit(100)]
fn read_join_group_head(ver: i16, d: &mut KafkaFlexiDeserializer) -> (r: Result<
    (GroupId, i32, i32),
    Error,
>)
    requires
        old(d).wf(),
    ensures
        final(d).wf(),
        final(d).data() == old(d).data(),
        final(d).flexible() == old(d).flexible(),
        match parse_join_group_head(old(d).rest(), ver, old(d).flexible()) {
            Ok((f, n)) => r matches Ok(t) && t.0@ == f.0 && t.1 == f.1 && t.2 == f.2 && final(d).pos() == old(d).pos() + n,
            Err(e) => r matches Err(e2) && e2 == e && old(d).pos() <= final(d).pos(),
        },
{
    proof {
        reveal(parse_join_group_head);
    }
    let ghost s0 = old(d).rest();
    let ghost pos0 = old(d).pos();
    let group_id = match d.read_string() {
        Ok(v) => v,
        Err(e) => {
            return Err(e);
        },
    };
    proof {
        assert(d.rest() =~= s0.skip(d.pos() - pos0));
    }
    let session_timeout_ms = match d.read_int32() {
        Ok(v) => v,
        Err(e) => {
            return Err(e);
        },
    };
    proof {
        assert(d.rest() =~= s0.skip(d.pos() - pos0));
    }
    let rebalance_timeout_ms = if ver >= 1 {
        match d.read_int32() {
            Ok(v) => v,
            Err(e) => {
                return Err(e);
            },
        }
    } else {
        proof {
            assert(0xffffffffu32 as i32 == -1i32) by (bit_vector);
        }
        -1
    };
    Ok((group_id, session_timeout_ms, rebalance_timeout_ms))
}

/// Read the remaining fields before the protocols array.
#[verifier::rlimit(100)]
fn read_join_group_tail(ver: i16, d: &mut KafkaFlexiDeserializer) -> (r: Result<
    (String, Option<String>, String, usize),
    Error,
>)
    requires
        old(d).wf(),
    ensures
        final(d).wf(),
        final(d).data() == old(d).data(),
        final(d).flexible() == old(d).flexible(),
        match parse_join_group_tail(old(d).rest(), ver, old(d).flexible()) {
            Ok((f, n)) => r matches Ok(t) && t.0@ == f.0 && crate::de::option_str_view(t.1) == f.1
                && t.2@ == f.2 && t.3 as int == f.3 && final(d).pos() == old(d).pos() + n,
            Err(e) => r matches Err(e2) && e2 == e && old(d).pos() <= final(d).pos(),
        },
{
    proof {
        reveal(parse_join_group_tail);
    }
    let ghost s0 = old(d).rest();
    let ghost pos0 = old(d).pos();
    let member_id = match d.read_string() {
        Ok(v) => v,
        Err(e) => {
            return Err(e);
        },
    };
    proof {
        assert(d.rest() =~= s0.skip(d.pos() - pos0));
    }
    let group_instance_id = if ver >= 5 {
        match d.read_nullable_string() {
            Ok(v) => v,
            Err(e) => {
                return Err(e);
            },
        }
    } else {
        None
    };
    proof {
        assert(d.rest() =~= s0.skip(d.pos() - pos0));
    }
    let protocol_type = match d.read_string() {
        Ok(v) => v,
        Err(e) => {
            return Err(e);
        },
    };
    proof {
        assert(d.rest() =~= s0.skip(d.pos() - pos0));
    }
    let len = match d.read_array_hdr() {
        Ok(v) => v,
        Err(e) => {
            return Err(e);
        },
    };
    Ok((member_id, group_instance_id, protocol_type, len))
}

/// Read the fields of a join-group request that precede the protocols
/// array, and the declared protocol count.
#[verifier::rlimit(100)]
fn read_join_group_prefix(ver: i16, d: &mut KafkaFlexiDeserializer) -> (r: Result<
    (GroupId, i32, i32, String, Option<String>, String, usize),
    Error,
>)
    requires
        old(d).wf(),
    ensures
        final(d).wf(),
        final(d).data() == old(d).data(),
        final(d).flexible() == old(d).flexible(),
        match parse_join_group_prefix(old(d).rest(), ver, old(d).flexible()) {
            Ok((f, n)) => r matches Ok(t) && t.0@ == f.0 && t.1 == f.1 && t.2 == f.2 && t.3@
                == f.3 && crate::de::option_str_view(t.4) == f.4 && t.5@ == f.5 && t.6 as int
                == f.6 && final(d).pos() == old(d).pos() + n,
            Err(e) => r matches Err(e2) && e2 == e && old(d).pos() <= final(d).pos(),
        },
{
    broadcast use group_join_group_parse_bounds;

    let ghost s0 = old(d).rest();
    let ghost pos0 = old(d).pos();
    let (group_id, session_timeout_ms, rebalance_timeout_ms) = match read_join_group_head(
        ver,
        d,
    ) {
        Ok(t) => t,
        Err(e) => {
            return Err(e);
        },
    };
    proof {
        assert(d.rest() =~= s0.skip(d.pos() - pos0));
    }
    let (member_id, group_instance_id, protocol_type, len) = match read_join_group_tail(ver, d) {
        Ok(t) => t,
        Err(e) => {
            return Err(e);
        },
    };
    Ok(
        (
            group_id,
            session_timeout_ms,
            rebalance_timeout_ms,
            member_id,
            group_instance_id,
            protocol_type,
            len,
        ),
    )
}

/// Read `len` protocol entries into a fresh protocols map.
#[verifier::rlimit(100)]
fn read_join_group_protocols(len: usize, d: &mut KafkaFlexiDeserializer) -> (r: Result<
    LinkedHashMap<ProtocolName, JoinGroupRequestProtocol>,
    Error,
>)
    requires
        old(d).wf(),
    ensures
        final(d).wf(),
        final(d).data() == old(d).data(),
        final(d).flexible() == old(d).flexible(),
        match parse_protocols(
            old(d).rest(),
            len as int,
            Seq::<ProtocolEntry>::empty(),
            old(d).flexible(),
        ) {
            Ok((es, m)) => r matches Ok(mp) && protocols_model(mp) == es && final(d).pos() == old(d).pos() + m,
            Err(e) => r matches Err(e2) && e2 == e && old(d).pos() <= final(d).pos(),
        },
{
    broadcast use group_join_group_parse_bounds;

    let ghost pos0 = old(d).pos();
    let ghost data0 = old(d).data();
    let ghost flex = old(d).flexible();
    let ghost whole = parse_protocols(
        old(d).rest(),
        len as int,
        Seq::<ProtocolEntry>::empty(),
        flex,
    );
    let mut protocols = protocols_with_capacity(len);
    let mut k: usize = 0;
    while k < len
        invariant
            d.wf(),
            d.data() == data0,
            d.flexible() == flex,
            k <= len,
            pos0 <= d.pos(),
            pos0 == old(d).pos(),
            data0 == old(d).data(),
            flex == old(d).flexible(),
            whole == parse_protocols(
                old(d).rest(),
                len as int,
                Seq::<ProtocolEntry>::empty(),
                flex,
            ),
            match whole {
                Ok((es, m)) => parse_protocols(d.rest(), len - k, protocols_model(protocols), flex)
                    == Ok::<(Seq<ProtocolEntry>, int), Error>((es, m - (d.pos() - pos0))),
                Err(e) => parse_protocols(d.rest(), len - k, protocols_model(protocols), flex)
                    == Err::<(Seq<ProtocolEntry>, int), Error>(e),
            },
        decreases len - k,
    {
        let ghost rest_pre = d.rest();
        let ghost pos_pre = d.pos();
        let p = match JoinGroupRequestProtocol::deserialize(0, d) {
            Ok(v) => v,
            Err(e) => {
                return Err(e);
            },
        };
        proof {
            assert(d.rest() =~= rest_pre.skip(d.pos() - pos_pre));
        }
        let key = p.name.clone();
        protocols_insert(&mut protocols, key, p);
        k = k + 1;
    }
    proof {
        assert(parse_protocols(d.rest(), 0, protocols_model(protocols), flex) == Ok::<
            (Seq<ProtocolEntry>, int),
            Error,
        >((protocols_model(protocols), 0)));
    }
    Ok(protocols)
}

impl KafkaProtoDecodable for JoinGroupRequestProtocol {
    open spec fn parse_body(s: Seq<u8>, ver: i16, flexible: bool) -> Result<
        ((Seq<char>, Seq<u8>), int),
        Error,
    > {
        parse_protocol(s, flexible)
    }

    fn deserialize(ver: i16, d: &mut KafkaFlexiDeserializer) -> (r: Result<Self, Error>) {
        let ghost s0 = old(d).rest();
        let ghost pos0 = old(d).pos();
        let name = match d.read_string() {
            Ok(v) => v,
            Err(e) => {
                return Err(e);
            },
        };
        proof {
            assert(d.rest() =~= s0.skip(d.pos() - pos0));
        }
        let metadata = match d.read_bytes() {
            Ok(v) => v,
            Err(e) => {
                return Err(e);
            },
        };
        Ok(JoinGroupRequestProtocol { name, metadata })
    }
}

impl KafkaProtoDecodable for JoinGroupRequest {
    open spec fn parse_body(s: Seq<u8>, ver: i16, flexible: bool) -> Result<
        (JoinGroupRequestView, int),
        Error,
    > {
        parse_join_group_body(s, ver, flexible)
    }

    #[verifier::rlimit(100)]
    fn deserialize(ver: i16, d: &mut KafkaFlexiDeserializer) -> (r: Result<Self, Error>) {
        broadcast use group_join_group_parse_bounds;

        let ghost s0 = old(d).rest();
        let ghost pos0 = old(d).pos();
        let (group_id, session_timeout_ms, rebalance_timeout_ms, member_id, group_instance_id,
            protocol_type, len) = match read_join_group_prefix(ver, d) {
            Ok(t) => t,
            Err(e) => {
                return Err(e);
            },
        };
        proof {
            assert(d.rest() =~= s0.skip(d.pos() - pos0));
        }
        let protocols = match read_join_group_protocols(len, d) {
            Ok(m) => m,
            Err(e) => {
                return Err(e);
            },
        };
        Ok(
            JoinGroupRequest {
                group_id,
                session_timeout_ms,
                rebalance_timeout_ms,
                member_id,
                group_instance_id,
                protocol_type,
                protocols,
            },
        )
    }
}

impl Request for JoinGroupRequest {
    const API_KEY: i16 = 11;

    const MIN_API_VERSION: i16 = 0;

    const MAX_API_VERSION: i16 = 7;

    const FLEXIBLE_VERSION: i16 = 6;

    type Response = ();
}

} // verus!
