//! Round-trip laws for the join-group binding: parsing what the binding
//! encodes yields the encoded request back.

use vstd::prelude::*;

use crate::error::Error;
use crate::messages::join_group::{
    entries_insert, entries_remove, join_group_body_fits, join_group_body_wire,
    parse_join_group_body, parse_join_group_head, parse_join_group_tail, parse_protocol,
    parse_protocols, protocol_fits, protocol_wire, protocols_wire, JoinGroupRequestView,
    ProtocolEntry,
};
use crate::wire::{
    array_hdr_fits, array_hdr_wire, be_bytes_32, bytes_wire, nullable_string_fits,
    nullable_string_wire, string_fits, string_wire,
};

verus! {

/// One protocol entry round-trips: parsing its wire form, with anything
/// after it, yields its name and metadata.
pub proof fn lemma_protocol_round_trip(
    name: Seq<char>,
    metadata: Seq<u8>,
    tail: Seq<u8>,
    flexible: bool,
)
    requires
        protocol_fits(name, metadata, flexible),
    ensures
        parse_protocol(protocol_wire(name, metadata, flexible) + tail, flexible) == Ok::<
            ((Seq<char>, Seq<u8>), int),
            Error,
        >(((name, metadata), protocol_wire(name, metadata, flexible).len() as int)),
{
    let a = string_wire(name, flexible);
    let b = bytes_wire(metadata, flexible);
    let s = protocol_wire(name, metadata, flexible) + tail;
    assert(s =~= a + (b + tail));
    crate::wire::lemma_string_round_trip(name, b + tail, flexible);
    assert(s.skip(a.len() as int) =~= b + tail);
    crate::wire::lemma_bytes_round_trip(metadata, tail, flexible);
}

/// Entries are well formed when each key is its protocol's name and no
/// key repeats.  A map built by inserting each protocol under its name
/// satisfies this by construction.
pub open spec fn entries_wf(ps: Seq<ProtocolEntry>) -> bool {
    &&& (forall|i: int| 0 <= i < ps.len() ==> (#[trigger] ps[i]).0 == ps[i].1.0)
    &&& (forall|i: int, j: int| 0 <= i < j < ps.len() ==> ps[i].0 != ps[j].0)
}

/// Removing an absent key removes nothing.
proof fn lemma_entries_remove_absent(es: Seq<ProtocolEntry>, k: Seq<char>)
    requires
        forall|i: int| 0 <= i < es.len() ==> (#[trigger] es[i]).0 != k,
    ensures
        entries_remove(es, k) == es,
    decreases es.len(),
{
    if es.len() > 0 {
        lemma_entries_remove_absent(es.drop_first(), k);
        assert(entries_remove(es, k) =~= es);
    }
}

/// Parsing the wire form of well-formed entries folds them back, behind
/// whatever entries were folded already.
proof fn lemma_protocols_round_trip(
    ps: Seq<ProtocolEntry>,
    acc: Seq<ProtocolEntry>,
    tail: Seq<u8>,
    flexible: bool,
)
    requires
        forall|i: int|
            0 <= i < ps.len() ==> protocol_fits((#[trigger] ps[i]).1.0, ps[i].1.1, flexible),
        entries_wf(acc + ps),
    ensures
        parse_protocols(protocols_wire(ps, flexible) + tail, ps.len() as int, acc, flexible)
            == Ok::<(Seq<ProtocolEntry>, int), Error>(
            (acc + ps, protocols_wire(ps, flexible).len() as int),
        ),
    decreases ps.len(),
{
    if ps.len() == 0 {
        assert(acc + ps =~= acc);
    } else {
        let e = ps[0];
        let w0 = protocol_wire(e.1.0, e.1.1, flexible);
        let rest = protocols_wire(ps.drop_first(), flexible);
        let s = protocols_wire(ps, flexible) + tail;
        assert(s =~= w0 + (rest + tail));
        lemma_protocol_round_trip(e.1.0, e.1.1, rest + tail, flexible);
        assert((acc + ps)[acc.len() as int] == e);
        assert(e.0 == e.1.0);
        assert(forall|i: int| 0 <= i < acc.len() ==> (#[trigger] acc[i]).0 != e.1.0) by {
            assert(forall|i: int|
                0 <= i < acc.len() ==> (#[trigger] acc[i]) == (acc + ps)[i] && acc[i].0
                    != (acc + ps)[acc.len() as int].0);
        }
        lemma_entries_remove_absent(acc, e.1.0);
        assert((e.1.0, (e.1.0, e.1.1)) =~= e);
        assert(entries_insert(acc, e.1.0, (e.1.0, e.1.1)) =~= acc.push(e));
        assert(acc.push(e) + ps.drop_first() =~= acc + ps);
        assert(forall|i: int|
            0 <= i < ps.drop_first().len() ==> protocol_fits(
                (#[trigger] ps.drop_first()[i]).1.0,
                ps.drop_first()[i].1.1,
                flexible,
            ));
        lemma_protocols_round_trip(ps.drop_first(), acc.push(e), tail, flexible);
        assert(s.skip(w0.len() as int) =~= rest + tail);
    }
}

/// Round trip for the first fields of a join-group body.
#[verifier::rlimit(100)]
proof fn lemma_join_group_head_round_trip(
    gid: Seq<char>,
    st: i32,
    rt: i32,
    ver: i16,
    flexible: bool,
    tail: Seq<u8>,
)
    requires
        string_fits(gid, flexible),
        ver < 1 ==> rt == -1,
    ensures
        ({
            let w = string_wire(gid, flexible) + be_bytes_32(st as u32) + (if ver >= 1 {
                be_bytes_32(rt as u32)
            } else {
                Seq::<u8>::empty()
            });
            parse_join_group_head(w + tail, ver, flexible) == Ok::<((Seq<char>, i32, i32), int), Error>(
                ((gid, st, rt), w.len() as int),
            )
        }),
{
    reveal(parse_join_group_head);
    let p1 = string_wire(gid, flexible);
    let p2 = be_bytes_32(st as u32);
    let p3: Seq<u8> = if ver >= 1 {
        be_bytes_32(rt as u32)
    } else {
        Seq::empty()
    };
    let w = p1 + p2 + p3;
    let s = w + tail;
    let t3 = p3 + tail;
    let t2 = p2 + t3;
    assert(s =~= p1 + t2);
    crate::wire::lemma_string_round_trip(gid, t2, flexible);
    let n1 = p1.len() as int;
    assert(s.skip(n1) =~= t2);
    assert(t2.take(4) =~= p2);
    crate::wire::lemma_be_32_round_trip(st as u32);
    assert((st as u32) as i32 == st) by (bit_vector);
    let n2 = n1 + 4;
    assert(s.skip(n2) =~= t3);
    if ver >= 1 {
        assert(t3.take(4) =~= p3);
        crate::wire::lemma_be_32_round_trip(rt as u32);
        assert((rt as u32) as i32 == rt) by (bit_vector);
    } else {
        assert(0xffffffffu32 as i32 == -1i32) by (bit_vector);
    }
}

/// Round trip for the remaining fields before the protocols array.
#[verifier::rlimit(100)]
proof fn lemma_join_group_tail_round_trip(
    mid: Seq<char>,
    gii: Option<Seq<char>>,
    pt: Seq<char>,
    count: nat,
    ver: i16,
    flexible: bool,
    tail: Seq<u8>,
)
    requires
        string_fits(mid, flexible),
        string_fits(pt, flexible),
        ver >= 5 ==> nullable_string_fits(gii, flexible),
        ver < 5 ==> gii is None,
        array_hdr_fits(count, flexible),
    ensures
        ({
            let w = string_wire(mid, flexible) + (if ver >= 5 {
                nullable_string_wire(gii, flexible)
            } else {
                Seq::<u8>::empty()
            }) + string_wire(pt, flexible) + array_hdr_wire(count, flexible);
            parse_join_group_tail(w + tail, ver, flexible) == Ok::<
                ((Seq<char>, Option<Seq<char>>, Seq<char>, int), int),
                Error,
            >(((mid, gii, pt, count as int), w.len() as int))
        }),
{
    let p4 = string_wire(mid, flexible);
    let p5: Seq<u8> = if ver >= 5 {
        nullable_string_wire(gii, flexible)
    } else {
        Seq::empty()
    };
    let p6 = string_wire(pt, flexible);
    let p7 = array_hdr_wire(count, flexible);
    let w = p4 + p5 + p6 + p7;
    let s = w + tail;
    let t7 = p7 + tail;
    let t6 = p6 + t7;
    let t5 = p5 + t6;
    assert(s =~= p4 + t5);
    crate::wire::lemma_string_round_trip(mid, t5, flexible);
    let n4 = p4.len() as int;
    assert(s.skip(n4) =~= t5);
    if ver >= 5 {
        crate::wire::lemma_nullable_string_round_trip(gii, t6, flexible);
    } else {
        assert(t5 =~= t6);
    }
    let n5 = n4 + p5.len() as int;
    assert(s.skip(n5) =~= t6);
    crate::wire::lemma_string_round_trip(pt, t7, flexible);
    let n6 = n5 + p6.len() as int;
    assert(s.skip(n6) =~= t7);
    crate::wire::lemma_array_hdr_round_trip(count, tail, flexible);
    assert(parse_join_group_tail(s, ver, flexible) == Ok::<
        ((Seq<char>, Option<Seq<char>>, Seq<char>, int), int),
        Error,
    >(((mid, gii, pt, count as int), w.len() as int))) by {
        reveal(parse_join_group_tail);
    }
}

/// Round trip for a whole join-group body: encoding a request at a
/// version and parsing it back at that version yields the same request,
/// provided the fields that the version leaves off the wire already hold
/// their documented defaults.
#[verifier::rlimit(100)]
pub proof fn lemma_join_group_body_round_trip(
    v: JoinGroupRequestView,
    ver: i16,
    flexible: bool,
    tail: Seq<u8>,
)
    requires
        join_group_body_fits(v, ver, flexible),
        entries_wf(v.protocols),
        ver < 1 ==> v.rebalance_timeout_ms == -1,
        ver < 5 ==> v.group_instance_id is None,
    ensures
        parse_join_group_body(join_group_body_wire(v, ver, flexible) + tail, ver, flexible)
            == Ok::<(JoinGroupRequestView, int), Error>(
            (v, join_group_body_wire(v, ver, flexible).len() as int),
        ),
{
    let hw = string_wire(v.group_id, flexible) + be_bytes_32(v.session_timeout_ms as u32) + (
    if ver >= 1 {
        be_bytes_32(v.rebalance_timeout_ms as u32)
    } else {
        Seq::<u8>::empty()
    });
    let tw = string_wire(v.member_id, flexible) + (if ver >= 5 {
        nullable_string_wire(v.group_instance_id, flexible)
    } else {
        Seq::<u8>::empty()
    }) + string_wire(v.protocol_type, flexible) + array_hdr_wire(v.protocols.len(), flexible);
    let pw = protocols_wire(v.protocols, flexible);
    let s = join_group_body_wire(v, ver, flexible) + tail;
    assert(s =~= hw + (tw + (pw + tail)));
    lemma_join_group_head_round_trip(
        v.group_id,
        v.session_timeout_ms,
        v.rebalance_timeout_ms,
        ver,
        flexible,
        tw + (pw + tail),
    );
    assert(s.skip(hw.len() as int) =~= tw + (pw + tail));
    lemma_join_group_tail_round_trip(
        v.member_id,
        v.group_instance_id,
        v.protocol_type,
        v.protocols.len(),
        ver,
        flexible,
        pw + tail,
    );
    assert(s.skip(hw.len() as int + tw.len() as int) =~= pw + tail);
    assert(Seq::<ProtocolEntry>::empty() + v.protocols =~= v.protocols);
    lemma_protocols_round_trip(v.protocols, Seq::empty(), tail, flexible);
    assert(join_group_body_wire(v, ver, flexible).len() == hw.len() + tw.len() + pw.len());
}


} // verus!
