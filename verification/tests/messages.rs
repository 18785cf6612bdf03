//! Message framing and the join-group binding, end to end.

use kafka_codec::de::{deserialize_message, KafkaDeserializer, KafkaFlexiDeserializer,
    KafkaProtoDecodable};
use kafka_codec::error::Error;
use kafka_codec::messages::{JoinGroupRequest, JoinGroupRequestProtocol, RequestHeader,
    ResponseHeader};
use kafka_codec::ser::{serialize_message, KafkaFlexiSerializer, KafkaProtoEncodable,
    KafkaSerializer};
use linked_hash_map::LinkedHashMap;

fn join_group(
    group_id: &str,
    session_timeout_ms: i32,
    rebalance_timeout_ms: i32,
    member_id: &str,
    group_instance_id: Option<&str>,
    protocol_type: &str,
    protocols: &[(&str, &[u8])],
) -> JoinGroupRequest {
    let mut map = LinkedHashMap::new();
    for (name, metadata) in protocols {
        map.insert(
            name.to_string(),
            JoinGroupRequestProtocol { name: name.to_string(), metadata: metadata.to_vec() },
        );
    }
    JoinGroupRequest {
        group_id: group_id.to_string(),
        session_timeout_ms,
        rebalance_timeout_ms,
        member_id: member_id.to_string(),
        group_instance_id: group_instance_id.map(|s| s.to_string()),
        protocol_type: protocol_type.to_string(),
        protocols: map,
    }
}

#[test]
fn flexible_dispatch_switches_string_encodings() {
    let mut s = KafkaFlexiSerializer::new(false);
    s.emit_string("ab").unwrap();
    assert_eq!(s.into_bytes(), vec![0, 2, b'a', b'b']);

    let mut s = KafkaFlexiSerializer::new(true);
    s.emit_string("ab").unwrap();
    let bytes = s.into_bytes();
    assert_eq!(bytes, vec![2, b'a', b'b']);

    let mut d = KafkaFlexiDeserializer::new(true, &bytes);
    assert_eq!(d.read_string().unwrap(), "ab");
}

#[test]
fn request_header_writes_client_id_only_from_version_one() {
    let hdr = RequestHeader {
        request_api_key: 11,
        request_api_version: 3,
        correlation_id: 7,
        client_id: "me",
    };
    let mut s = KafkaSerializer::new();
    hdr.serialize(0, &mut s).unwrap();
    assert_eq!(s.into_bytes(), vec![0, 11, 0, 3, 0, 0, 0, 7]);

    let mut s = KafkaSerializer::new();
    hdr.serialize(1, &mut s).unwrap();
    assert_eq!(s.into_bytes(), vec![0, 11, 0, 3, 0, 0, 0, 7, 0, 2, b'm', b'e']);
}

#[test]
fn response_header_round_trips() {
    let mut s = KafkaSerializer::new();
    ResponseHeader { correlation_id: 0x01020304 }.serialize(0, &mut s).unwrap();
    let bytes = s.into_bytes();
    assert_eq!(bytes, vec![1, 2, 3, 4]);
    let mut d = KafkaDeserializer::new(&bytes);
    assert_eq!(ResponseHeader::deserialize(&mut d).unwrap().correlation_id, 0x01020304);
}

#[test]
fn legacy_join_group_request_bytes() {
    let m = join_group("g", 30000, -1, "", None, "consumer", &[]);
    let out = serialize_message(&m, 0, "me").unwrap();
    let mut expected = vec![
        0, 11, // api key
        0, 0, // api version
        0, 0, 0, 0, // correlation id
        0, 2, b'm', b'e', // client id as a plain string at header version 1
    ];
    expected.extend_from_slice(&[0, 1, b'g']); // group id, i16 length
    expected.extend_from_slice(&[0x00, 0x00, 0x75, 0x30]); // 30000 as a 4-byte int
    expected.extend_from_slice(&[0, 0]); // empty member id
    expected.extend_from_slice(&[0, 8]); // protocol type length
    expected.extend_from_slice(b"consumer");
    expected.extend_from_slice(&[0xff, 0xff, 0xff, 0xff]); // empty array as -1
    assert_eq!(out, expected);
}

#[test]
fn flexible_join_group_request_bytes() {
    let m = join_group("g", 30000, -1, "", None, "consumer", &[]);
    let out = serialize_message(&m, 6, "me").unwrap();
    let mut expected = vec![
        0, 11, // api key
        0, 6, // api version
        0, 0, 0, 0, // correlation id
        0, 2, b'm', b'e', // client id, still through the plain encoder
    ];
    expected.extend_from_slice(&[1, b'g']); // group id, varint length
    expected.extend_from_slice(&[0x00, 0x00, 0x75, 0x30]);
    expected.extend_from_slice(&[0xff, 0xff, 0xff, 0xff]); // rebalance timeout -1, present from version 1
    expected.extend_from_slice(&[0]); // empty member id, varint 0
    expected.extend_from_slice(&[0]); // absent instance id, present from version 5
    expected.extend_from_slice(&[8]);
    expected.extend_from_slice(b"consumer");
    expected.extend_from_slice(&[0]); // empty array, varint 0
    assert_eq!(out, expected);
}

#[test]
fn join_group_round_trips_across_versions() {
    let m = join_group(
        "grp",
        10000,
        20000,
        "member",
        Some("instance"),
        "consumer",
        &[("range", b"meta1"), ("sticky", b"meta2")],
    );
    for ver in [0i16, 1, 5, 6, 7] {
        let flexible = ver >= 6;
        let mut s = KafkaFlexiSerializer::new(flexible);
        m.serialize(ver, &mut s).unwrap();
        let bytes = s.into_bytes();
        let mut d = KafkaFlexiDeserializer::new(flexible, &bytes);
        let back = JoinGroupRequest::deserialize(ver, &mut d).unwrap();
        assert_eq!(back.group_id, "grp");
        assert_eq!(back.session_timeout_ms, 10000);
        assert_eq!(back.rebalance_timeout_ms, if ver >= 1 { 20000 } else { -1 });
        assert_eq!(back.member_id, "member");
        assert_eq!(
            back.group_instance_id,
            if ver >= 5 { Some("instance".to_string()) } else { None }
        );
        assert_eq!(back.protocol_type, "consumer");
        let entries: Vec<(String, Vec<u8>)> = back
            .protocols
            .iter()
            .map(|(k, v)| (k.clone(), v.metadata.clone()))
            .collect();
        assert_eq!(
            entries,
            vec![
                ("range".to_string(), b"meta1".to_vec()),
                ("sticky".to_string(), b"meta2".to_vec()),
            ]
        );
    }
}

#[test]
fn instance_id_is_gated_on_version_five() {
    let with_instance = join_group("g", 1, 2, "m", Some("id"), "p", &[]);
    let mut s = KafkaFlexiSerializer::new(false);
    with_instance.serialize(4, &mut s).unwrap();
    let v4 = s.into_bytes();
    let mut s = KafkaFlexiSerializer::new(false);
    with_instance.serialize(5, &mut s).unwrap();
    let v5 = s.into_bytes();
    // The field occupies wire space only from version 5 on.
    assert_eq!(v5.len(), v4.len() + 2 + 2);

    let mut d = KafkaFlexiDeserializer::new(false, &v4);
    let back = JoinGroupRequest::deserialize(4, &mut d).unwrap();
    assert_eq!(back.group_instance_id, None);

    let mut d = KafkaFlexiDeserializer::new(false, &v5);
    let back = JoinGroupRequest::deserialize(5, &mut d).unwrap();
    assert_eq!(back.group_instance_id, Some("id".to_string()));
}

#[test]
fn deserialize_message_reads_header_then_body() {
    let m = join_group("g", 5000, -1, "", None, "consumer", &[("p", b"x")]);
    let ver = 2i16;
    let mut s = KafkaFlexiSerializer::new(false);
    let mut body = KafkaSerializer::new();
    ResponseHeader { correlation_id: 42 }.serialize(0, &mut body).unwrap();
    let mut bytes = body.into_bytes();
    m.serialize(ver, &mut s).unwrap();
    bytes.extend_from_slice(&s.into_bytes());
    let back: JoinGroupRequest = deserialize_message(ver, &bytes).unwrap();
    assert_eq!(back.group_id, "g");
    assert_eq!(back.protocols.len(), 1);
    assert_eq!(back.protocols.get("p").unwrap().metadata, b"x".to_vec());
}

#[test]
fn deserialize_message_handles_a_flexible_body() {
    let m = join_group(
        "grp",
        1000,
        2000,
        "m",
        Some("inst"),
        "consumer",
        &[("range", b"r")],
    );
    let ver = 7i16;
    let mut header = KafkaSerializer::new();
    ResponseHeader { correlation_id: 9 }.serialize(0, &mut header).unwrap();
    let mut bytes = header.into_bytes();
    let mut body = KafkaFlexiSerializer::new(true);
    m.serialize(ver, &mut body).unwrap();
    bytes.extend_from_slice(&body.into_bytes());
    let back: JoinGroupRequest = deserialize_message(ver, &bytes).unwrap();
    assert_eq!(back.group_id, "grp");
    assert_eq!(back.rebalance_timeout_ms, 2000);
    assert_eq!(back.group_instance_id, Some("inst".to_string()));
    assert_eq!(back.protocols.get("range").unwrap().metadata, b"r".to_vec());
}

#[test]
fn deserialize_message_rejects_a_truncated_header() {
    let bytes = [0u8, 0, 0];
    let r: Result<JoinGroupRequest, Error> = deserialize_message(0, &bytes);
    assert!(matches!(r, Err(Error::OutOfBounds)));
}

#[test]
fn duplicate_protocol_names_collapse_to_the_last_entry() {
    // Body at version 0: group "g", timeout, member "", type "p", then two
    // protocol entries that share the name "a".
    let mut bytes = vec![0, 1, b'g', 0, 0, 0, 1, 0, 0, 0, 1, b'p', 0, 0, 0, 2];
    bytes.extend_from_slice(&[0, 1, b'a', 0, 0, 0, 1, 5]);
    bytes.extend_from_slice(&[0, 1, b'a', 0, 0, 0, 1, 9]);
    let mut d = KafkaFlexiDeserializer::new(false, &bytes);
    let back = JoinGroupRequest::deserialize(0, &mut d).unwrap();
    assert_eq!(back.protocols.len(), 1);
    assert_eq!(back.protocols.get("a").unwrap().metadata, vec![9]);
}

#[test]
fn oversized_client_id_fails_the_bounds_check() {
    let m = join_group("g", 1, 1, "", None, "p", &[]);
    let long = "x".repeat(0x8000);
    assert!(matches!(serialize_message(&m, 0, &long), Err(Error::BoundsCheck)));
}
