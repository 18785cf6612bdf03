//! Byte-exact checks and round trips for the codec primitives.

use kafka_codec::de::{decode_varint64, decode_zig_zag_32, decode_zig_zag_64, KafkaDeserializer};
use kafka_codec::error::Error;
use kafka_codec::ser::{encode_zig_zag_32, encode_zig_zag_64, KafkaSerializer};
use kafka_codec::KafkaUuid;

fn emit_with<F: FnOnce(&mut KafkaSerializer)>(f: F) -> Vec<u8> {
    let mut s = KafkaSerializer::new();
    f(&mut s);
    s.into_bytes()
}

#[test]
fn zig_zag_small_values() {
    assert_eq!(encode_zig_zag_32(0), 0);
    assert_eq!(encode_zig_zag_32(-1), 1);
    assert_eq!(encode_zig_zag_32(1), 2);
    assert_eq!(encode_zig_zag_32(-2), 3);
    assert_eq!(decode_zig_zag_32(0), 0);
    assert_eq!(decode_zig_zag_32(1), -1);
    assert_eq!(decode_zig_zag_32(2), 1);
    assert_eq!(decode_zig_zag_32(3), -2);
    assert_eq!(encode_zig_zag_64(-1), 1);
    assert_eq!(decode_zig_zag_64(1), -1);
}

#[test]
fn zig_zag_extremes() {
    assert_eq!(encode_zig_zag_32(i32::MIN), u32::MAX);
    assert_eq!(encode_zig_zag_32(i32::MAX), u32::MAX - 1);
    assert_eq!(decode_zig_zag_32(u32::MAX), i32::MIN);
    assert_eq!(encode_zig_zag_64(i64::MIN), u64::MAX);
    assert_eq!(encode_zig_zag_64(i64::MAX), u64::MAX - 1);
    assert_eq!(decode_zig_zag_64(u64::MAX), i64::MIN);
}

#[test]
fn varint_zero_is_a_single_zero_byte() {
    let out = emit_with(|s| {
        s.emit_varint(0).unwrap();
    });
    assert_eq!(out, vec![0u8]);
    assert_eq!(decode_varint64(&out).unwrap(), 0);
}

#[test]
fn varint32_edge_values_round_trip_with_documented_lengths() {
    for (v, len) in [(0i32, 1usize), (-1, 1), (i32::MIN, 5), (i32::MAX, 5)] {
        let out = emit_with(|s| {
            s.emit_varint(v).unwrap();
        });
        assert_eq!(out.len(), len, "length for {v}");
        let mut d = KafkaDeserializer::new(&out);
        assert_eq!(d.read_varint().unwrap(), v);
    }
}

#[test]
fn varint64_edge_values_round_trip_with_documented_lengths() {
    for (v, len) in [(0i64, 1usize), (-1, 1), (i64::MIN, 10), (i64::MAX, 10)] {
        let out = emit_with(|s| {
            s.emit_varlong(v).unwrap();
        });
        assert_eq!(out.len(), len, "length for {v}");
        let mut d = KafkaDeserializer::new(&out);
        assert_eq!(d.read_varlong().unwrap(), v);
    }
}

#[test]
fn all_continuation_bytes_are_a_malformed_varint() {
    let five = [0x80u8; 5];
    let mut d = KafkaDeserializer::new(&five);
    assert!(matches!(d.read_varint(), Err(Error::IncorrectVarint)));
    let ten = [0xffu8; 10];
    let mut d = KafkaDeserializer::new(&ten);
    assert!(matches!(d.read_varlong(), Err(Error::IncorrectVarint)));
    assert!(matches!(decode_varint64(&ten), Err(Error::IncorrectVarint)));
}

#[test]
fn truncated_varint_runs_out_of_bounds() {
    let short = [0x80u8, 0x80];
    let mut d = KafkaDeserializer::new(&short);
    assert!(matches!(d.read_varint(), Err(Error::OutOfBounds)));
}

#[test]
fn non_canonical_varints_decode_and_consume_their_own_bytes() {
    // 0 padded out to two groups: the decoder accepts it and advances by
    // exactly the bytes the value occupied.
    let bytes = [0x80u8, 0x00, 0x07];
    let mut d = KafkaDeserializer::new(&bytes);
    assert_eq!(d.read_varint().unwrap(), 0);
    assert_eq!(d.read_int8().unwrap(), 7);
}

#[test]
fn five_group_varint_carries_a_full_32_bit_value() {
    let bytes = [0xffu8, 0xff, 0xff, 0xff, 0x0f];
    assert_eq!(decode_varint64(&bytes).unwrap(), 0xffffffff);
    let mut d = KafkaDeserializer::new(&bytes);
    assert_eq!(d.read_varint().unwrap(), i32::MIN);
}

#[test]
fn fixed_width_values_are_big_endian() {
    let out = emit_with(|s| {
        s.emit_int16(0x1234).unwrap();
        s.emit_int32(-1).unwrap();
        s.emit_int64(0x0102030405060708).unwrap();
        s.emit_uint32(0xdeadbeef).unwrap();
        s.emit_bool(true).unwrap();
        s.emit_int8(-2).unwrap();
    });
    assert_eq!(
        out,
        vec![
            0x12, 0x34, 0xff, 0xff, 0xff, 0xff, 0x01, 0x02, 0x03, 0x04, 0x05, 0x06, 0x07, 0x08,
            0xde, 0xad, 0xbe, 0xef, 0x01, 0xfe,
        ]
    );
    let mut d = KafkaDeserializer::new(&out);
    assert_eq!(d.read_int16().unwrap(), 0x1234);
    assert_eq!(d.read_int32().unwrap(), -1);
    assert_eq!(d.read_int64().unwrap(), 0x0102030405060708);
    assert_eq!(d.read_uint32().unwrap(), 0xdeadbeef);
    assert!(d.read_bool().unwrap());
    assert_eq!(d.read_int8().unwrap(), -2);
}

#[test]
fn fixed_width_read_past_end_is_out_of_bounds() {
    let bytes = [0u8, 1, 2];
    let mut d = KafkaDeserializer::new(&bytes);
    assert!(matches!(d.read_int32(), Err(Error::OutOfBounds)));
    // The failed read leaves the cursor where it was.
    assert_eq!(d.read_int16().unwrap(), 1);
}

#[test]
fn uuid_round_trips_as_sixteen_big_endian_bytes() {
    let u = KafkaUuid { msb: 0x0011223344556677, lsb: 0x8899aabbccddeeff };
    let out = emit_with(|s| {
        s.emit_uuid(u).unwrap();
    });
    assert_eq!(
        out,
        vec![
            0x00, 0x11, 0x22, 0x33, 0x44, 0x55, 0x66, 0x77, 0x88, 0x99, 0xaa, 0xbb, 0xcc, 0xdd,
            0xee, 0xff,
        ]
    );
    let mut d = KafkaDeserializer::new(&out);
    assert_eq!(d.read_uuid().unwrap(), u);
}

#[test]
fn float64_bits_round_trip() {
    let v: f64 = -1234.5678;
    let out = emit_with(|s| {
        s.emit_float64_bits(v.to_bits()).unwrap();
    });
    assert_eq!(out, v.to_be_bytes().to_vec());
    let mut d = KafkaDeserializer::new(&out);
    assert_eq!(f64::from_bits(d.read_float64_bits().unwrap()), v);
}

#[test]
fn legacy_string_round_trip() {
    let out = emit_with(|s| {
        s.emit_string("hello").unwrap();
    });
    assert_eq!(out, vec![0, 5, b'h', b'e', b'l', b'l', b'o']);
    let mut d = KafkaDeserializer::new(&out);
    assert_eq!(d.read_string().unwrap(), "hello");
}

#[test]
fn compact_string_round_trip() {
    let out = emit_with(|s| {
        s.emit_compact_string("hello").unwrap();
    });
    assert_eq!(out, vec![5, b'h', b'e', b'l', b'l', b'o']);
    let mut d = KafkaDeserializer::new(&out);
    assert_eq!(d.read_compact_string().unwrap(), "hello");
}

#[test]
fn multibyte_string_round_trips_in_both_encodings() {
    let text = "gr\u{fc}n \u{2603}";
    let legacy = emit_with(|s| {
        s.emit_string(text).unwrap();
    });
    let mut d = KafkaDeserializer::new(&legacy);
    assert_eq!(d.read_string().unwrap(), text);
    let compact = emit_with(|s| {
        s.emit_compact_string(text).unwrap();
    });
    let mut d = KafkaDeserializer::new(&compact);
    assert_eq!(d.read_compact_string().unwrap(), text);
}

#[test]
fn invalid_utf8_is_rejected() {
    let bytes = [0u8, 1, 0xff];
    let mut d = KafkaDeserializer::new(&bytes);
    assert!(matches!(d.read_string(), Err(Error::UTF8Error)));
}

#[test]
fn string_longer_than_its_buffer_is_out_of_bounds() {
    let bytes = [0u8, 5, b'h'];
    let mut d = KafkaDeserializer::new(&bytes);
    assert!(matches!(d.read_string(), Err(Error::OutOfBounds)));
}

#[test]
fn negative_legacy_string_length_fails_the_bounds_check() {
    let bytes = [0xffu8, 0xfe];
    let mut d = KafkaDeserializer::new(&bytes);
    assert!(matches!(d.read_string(), Err(Error::BoundsCheck)));
}

#[test]
fn oversized_legacy_string_fails_the_bounds_check() {
    let long = "x".repeat(0x8000);
    let mut s = KafkaSerializer::new();
    assert!(matches!(s.emit_string(&long), Err(Error::BoundsCheck)));
    assert!(s.into_bytes().is_empty());
}

#[test]
fn nullable_string_sentinels_stay_distinct_in_legacy_encoding() {
    let absent = emit_with(|s| {
        s.emit_nullable_string(None).unwrap();
    });
    let empty = emit_with(|s| {
        s.emit_nullable_string(Some("")).unwrap();
    });
    assert_eq!(absent, vec![0xff, 0xff]);
    assert_eq!(empty, vec![0, 0]);
    let mut d = KafkaDeserializer::new(&absent);
    assert_eq!(d.read_nullable_string().unwrap(), None);
    let mut d = KafkaDeserializer::new(&empty);
    assert_eq!(d.read_nullable_string().unwrap(), Some(String::new()));
}

#[test]
fn nullable_string_sentinels_stay_distinct_in_compact_encoding() {
    let absent = emit_with(|s| {
        s.emit_compact_nullable_string(None).unwrap();
    });
    let empty = emit_with(|s| {
        s.emit_compact_nullable_string(Some("")).unwrap();
    });
    assert_eq!(absent, vec![0]);
    assert_eq!(empty, vec![1]);
    let mut d = KafkaDeserializer::new(&absent);
    assert_eq!(d.read_compact_nullable_string().unwrap(), None);
    let mut d = KafkaDeserializer::new(&empty);
    assert_eq!(d.read_compact_nullable_string().unwrap(), Some(String::new()));
}

#[test]
fn compact_nullable_string_biases_the_length_by_one() {
    let out = emit_with(|s| {
        s.emit_compact_nullable_string(Some("ab")).unwrap();
    });
    assert_eq!(out, vec![3, b'a', b'b']);
    let mut d = KafkaDeserializer::new(&out);
    assert_eq!(d.read_compact_nullable_string().unwrap(), Some("ab".to_string()));
}

#[test]
fn legacy_bytes_round_trip() {
    let out = emit_with(|s| {
        s.emit_bytes(&[9, 8, 7]).unwrap();
    });
    assert_eq!(out, vec![0, 0, 0, 3, 9, 8, 7]);
    let mut d = KafkaDeserializer::new(&out);
    assert_eq!(d.read_bytes().unwrap(), vec![9, 8, 7]);
}

#[test]
fn compact_bytes_round_trip() {
    let out = emit_with(|s| {
        s.emit_compact_bytes(&[9, 8, 7]).unwrap();
    });
    assert_eq!(out, vec![3, 9, 8, 7]);
    let mut d = KafkaDeserializer::new(&out);
    assert_eq!(d.read_compact_bytes().unwrap(), vec![9, 8, 7]);
}

#[test]
fn bytes_longer_than_their_buffer_are_out_of_bounds() {
    let bytes = [0u8, 0, 0, 5, 1, 2];
    let mut d = KafkaDeserializer::new(&bytes);
    assert!(matches!(d.read_bytes(), Err(Error::OutOfBounds)));
}

#[test]
fn nullable_bytes_sentinels_stay_distinct_in_both_encodings() {
    let absent = emit_with(|s| {
        s.emit_nullable_bytes(None).unwrap();
    });
    let empty = emit_with(|s| {
        s.emit_nullable_bytes(Some(&[])).unwrap();
    });
    assert_eq!(absent, vec![0xff, 0xff, 0xff, 0xff]);
    assert_eq!(empty, vec![0, 0, 0, 0]);
    let mut d = KafkaDeserializer::new(&absent);
    assert_eq!(d.read_nullable_bytes().unwrap(), None);
    let mut d = KafkaDeserializer::new(&empty);
    assert_eq!(d.read_nullable_bytes().unwrap(), Some(Vec::new()));

    let absent = emit_with(|s| {
        s.emit_compact_nullable_bytes(None).unwrap();
    });
    let present = emit_with(|s| {
        s.emit_compact_nullable_bytes(Some(&[7])).unwrap();
    });
    assert_eq!(absent, vec![0]);
    assert_eq!(present, vec![2, 7]);
    let mut d = KafkaDeserializer::new(&absent);
    assert_eq!(d.read_compact_nullable_bytes().unwrap(), None);
    let mut d = KafkaDeserializer::new(&present);
    assert_eq!(d.read_compact_nullable_bytes().unwrap(), Some(vec![7]));
}

#[test]
fn legacy_array_header_writes_minus_one_for_empty() {
    let empty = emit_with(|s| {
        s.emit_array_hdr(0).unwrap();
    });
    assert_eq!(empty, vec![0xff, 0xff, 0xff, 0xff]);
    let mut d = KafkaDeserializer::new(&empty);
    assert_eq!(d.read_array_hdr().unwrap(), 0);

    let three = emit_with(|s| {
        s.emit_array_hdr(3).unwrap();
    });
    assert_eq!(three, vec![0, 0, 0, 3]);
    let mut d = KafkaDeserializer::new(&three);
    assert_eq!(d.read_array_hdr().unwrap(), 3);
}

#[test]
fn compact_array_header_biases_the_count_by_one() {
    let empty = emit_with(|s| {
        s.emit_compact_array_hdr(0).unwrap();
    });
    assert_eq!(empty, vec![0]);
    let mut d = KafkaDeserializer::new(&empty);
    assert_eq!(d.read_compact_array_hdr().unwrap(), 0);

    let three = emit_with(|s| {
        s.emit_compact_array_hdr(3).unwrap();
    });
    assert_eq!(three, vec![4]);
    let mut d = KafkaDeserializer::new(&three);
    assert_eq!(d.read_compact_array_hdr().unwrap(), 3);
}

#[test]
fn negative_legacy_array_count_fails_the_bounds_check() {
    let bytes = [0xffu8, 0xff, 0xff, 0xfe];
    let mut d = KafkaDeserializer::new(&bytes);
    assert!(matches!(d.read_array_hdr(), Err(Error::BoundsCheck)));
}
