use jba::cursor::ByteCursor;
use jba::decode::decode_pool;
use jba::pool::{ConstantPool, ConstantPoolEntry, Payload};

fn round_trip(bytes: &[u8]) {
    let mut cursor = ByteCursor::new(bytes.to_vec());
    let pool = decode_pool(&mut cursor).unwrap();
    let consumed = cursor.position();
    assert_eq!(pool.encode(), bytes[..consumed].to_vec());
}

#[test]
fn encoding_a_decoded_pool_gives_the_bytes_back() {
    round_trip(&[0, 1]);
    round_trip(&[0, 0]);
    round_trip(&[0x00, 0x03, 0x07, 0x00, 0x02, 0x01, 0x00, 0x03, 0x66, 0x6F, 0x6F]);
    round_trip(&[0, 3, 5, 1, 2, 3, 4, 5, 6, 7, 8, 6, 9, 10, 11, 12, 13, 14, 15, 16]);
    round_trip(&[0, 4, 15, 9, 0x12, 0x34, 18, 0xAB, 0xCD, 0xEF, 0x01, 16, 0xFF, 0xFF]);
    round_trip(&[0, 5, 9, 0, 1, 0, 2, 10, 0, 3, 0, 4, 11, 0, 5, 0, 6, 12, 0, 7, 0, 8]);
    round_trip(&[0, 4, 3, 0xDE, 0xAD, 0xBE, 0xEF, 4, 1, 2, 3, 4, 8, 1, 0]);
}

#[test]
fn encoding_keeps_text_that_is_not_utf8() {
    round_trip(&[0, 2, 1, 0, 3, 0xFF, 0x00, 0x80]);
}

#[test]
fn encoding_stops_where_decoding_stopped() {
    round_trip(&[0, 2, 7, 0, 2, 0xAA, 0xBB, 0xCC]);
}

#[test]
fn encoding_a_long_text_writes_its_length_big_endian() {
    let mut bytes = vec![0, 2, 1, 0x01, 0x2C];
    bytes.extend(std::iter::repeat(b'x').take(300));
    round_trip(&bytes);
}

#[test]
fn encode_writes_count_tag_and_fields_in_order() {
    let pool = ConstantPool {
        count: 3,
        entries: vec![
            ConstantPoolEntry {
                index: 1,
                tag: 15,
                payload: Payload::MethodHandle { reference_kind: 6, reference_index: 0x1234 },
            },
            ConstantPoolEntry {
                index: 2,
                tag: 1,
                payload: Payload::Utf8 { bytes: vec![b'o', b'k'], text: Ok("ok".to_string()) },
            },
        ],
    };
    assert_eq!(pool.encode(), vec![0, 3, 15, 6, 0x12, 0x34, 1, 0, 2, b'o', b'k']);
}

#[test]
fn encode_into_appends_to_what_is_there() {
    let mut out = vec![0xAA];
    Payload::Fieldref { class_index: 1, name_and_type_index: 0x0203 }.encode_into(&mut out);
    assert_eq!(out, vec![0xAA, 0, 1, 2, 3]);
    let entry = ConstantPoolEntry {
        index: 1,
        tag: 5,
        payload: Payload::Long { high: [1, 2, 3, 4], low: [5, 6, 7, 8] },
    };
    entry.encode_into(&mut out);
    assert_eq!(out, vec![0xAA, 0, 1, 2, 3, 5, 1, 2, 3, 4, 5, 6, 7, 8]);
}

#[test]
fn clones_are_equal_to_what_they_copy() {
    let mut cursor = ByteCursor::new(vec![0, 4, 1, 0, 2, 0xFF, 0xFE, 1, 0, 1, b'a', 5, 1, 2, 3, 4, 5, 6, 7, 8]);
    let pool = decode_pool(&mut cursor).unwrap();
    let copy = pool.clone();
    assert_eq!(copy, pool);
    assert_eq!(copy.encode(), pool.encode());
    assert_eq!(pool.entries[1].clone(), pool.entries[1]);
    assert_eq!(pool.entries[0].payload.clone(), pool.entries[0].payload);
    assert_eq!(pool.entries[2].payload.clone(), Payload::Long { high: [1, 2, 3, 4], low: [5, 6, 7, 8] });
}

#[test]
fn decoding_an_encoded_pool_gives_the_pool_back() {
    let pool = ConstantPool {
        count: 4,
        entries: vec![
            ConstantPoolEntry { index: 1, tag: 7, payload: Payload::Class { name_index: 2 } },
            ConstantPoolEntry {
                index: 2,
                tag: 1,
                payload: Payload::Utf8 { bytes: vec![b'A'], text: Ok("A".to_string()) },
            },
            ConstantPoolEntry {
                index: 3,
                tag: 18,
                payload: Payload::InvokeDynamic {
                    bootstrap_method_attr_index: 0xFFFF,
                    name_and_type_index: 0x0100,
                },
            },
        ],
    };
    let mut bytes = pool.encode();
    let encoded_len = bytes.len();
    bytes.extend_from_slice(&[0xAB, 0xCD]);
    let mut cursor = ByteCursor::new(bytes);
    assert_eq!(decode_pool(&mut cursor), Ok(pool));
    assert_eq!(cursor.position(), encoded_len);
}

#[test]
fn text_longer_than_its_length_field_is_not_encodable() {
    let text = |len: usize| ConstantPool {
        count: 2,
        entries: vec![ConstantPoolEntry {
            index: 1,
            tag: 1,
            payload: Payload::Utf8 { bytes: vec![b'a'; len], text: Ok("a".repeat(len)) },
        }],
    };
    assert!(text(0).is_encodable());
    assert!(text(65535).is_encodable());
    assert!(!text(65536).is_encodable());
    assert_eq!(text(65535).encode().len(), 2 + 1 + 2 + 65535);
    assert_eq!(text(65535).encode()[3..5], [0xFF, 0xFF]);
}
