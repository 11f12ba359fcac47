use jba::cursor::ByteCursor;
use jba::decode::decode_pool;
use jba::error::DecodeError;
use jba::extract::{
    extract_constant_pool, extract_magic, extract_major_version, extract_minor_version, heading,
    push_payload, push_record, render_pool,
};
use jba::pool::{ConstantPoolEntry, Payload};

#[test]
fn heading_underlines_name_and_colon() {
    assert_eq!(heading("A.class"), "A.class:\n========");
    assert_eq!(heading(""), ":\n=");
    assert_eq!(heading("é"), "é:\n===");
}

#[test]
fn magic_line_shows_four_bytes() {
    let mut cursor = ByteCursor::new(vec![0xCA, 0xFE, 0xBA, 0xBE, 0, 0]);
    assert_eq!(extract_magic(&mut cursor), Ok("magic:               CA FE BA BE".to_string()));
    assert_eq!(cursor.position(), 4);
}

#[test]
fn magic_line_needs_four_bytes() {
    let mut cursor = ByteCursor::new(vec![0xCA, 0xFE, 0xBA]);
    assert_eq!(extract_magic(&mut cursor), Err(DecodeError::UnexpectedEof));
    assert_eq!(cursor.position(), 0);
}

#[test]
fn version_lines_show_bytes_and_value() {
    let mut cursor = ByteCursor::new(vec![0, 0, 0, 0x34]);
    assert_eq!(extract_minor_version(&mut cursor), Ok("minor_version:       0 0 (d0)".to_string()));
    assert_eq!(extract_major_version(&mut cursor), Ok("minor_version:       0 34 (d52)".to_string()));
    assert_eq!(cursor.position(), 4);
    assert_eq!(extract_major_version(&mut cursor), Err(DecodeError::UnexpectedEof));
}

#[test]
fn version_value_is_big_endian() {
    let mut cursor = ByteCursor::new(vec![0x01, 0x02]);
    assert_eq!(extract_minor_version(&mut cursor), Ok("minor_version:       1 2 (d258)".to_string()));
}

#[test]
fn pool_report_lists_count_and_records() {
    let bytes = vec![0x00, 0x03, 0x07, 0x00, 0x02, 0x01, 0x00, 0x03, 0x66, 0x6F, 0x6F];
    let mut cursor = ByteCursor::new(bytes);
    let expected = concat_lines(&[
        "constant_pool_count: 0 3 (d3)",
        " constant #1:",
        "  type 7 (CONSTANT_Class)",
        "  name_index: #2",
        " constant #2:",
        "  type 1 (CONSTANT_Utf8)",
        "  bytes: 66 6F 6F (\"foo\")",
    ]);
    assert_eq!(extract_constant_pool(&mut cursor), Ok(expected));
    assert_eq!(cursor.position(), 11);
}

fn concat_lines(lines: &[&str]) -> String {
    let mut text = String::new();
    for line in lines {
        text.push_str(line);
        text.push('\n');
    }
    text
}

#[test]
fn empty_pool_report_is_the_count_line() {
    let mut cursor = ByteCursor::new(vec![0, 1]);
    assert_eq!(extract_constant_pool(&mut cursor), Ok("constant_pool_count: 0 1 (d1)\n".to_string()));
}

#[test]
fn pool_report_fails_as_decoding_does() {
    let mut cursor = ByteCursor::new(vec![0, 2, 99]);
    assert_eq!(extract_constant_pool(&mut cursor), Err(DecodeError::UnrecognizedTag(99)));
    let mut cursor = ByteCursor::new(vec![0, 2, 7, 0]);
    assert_eq!(extract_constant_pool(&mut cursor), Err(DecodeError::UnexpectedEof));
}

fn lines_of(payload: Payload) -> String {
    let mut out = String::new();
    push_payload(&mut out, &payload);
    out
}

#[test]
fn every_kind_has_its_lines() {
    assert_eq!(
        lines_of(Payload::Utf8 { bytes: vec![0x68, 0x69], text: Ok("hi".to_string()) }),
        "  bytes: 68 69 (\"hi\")\n"
    );
    assert_eq!(lines_of(Payload::Utf8 { bytes: vec![], text: Ok(String::new()) }), "  bytes:  (\"\")\n");
    assert_eq!(
        lines_of(Payload::Utf8 { bytes: vec![0xFF], text: Err(DecodeError::InvalidUtf8) }),
        "  bytes: FF (invalid UTF-8)\n"
    );
    assert_eq!(lines_of(Payload::Integer { raw: [0, 0, 0, 42] }), "  bytes: 0 0 0 2A\n");
    assert_eq!(lines_of(Payload::Float { raw: [0x3F, 0x80, 0, 0] }), "  bytes: 3F 80 0 0\n");
    assert_eq!(
        lines_of(Payload::Long { high: [0, 0, 0, 1], low: [0, 0, 0, 2] }),
        "  high_bytes: 0 0 0 1\n  low_bytes: 0 0 0 2\n"
    );
    assert_eq!(
        lines_of(Payload::Double { high: [0x40, 0, 0, 0], low: [0, 0, 0, 0] }),
        "  high_bytes: 40 0 0 0\n  low_bytes: 0 0 0 0\n"
    );
    assert_eq!(lines_of(Payload::Class { name_index: 2 }), "  name_index: #2\n");
    assert_eq!(lines_of(Payload::String { string_index: 65535 }), "  string_index: #65535\n");
    assert_eq!(
        lines_of(Payload::Fieldref { class_index: 6, name_and_type_index: 11 }),
        "  class_index: #6\n  name_and_type_index: #11\n"
    );
    assert_eq!(
        lines_of(Payload::Methodref { class_index: 6, name_and_type_index: 11 }),
        "  class_index: #6\n  name_and_type_index: #11\n"
    );
    assert_eq!(
        lines_of(Payload::InterfaceMethodref { class_index: 6, name_and_type_index: 11 }),
        "  class_index: #6\n  name_and_type_index: #11\n"
    );
    assert_eq!(
        lines_of(Payload::NameAndType { name_index: 1, descriptor_index: 300 }),
        "  name_index: #1\n  descriptor_index: #300\n"
    );
    assert_eq!(
        lines_of(Payload::MethodHandle { reference_kind: 6, reference_index: 9 }),
        "  reference_kind: #6\n  reference_index: #9\n"
    );
    assert_eq!(lines_of(Payload::MethodType { descriptor_index: 1 }), "  descriptor_index: #1\n");
    assert_eq!(
        lines_of(Payload::InvokeDynamic { bootstrap_method_attr_index: 0, name_and_type_index: 11 }),
        "  bootstrap_method_attr_index: #0\n  name_and_type_index: #11\n"
    );
}

#[test]
fn record_lines_start_with_number_and_kind() {
    let mut out = String::from(">");
    let entry = ConstantPoolEntry { index: 12, tag: 16, payload: Payload::MethodType { descriptor_index: 7 } };
    push_record(&mut out, &entry);
    assert_eq!(out, "> constant #12:\n  type 16 (CONSTANT_MethodType)\n  descriptor_index: #7\n");
}

#[test]
fn render_pool_matches_the_report_of_its_bytes() {
    let bytes = vec![0, 3, 5, 1, 2, 3, 4, 5, 6, 7, 8, 15, 1, 0, 2, 0xEE];
    let mut first = ByteCursor::new(bytes.clone());
    let pool = decode_pool(&mut first).unwrap();
    let mut second = ByteCursor::new(bytes);
    assert_eq!(Ok(render_pool(&pool)), extract_constant_pool(&mut second));
    assert_eq!(
        render_pool(&pool),
        "constant_pool_count: 0 3 (d3)\n constant #1:\n  type 5 (CONSTANT_Long)\n  high_bytes: 1 2 3 4\n  low_bytes: 5 6 7 8\n constant #2:\n  type 15 (CONSTANT_MethodHandle)\n  reference_kind: #1\n  reference_index: #2\n"
    );
}
