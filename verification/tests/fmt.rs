use jba::fmt::{
    format_bytes_as_hex, format_constant_type, format_entry, pad_name, push_decimal, push_hex,
    NAME_WIDTH,
};

#[test]
fn hex_has_no_leading_zero_and_upper_case_digits() {
    assert_eq!(format_bytes_as_hex(&[0]), "0");
    assert_eq!(format_bytes_as_hex(&[9]), "9");
    assert_eq!(format_bytes_as_hex(&[10]), "A");
    assert_eq!(format_bytes_as_hex(&[15]), "F");
    assert_eq!(format_bytes_as_hex(&[16]), "10");
    assert_eq!(format_bytes_as_hex(&[0x7F]), "7F");
    assert_eq!(format_bytes_as_hex(&[255]), "FF");
}

#[test]
fn hex_separates_bytes_with_single_spaces() {
    assert_eq!(format_bytes_as_hex(&[]), "");
    assert_eq!(format_bytes_as_hex(&[0xCA, 0xFE, 0xBA, 0xBE]), "CA FE BA BE");
    assert_eq!(format_bytes_as_hex(&[0, 0, 0, 0x34]), "0 0 0 34");
    assert_eq!(format_bytes_as_hex(&[1, 0xAB]), "1 AB");
}

#[test]
fn hex_agrees_with_the_standard_formatter_on_every_byte() {
    for byte in 0..=255u8 {
        assert_eq!(format_bytes_as_hex(&[byte]), format!("{:X}", byte));
        let mut out = String::from("x");
        push_hex(&mut out, byte);
        assert_eq!(out, format!("x{:X}", byte));
    }
}

#[test]
fn decimal_agrees_with_the_standard_formatter() {
    for n in [0u16, 1, 9, 10, 11, 99, 100, 101, 255, 256, 999, 1000, 9999, 10000, 65534, 65535] {
        let mut out = String::from("#");
        push_decimal(&mut out, n);
        assert_eq!(out, format!("#{}", n));
    }
}

#[test]
fn format_entry_pads_the_label_then_lists_the_bytes() {
    assert_eq!(format_entry("magic:", &[0xCA, 0xFE, 0xBA, 0xBE]), "magic:               CA FE BA BE");
    assert_eq!(format_entry("minor_version:", &[0, 3]), "minor_version:       0 3");
    assert_eq!(format_entry("constant_pool_count:", &[0, 0x10]), "constant_pool_count: 0 10");
    assert_eq!(format_entry("a_label_longer_than_the_width:", &[1]), "a_label_longer_than_the_width:1");
    assert_eq!(format_entry("empty:", &[]), "empty:               ");
}

#[test]
fn pad_name_pads_to_the_width() {
    assert_eq!(NAME_WIDTH, 21);
    for len in 0..40usize {
        let name = "n".repeat(len);
        let padded = pad_name(&name);
        assert!(padded.starts_with(&name));
        assert_eq!(padded.len(), if len < 21 { 21 } else { len });
        assert!(padded[len..].chars().all(|c| c == ' '));
    }
}

#[test]
fn constant_types_have_their_symbolic_names() {
    assert_eq!(format_constant_type(1), "CONSTANT_Utf8");
    assert_eq!(format_constant_type(3), "CONSTANT_Integer");
    assert_eq!(format_constant_type(4), "CONSTANT_Float");
    assert_eq!(format_constant_type(5), "CONSTANT_Long");
    assert_eq!(format_constant_type(6), "CONSTANT_Double");
    assert_eq!(format_constant_type(7), "CONSTANT_Class");
    assert_eq!(format_constant_type(8), "CONSTANT_String");
    assert_eq!(format_constant_type(9), "CONSTANT_Fieldref");
    assert_eq!(format_constant_type(10), "CONSTANT_Methodref");
    assert_eq!(format_constant_type(11), "CONSTANT_InterfaceMethodref");
    assert_eq!(format_constant_type(12), "CONSTANT_NameAndType");
    assert_eq!(format_constant_type(15), "CONSTANT_MethodHandle");
    assert_eq!(format_constant_type(16), "CONSTANT_MethodType");
    assert_eq!(format_constant_type(18), "CONSTANT_InvokeDynamic");
}

#[test]
fn bytes_that_are_no_tag_are_unknown() {
    for tag in [0u8, 2, 13, 14, 17, 19, 20, 99, 255] {
        assert_eq!(format_constant_type(tag), "unknown");
    }
}
