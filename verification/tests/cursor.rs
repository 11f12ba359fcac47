use jba::cursor::ByteCursor;
use jba::error::DecodeError;

#[test]
fn new_cursor_stands_at_the_start() {
    let cursor = ByteCursor::new(vec![1, 2, 3]);
    assert_eq!(cursor.position(), 0);
    assert_eq!(cursor.remaining_len(), 3);
}

#[test]
fn read_u8_takes_one_byte_at_a_time() {
    let mut cursor = ByteCursor::new(vec![2, 5]);
    assert_eq!(cursor.read_u8(), Ok(2));
    assert_eq!(cursor.position(), 1);
    assert_eq!(cursor.read_u8(), Ok(5));
    assert_eq!(cursor.position(), 2);
    assert_eq!(cursor.read_u8(), Err(DecodeError::UnexpectedEof));
    assert_eq!(cursor.position(), 2);
}

#[test]
fn read_u16_be_puts_the_first_byte_high() {
    let mut cursor = ByteCursor::new(vec![2, 5, 3, 0]);
    assert_eq!(cursor.read_u16_be(), Ok(517));
    assert_eq!(cursor.read_u16_be(), Ok(768));
    assert_eq!(cursor.position(), 4);
}

#[test]
fn read_u16_be_covers_the_whole_range() {
    let mut cursor = ByteCursor::new(vec![0, 0, 0, 1, 1, 0, 0xFF, 0xFF]);
    assert_eq!(cursor.read_u16_be(), Ok(0));
    assert_eq!(cursor.read_u16_be(), Ok(1));
    assert_eq!(cursor.read_u16_be(), Ok(256));
    assert_eq!(cursor.read_u16_be(), Ok(65535));
}

#[test]
fn read_u16_be_on_one_byte_consumes_nothing() {
    let mut cursor = ByteCursor::new(vec![9, 7]);
    assert_eq!(cursor.read_u8(), Ok(9));
    assert_eq!(cursor.read_u16_be(), Err(DecodeError::UnexpectedEof));
    assert_eq!(cursor.position(), 1);
    assert_eq!(cursor.remaining_len(), 1);
    assert_eq!(cursor.read_u8(), Ok(7));
}

#[test]
fn read_bytes_returns_them_in_order() {
    let mut cursor = ByteCursor::new(vec![10, 20, 30, 40, 50]);
    assert_eq!(cursor.read_bytes(2), Ok(vec![10, 20]));
    assert_eq!(cursor.read_bytes(3), Ok(vec![30, 40, 50]));
    assert_eq!(cursor.position(), 5);
    assert_eq!(cursor.remaining_len(), 0);
}

#[test]
fn read_bytes_of_nothing_always_succeeds() {
    let mut cursor = ByteCursor::new(vec![]);
    assert_eq!(cursor.read_bytes(0), Ok(vec![]));
    assert_eq!(cursor.position(), 0);
}

#[test]
fn read_bytes_beyond_the_end_consumes_nothing() {
    let mut cursor = ByteCursor::new(vec![1, 2, 3]);
    assert_eq!(cursor.read_bytes(4), Err(DecodeError::UnexpectedEof));
    assert_eq!(cursor.position(), 0);
    assert_eq!(cursor.read_bytes(3), Ok(vec![1, 2, 3]));
}

#[test]
fn read_bytes_with_a_huge_length_fails_cleanly() {
    let mut cursor = ByteCursor::new(vec![1, 2, 3]);
    assert_eq!(cursor.read_u8(), Ok(1));
    assert_eq!(cursor.read_bytes(usize::MAX), Err(DecodeError::UnexpectedEof));
    assert_eq!(cursor.position(), 1);
}

#[test]
fn error_messages_name_the_tag() {
    assert_eq!(DecodeError::UnexpectedEof.message(), "unexpected end of input");
    assert_eq!(DecodeError::InvalidUtf8.message(), "invalid UTF-8 text");
    assert_eq!(DecodeError::UnrecognizedTag(99).message(), "unrecognized constant tag 99");
    assert_eq!(DecodeError::UnrecognizedTag(0).message(), "unrecognized constant tag 0");
    assert_eq!(DecodeError::UnrecognizedTag(255).message(), "unrecognized constant tag 255");
}
