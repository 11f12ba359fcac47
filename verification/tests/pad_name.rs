use hamcrest::prelude::{equal_to, is, HamcrestMatcher};
use jba::fmt::pad_name;

#[test]
fn fmt_pad_name_name_is_shorter_than_wanted() {
    let padded = pad_name("foo");
    assert!(is(equal_to("foo                  ")).matches(&padded[..]).is_ok());
    assert_eq!(padded, "foo                  ");
}

#[test]
fn fmt_pad_name_name_has_same_length_as_wanted() {
    let padded = pad_name("foofoofoofoofoofoofoo");
    assert!(is(equal_to("foofoofoofoofoofoofoo")).matches(&padded[..]).is_ok());
    assert_eq!(padded, "foofoofoofoofoofoofoo");
}

#[test]
fn fmt_pad_name_name_is_longer_than_wanted() {
    let padded = pad_name("foofoofoofoofoofoofoofoo");
    assert!(is(equal_to("foofoofoofoofoofoofoofoo")).matches(&padded[..]).is_ok());
    assert_eq!(padded, "foofoofoofoofoofoofoofoo");
}

#[test]
fn lib_pad_name_name_is_shorter_than_wanted() {
    let padded = pad_name("foo");
    assert!(is(equal_to("foo                  ")).matches(&padded[..]).is_ok());
    assert_eq!(padded.len(), 21);
}

#[test]
fn lib_pad_name_name_has_same_length_as_wanted() {
    let padded = pad_name("foofoofoofoofoofoofoo");
    assert!(is(equal_to("foofoofoofoofoofoofoo")).matches(&padded[..]).is_ok());
    assert_eq!(padded.len(), 21);
}

#[test]
fn lib_pad_name_name_is_longer_than_wanted() {
    let padded = pad_name("foofoofoofoofoofoofoofoo");
    assert!(is(equal_to("foofoofoofoofoofoofoofoo")).matches(&padded[..]).is_ok());
    assert_eq!(padded.len(), 24);
}

#[test]
fn pad_name_counts_bytes_not_characters() {
    // "é" takes two bytes, so nineteen spaces bring the name up to 21 bytes.
    let padded = pad_name("é");
    assert_eq!(padded.len(), 21);
    assert_eq!(padded.chars().count(), 20);
    assert_eq!(padded, format!("é{}", " ".repeat(19)));
}

#[test]
fn pad_name_of_empty_name_is_all_spaces() {
    assert_eq!(pad_name(""), " ".repeat(21));
}
