//! Errors that end a decoding pass.

use vstd::prelude::*;
use vstd::string::StringExecFns;

use crate::fmt::{decimal_text, push_decimal};

verus! {

/// What can go wrong while decoding. `UnexpectedEof` and `UnrecognizedTag` end the
/// pass: the pool is given up as a whole. `InvalidUtf8` never does: it is recorded
/// in the record whose text it concerns, and decoding goes on.
#[derive(Clone, Copy, Debug, PartialEq, Eq, Structural)]
pub enum DecodeError {
    /// The byte source ended before the value being read was complete.
    UnexpectedEof,
    /// A record started with a tag byte that names no known record kind.
    UnrecognizedTag(u8),
    /// The bytes of a `Utf8` record are all there but are not valid UTF-8.
    InvalidUtf8,
}

impl DecodeError {
    /// The message of this error, the offending tag in decimal.
    pub open spec fn message_text(self) -> Seq<char> {
        match self {
            DecodeError::UnexpectedEof => "unexpected end of input"@,
            DecodeError::InvalidUtf8 => "invalid UTF-8 text"@,
            DecodeError::UnrecognizedTag(tag) => "unrecognized constant tag "@ + decimal_text(
                tag as nat,
            ),
        }
    }

    /// A one-line description of this error.
    pub fn message(&self) -> (text: String)
        ensures
            text@ == self.message_text(),
    {
        match self {
            DecodeError::UnexpectedEof => String::from_str("unexpected end of input"),
            DecodeError::InvalidUtf8 => String::from_str("invalid UTF-8 text"),
            DecodeError::UnrecognizedTag(tag) => {
                let mut out = String::from_str("unrecognized constant tag ");
                push_decimal(&mut out, *tag as u16);
                out
            },
        }
    }
}

} // verus!
