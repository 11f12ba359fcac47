//! The byte layout of the constant pool, as functions on byte sequences.
//!
//! Each function takes the bytes that are still unread and says how reading ends:
//! with a value or an error, and after how many bytes. A field that cannot be read
//! in full is not consumed in part, so a failure inside a record counts the fields
//! that were read before the one that failed, and nothing of that one.

use vstd::prelude::*;

use crate::cursor::be16;
use crate::error::DecodeError;
use crate::pool::{
    entry_count, utf8_text, EntryView, PayloadView, PoolView, TAG_CLASS, TAG_DOUBLE, TAG_FIELDREF,
    TAG_FLOAT, TAG_INTEGER, TAG_INTERFACE_METHODREF, TAG_INVOKE_DYNAMIC, TAG_LONG,
    TAG_METHODREF, TAG_METHOD_HANDLE, TAG_METHOD_TYPE, TAG_NAME_AND_TYPE, TAG_STRING, TAG_UTF8,
};

verus! {

/// How a read ends: its result, and the number of bytes it moved past.
pub ghost struct Outcome<T> {
    pub result: Result<T, DecodeError>,
    pub consumed: int,
}

impl<T> Outcome<T> {
    /// The same outcome with `f` applied to the value read.
    pub open spec fn map<U>(self, f: spec_fn(T) -> U) -> Outcome<U> {
        Outcome {
            result: match self.result {
                Ok(value) => Ok(f(value)),
                Err(e) => Err(e),
            },
            consumed: self.consumed,
        }
    }
}

/// A successful read of `value` that took `consumed` bytes.
pub open spec fn done<T>(value: T, consumed: int) -> Outcome<T> {
    Outcome { result: Ok(value), consumed }
}

/// A read that ran out of bytes after `consumed` of them.
pub open spec fn truncated<T>(consumed: int) -> Outcome<T> {
    Outcome { result: Err(DecodeError::UnexpectedEof), consumed }
}

/// True for the fourteen tag bytes that announce a record.
pub open spec fn is_known_tag(tag: u8) -> bool {
    ||| tag == TAG_UTF8
    ||| tag == TAG_INTEGER
    ||| tag == TAG_FLOAT
    ||| tag == TAG_LONG
    ||| tag == TAG_DOUBLE
    ||| tag == TAG_CLASS
    ||| tag == TAG_STRING
    ||| tag == TAG_FIELDREF
    ||| tag == TAG_METHODREF
    ||| tag == TAG_INTERFACE_METHODREF
    ||| tag == TAG_NAME_AND_TYPE
    ||| tag == TAG_METHOD_HANDLE
    ||| tag == TAG_METHOD_TYPE
    ||| tag == TAG_INVOKE_DYNAMIC
}

/// A 16-bit length, then that many bytes.
pub open spec fn parse_utf8(s: Seq<u8>) -> Outcome<PayloadView> {
    if s.len() < 2 {
        truncated(0)
    } else {
        let length = be16(s[0], s[1]) as int;
        if s.len() < 2 + length {
            truncated(2)
        } else {
            let bytes = s.subrange(2, 2 + length);
            done(PayloadView::Utf8 { bytes, text: utf8_text(bytes) }, 2 + length)
        }
    }
}

/// One 4-byte field.
pub open spec fn parse_word(s: Seq<u8>) -> Outcome<Seq<u8>> {
    if s.len() < 4 {
        truncated(0)
    } else {
        done(s.subrange(0, 4), 4)
    }
}

/// Two 4-byte fields, the high one first.
pub open spec fn parse_two_words(s: Seq<u8>) -> Outcome<(Seq<u8>, Seq<u8>)> {
    if s.len() < 4 {
        truncated(0)
    } else if s.len() < 8 {
        truncated(4)
    } else {
        done((s.subrange(0, 4), s.subrange(4, 8)), 8)
    }
}

/// One 16-bit index.
pub open spec fn parse_index(s: Seq<u8>) -> Outcome<u16> {
    if s.len() < 2 {
        truncated(0)
    } else {
        done(be16(s[0], s[1]), 2)
    }
}

/// Two 16-bit indices.
pub open spec fn parse_two_indices(s: Seq<u8>) -> Outcome<(u16, u16)> {
    if s.len() < 2 {
        truncated(0)
    } else if s.len() < 4 {
        truncated(2)
    } else {
        done((be16(s[0], s[1]), be16(s[2], s[3])), 4)
    }
}

/// One byte, then one 16-bit index.
pub open spec fn parse_kind_and_index(s: Seq<u8>) -> Outcome<(u8, u16)> {
    if s.len() < 1 {
        truncated(0)
    } else if s.len() < 3 {
        truncated(1)
    } else {
        done((s[0], be16(s[1], s[2])), 3)
    }
}

/// The payload that follows tag byte `tag`, read from `s`.
pub open spec fn parse_payload(tag: u8, s: Seq<u8>) -> Outcome<PayloadView> {
    if tag == TAG_UTF8 {
        parse_utf8(s)
    } else if tag == TAG_INTEGER {
        parse_word(s).map(|raw: Seq<u8>| PayloadView::Integer { raw })
    } else if tag == TAG_FLOAT {
        parse_word(s).map(|raw: Seq<u8>| PayloadView::Float { raw })
    } else if tag == TAG_LONG {
        parse_two_words(s).map(
            |w: (Seq<u8>, Seq<u8>)| PayloadView::Long { high: w.0, low: w.1 },
        )
    } else if tag == TAG_DOUBLE {
        parse_two_words(s).map(
            |w: (Seq<u8>, Seq<u8>)| PayloadView::Double { high: w.0, low: w.1 },
        )
    } else if tag == TAG_CLASS {
        parse_index(s).map(|name_index: u16| PayloadView::Class { name_index })
    } else if tag == TAG_STRING {
        parse_index(s).map(|string_index: u16| PayloadView::String { string_index })
    } else if tag == TAG_FIELDREF {
        parse_two_indices(s).map(
            |p: (u16, u16)| PayloadView::Fieldref { class_index: p.0, name_and_type_index: p.1 },
        )
    } else if tag == TAG_METHODREF {
        parse_two_indices(s).map(
            |p: (u16, u16)| PayloadView::Methodref { class_index: p.0, name_and_type_index: p.1 },
        )
    } else if tag == TAG_INTERFACE_METHODREF {
        parse_two_indices(s).map(
            |p: (u16, u16)|
                PayloadView::InterfaceMethodref { class_index: p.0, name_and_type_index: p.1 },
        )
    } else if tag == TAG_NAME_AND_TYPE {
        parse_two_indices(s).map(
            |p: (u16, u16)| PayloadView::NameAndType { name_index: p.0, descriptor_index: p.1 },
        )
    } else if tag == TAG_METHOD_HANDLE {
        parse_kind_and_index(s).map(
            |p: (u8, u16)| PayloadView::MethodHandle { reference_kind: p.0, reference_index: p.1 },
        )
    } else if tag == TAG_METHOD_TYPE {
        parse_index(s).map(|descriptor_index: u16| PayloadView::MethodType { descriptor_index })
    } else if tag == TAG_INVOKE_DYNAMIC {
        parse_two_indices(s).map(
            |p: (u16, u16)|
                PayloadView::InvokeDynamic {
                    bootstrap_method_attr_index: p.0,
                    name_and_type_index: p.1,
                },
        )
    } else {
        Outcome { result: Err(DecodeError::UnrecognizedTag(tag)), consumed: 0 }
    }
}

/// One record, numbered `index`: a tag byte, then the payload the tag announces.
pub open spec fn parse_entry(s: Seq<u8>, index: u16) -> Outcome<EntryView> {
    if s.len() < 1 {
        truncated(0)
    } else {
        let tag = s[0];
        let payload = parse_payload(tag, s.skip(1));
        Outcome {
            result: match payload.result {
                Ok(payload) => Ok(EntryView { index, tag, payload }),
                Err(e) => Err(e),
            },
            consumed: 1 + payload.consumed,
        }
    }
}

/// The first `n` records of `s`, numbered from 1. Reading stops at the first record
/// that fails.
pub open spec fn parse_entries(s: Seq<u8>, n: nat) -> Outcome<Seq<EntryView>>
    decreases n,
{
    if n == 0 {
        done(Seq::empty(), 0)
    } else {
        let before = parse_entries(s, (n - 1) as nat);
        match before.result {
            Err(_) => before,
            Ok(entries) => {
                let next = parse_entry(s.skip(before.consumed), n as u16);
                Outcome {
                    result: match next.result {
                        Ok(entry) => Ok(entries.push(entry)),
                        Err(e) => Err(e),
                    },
                    consumed: before.consumed + next.consumed,
                }
            },
        }
    }
}

/// The whole pool: the declared count, then the records it announces.
pub open spec fn parse_pool(s: Seq<u8>) -> Outcome<PoolView> {
    if s.len() < 2 {
        truncated(0)
    } else {
        let count = be16(s[0], s[1]);
        let entries = parse_entries(s.skip(2), entry_count(count));
        Outcome {
            result: match entries.result {
                Ok(entries) => Ok(PoolView { count, entries }),
                Err(e) => Err(e),
            },
            consumed: 2 + entries.consumed,
        }
    }
}

/// No read moves past the end of the bytes it is given, whether it succeeds or fails.
pub proof fn lemma_payload_in_bounds(tag: u8, s: Seq<u8>)
    ensures
        0 <= parse_payload(tag, s).consumed <= s.len(),
{
}

/// No record extends past the end of the bytes it is read from.
pub proof fn lemma_entry_in_bounds(s: Seq<u8>, index: u16)
    ensures
        0 <= parse_entry(s, index).consumed <= s.len(),
{
    if s.len() >= 1 {
        lemma_payload_in_bounds(s[0], s.skip(1));
    }
}

/// No run of records extends past the end of the bytes it is read from.
pub proof fn lemma_entries_in_bounds(s: Seq<u8>, n: nat)
    ensures
        0 <= parse_entries(s, n).consumed <= s.len(),
    decreases n,
{
    if n > 0 {
        lemma_entries_in_bounds(s, (n - 1) as nat);
        let before = parse_entries(s, (n - 1) as nat);
        if before.result is Ok {
            lemma_entry_in_bounds(s.skip(before.consumed), n as u16);
        }
    }
}

/// Decoding never moves past the end of the bytes it is given.
pub proof fn lemma_pool_in_bounds(s: Seq<u8>)
    ensures
        0 <= parse_pool(s).consumed <= s.len(),
{
    if s.len() >= 2 {
        lemma_entries_in_bounds(s.skip(2), entry_count(be16(s[0], s[1])));
    }
}

} // verus!
