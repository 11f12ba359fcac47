//! Reading the constant pool from a [`ByteCursor`].
//!
//! Every reader here leaves the cursor exactly where the grammar says the read ends,
//! whether it succeeds or fails.

use vstd::prelude::*;
use vstd::utf8::{encode_utf8, encode_utf8_decode_utf8, valid_utf8};

use crate::cursor::{be16, ByteCursor};
use crate::error::DecodeError;
use crate::grammar::{
    lemma_entries_in_bounds, lemma_entry_in_bounds, parse_entries, parse_entry, parse_index,
    parse_kind_and_index, parse_payload, parse_pool, parse_two_indices, parse_two_words,
    parse_word, Outcome,
};
use crate::laws::{lemma_payload_well_formed, lemma_pool_well_formed};
use crate::pool::{
    entry_count, entry_views, ConstantPool, ConstantPoolEntry, EntryView, Payload, TAG_CLASS,
    TAG_DOUBLE, TAG_FIELDREF, TAG_FLOAT, TAG_INTEGER, TAG_INTERFACE_METHODREF,
    TAG_INVOKE_DYNAMIC, TAG_LONG, TAG_METHODREF, TAG_METHOD_HANDLE, TAG_METHOD_TYPE,
    TAG_NAME_AND_TYPE, TAG_STRING, TAG_UTF8,
};

verus! {

/// A read took the cursor from `before` to `after` and returned `result`, and that is
/// what `expected` prescribes: the cursor moved past the bytes consumed and no
/// further, and the result is the prescribed value or error.
pub open spec fn decodes<T: View>(
    before: ByteCursor,
    after: ByteCursor,
    result: Result<T, DecodeError>,
    expected: Outcome<T::V>,
) -> bool {
    &&& after.remaining() =~= before.remaining().skip(expected.consumed)
    &&& after.offset() == before.offset() + expected.consumed
    &&& match result {
        Ok(value) => expected.result == Ok::<T::V, DecodeError>(value@),
        Err(e) => expected.result == Err::<T::V, DecodeError>(e),
    }
}

/// `std::str::from_utf8`: the string slice over `bytes` when they are valid UTF-8,
/// `None` when they are not. Trusted.
#[verifier::external_body]
fn utf8_str(bytes: &[u8]) -> (text: Option<&str>)
    ensures
        text is Some <==> valid_utf8(bytes@),
        text matches Some(s) ==> encode_utf8(s@) == bytes@,
{
    std::str::from_utf8(bytes).ok()
}

fn read_word(cursor: &mut ByteCursor) -> (result: Result<[u8; 4], DecodeError>)
    ensures
        decodes(*old(cursor), *final(cursor), result, parse_word(old(cursor).remaining())),
{
    match cursor.read_bytes(4) {
        Ok(bytes) => {
            let word = [bytes[0], bytes[1], bytes[2], bytes[3]];
            assert(word@ =~= old(cursor).remaining().subrange(0, 4));
            Ok(word)
        },
        Err(e) => Err(e),
    }
}

fn read_two_words(cursor: &mut ByteCursor) -> (result: Result<([u8; 4], [u8; 4]), DecodeError>)
    ensures
        decodes(*old(cursor), *final(cursor), result, parse_two_words(old(cursor).remaining())),
{
    let high = match read_word(cursor) {
        Ok(word) => word,
        Err(e) => return Err(e),
    };
    assert(cursor.remaining() =~= old(cursor).remaining().skip(4));
    let low = match read_word(cursor) {
        Ok(word) => word,
        Err(e) => return Err(e),
    };
    assert(low@ =~= old(cursor).remaining().subrange(4, 8));
    Ok((high, low))
}

fn read_index(cursor: &mut ByteCursor) -> (result: Result<u16, DecodeError>)
    ensures
        decodes(*old(cursor), *final(cursor), result, parse_index(old(cursor).remaining())),
{
    cursor.read_u16_be()
}

fn read_two_indices(cursor: &mut ByteCursor) -> (result: Result<(u16, u16), DecodeError>)
    ensures
        decodes(*old(cursor), *final(cursor), result, parse_two_indices(old(cursor).remaining())),
{
    let first = match cursor.read_u16_be() {
        Ok(index) => index,
        Err(e) => return Err(e),
    };
    assert(cursor.remaining() =~= old(cursor).remaining().skip(2));
    let second = match cursor.read_u16_be() {
        Ok(index) => index,
        Err(e) => return Err(e),
    };
    Ok((first, second))
}

fn read_kind_and_index(cursor: &mut ByteCursor) -> (result: Result<(u8, u16), DecodeError>)
    ensures
        decodes(
            *old(cursor),
            *final(cursor),
            result,
            parse_kind_and_index(old(cursor).remaining()),
        ),
{
    let kind = match cursor.read_u8() {
        Ok(byte) => byte,
        Err(e) => return Err(e),
    };
    assert(cursor.remaining() =~= old(cursor).remaining().skip(1));
    let index = match cursor.read_u16_be() {
        Ok(index) => index,
        Err(e) => return Err(e),
    };
    Ok((kind, index))
}

/// Reads the payload of a `Utf8` record: a 16-bit length and that many bytes. Bytes
/// that are not valid UTF-8 are kept and flagged in `text`; that is no failure of
/// the read.
pub fn read_utf8(cursor: &mut ByteCursor) -> (result: Result<Payload, DecodeError>)
    ensures
        decodes(
            *old(cursor),
            *final(cursor),
            result,
            parse_payload(TAG_UTF8, old(cursor).remaining()),
        ),
{
    let length = match cursor.read_u16_be() {
        Ok(length) => length,
        Err(e) => return Err(e),
    };
    assert(cursor.remaining() =~= old(cursor).remaining().skip(2));
    let bytes = match cursor.read_bytes(length as usize) {
        Ok(bytes) => bytes,
        Err(e) => return Err(e),
    };
    assert(bytes@ =~= old(cursor).remaining().subrange(2, 2 + length));
    let text = match utf8_str(bytes.as_slice()) {
        Some(s) => {
            proof {
                encode_utf8_decode_utf8(s@);
            }
            Ok(s.to_owned())
        },
        None => Err(DecodeError::InvalidUtf8),
    };
    Ok(Payload::Utf8 { bytes, text })
}

/// Reads the payload of an `Integer` record: four raw bytes.
pub fn read_integer(cursor: &mut ByteCursor) -> (result: Result<Payload, DecodeError>)
    ensures
        decodes(
            *old(cursor),
            *final(cursor),
            result,
            parse_payload(TAG_INTEGER, old(cursor).remaining()),
        ),
{
    match read_word(cursor) {
        Ok(raw) => Ok(Payload::Integer { raw }),
        Err(e) => Err(e),
    }
}

/// Reads the payload of a `Float` record: four raw bytes.
pub fn read_float(cursor: &mut ByteCursor) -> (result: Result<Payload, DecodeError>)
    ensures
        decodes(
            *old(cursor),
            *final(cursor),
            result,
            parse_payload(TAG_FLOAT, old(cursor).remaining()),
        ),
{
    match read_word(cursor) {
        Ok(raw) => Ok(Payload::Float { raw }),
        Err(e) => Err(e),
    }
}

/// Reads the payload of a `Long` record: four high bytes, then four low bytes.
pub fn read_long(cursor: &mut ByteCursor) -> (result: Result<Payload, DecodeError>)
    ensures
        decodes(
            *old(cursor),
            *final(cursor),
            result,
            parse_payload(TAG_LONG, old(cursor).remaining()),
        ),
{
    match read_two_words(cursor) {
        Ok((high, low)) => Ok(Payload::Long { high, low }),
        Err(e) => Err(e),
    }
}

/// Reads the payload of a `Double` record: four high bytes, then four low bytes.
pub fn read_double(cursor: &mut ByteCursor) -> (result: Result<Payload, DecodeError>)
    ensures
        decodes(
            *old(cursor),
            *final(cursor),
            result,
            parse_payload(TAG_DOUBLE, old(cursor).remaining()),
        ),
{
    match read_two_words(cursor) {
        Ok((high, low)) => Ok(Payload::Double { high, low }),
        Err(e) => Err(e),
    }
}

/// Reads the payload of a `Class` record: the index of its name.
pub fn read_class(cursor: &mut ByteCursor) -> (result: Result<Payload, DecodeError>)
    ensures
        decodes(
            *old(cursor),
            *final(cursor),
            result,
            parse_payload(TAG_CLASS, old(cursor).remaining()),
        ),
{
    match read_index(cursor) {
        Ok(name_index) => Ok(Payload::Class { name_index }),
        Err(e) => Err(e),
    }
}

/// Reads the payload of a `String` record: the index of its text.
pub fn read_string(cursor: &mut ByteCursor) -> (result: Result<Payload, DecodeError>)
    ensures
        decodes(
            *old(cursor),
            *final(cursor),
            result,
            parse_payload(TAG_STRING, old(cursor).remaining()),
        ),
{
    match read_index(cursor) {
        Ok(string_index) => Ok(Payload::String { string_index }),
        Err(e) => Err(e),
    }
}

/// Reads the payload of a `Fieldref` record: a class index and a name-and-type index.
pub fn read_fieldref(cursor: &mut ByteCursor) -> (result: Result<Payload, DecodeError>)
    ensures
        decodes(
            *old(cursor),
            *final(cursor),
            result,
            parse_payload(TAG_FIELDREF, old(cursor).remaining()),
        ),
{
    match read_two_indices(cursor) {
        Ok((class_index, name_and_type_index)) => Ok(
            Payload::Fieldref { class_index, name_and_type_index },
        ),
        Err(e) => Err(e),
    }
}

/// Reads the payload of a `Methodref` record: a class index and a name-and-type index.
pub fn read_methodref(cursor: &mut ByteCursor) -> (result: Result<Payload, DecodeError>)
    ensures
        decodes(
            *old(cursor),
            *final(cursor),
            result,
            parse_payload(TAG_METHODREF, old(cursor).remaining()),
        ),
{
    match read_two_indices(cursor) {
        Ok((class_index, name_and_type_index)) => Ok(
            Payload::Methodref { class_index, name_and_type_index },
        ),
        Err(e) => Err(e),
    }
}

/// Reads the payload of an `InterfaceMethodref` record: a class index and a
/// name-and-type index.
pub fn read_interface_methodref(cursor: &mut ByteCursor) -> (result: Result<Payload, DecodeError>)
    ensures
        decodes(
            *old(cursor),
            *final(cursor),
            result,
            parse_payload(TAG_INTERFACE_METHODREF, old(cursor).remaining()),
        ),
{
    match read_two_indices(cursor) {
        Ok((class_index, name_and_type_index)) => Ok(
            Payload::InterfaceMethodref { class_index, name_and_type_index },
        ),
        Err(e) => Err(e),
    }
}

/// Reads the payload of a `NameAndType` record: a name index and a descriptor index.
pub fn read_name_and_type(cursor: &mut ByteCursor) -> (result: Result<Payload, DecodeError>)
    ensures
        decodes(
            *old(cursor),
            *final(cursor),
            result,
            parse_payload(TAG_NAME_AND_TYPE, old(cursor).remaining()),
        ),
{
    match read_two_indices(cursor) {
        Ok((name_index, descriptor_index)) => Ok(
            Payload::NameAndType { name_index, descriptor_index },
        ),
        Err(e) => Err(e),
    }
}

/// Reads the payload of a `MethodHandle` record: a reference kind byte and a
/// reference index.
pub fn read_method_handle(cursor: &mut ByteCursor) -> (result: Result<Payload, DecodeError>)
    ensures
        decodes(
            *old(cursor),
            *final(cursor),
            result,
            parse_payload(TAG_METHOD_HANDLE, old(cursor).remaining()),
        ),
{
    match read_kind_and_index(cursor) {
        Ok((reference_kind, reference_index)) => Ok(
            Payload::MethodHandle { reference_kind, reference_index },
        ),
        Err(e) => Err(e),
    }
}

/// Reads the payload of a `MethodType` record: the index of its descriptor.
pub fn read_method_type(cursor: &mut ByteCursor) -> (result: Result<Payload, DecodeError>)
    ensures
        decodes(
            *old(cursor),
            *final(cursor),
            result,
            parse_payload(TAG_METHOD_TYPE, old(cursor).remaining()),
        ),
{
    match read_index(cursor) {
        Ok(descriptor_index) => Ok(Payload::MethodType { descriptor_index }),
        Err(e) => Err(e),
    }
}

/// Reads the payload of an `InvokeDynamic` record: a bootstrap method index and a
/// name-and-type index.
pub fn read_invoke_dynamic(cursor: &mut ByteCursor) -> (result: Result<Payload, DecodeError>)
    ensures
        decodes(
            *old(cursor),
            *final(cursor),
            result,
            parse_payload(TAG_INVOKE_DYNAMIC, old(cursor).remaining()),
        ),
{
    match read_two_indices(cursor) {
        Ok((bootstrap_method_attr_index, name_and_type_index)) => Ok(
            Payload::InvokeDynamic { bootstrap_method_attr_index, name_and_type_index },
        ),
        Err(e) => Err(e),
    }
}

/// Reads the payload that tag byte `tag` announces. A tag that names no record kind
/// is refused before anything is read.
pub fn decode_payload(tag: u8, cursor: &mut ByteCursor) -> (result: Result<Payload, DecodeError>)
    ensures
        decodes(*old(cursor), *final(cursor), result, parse_payload(tag, old(cursor).remaining())),
        result matches Ok(payload) ==> payload@.wf(),
{
    proof {
        lemma_payload_well_formed(tag, old(cursor).remaining());
    }
    match tag {
        TAG_UTF8 => read_utf8(cursor),
        TAG_INTEGER => read_integer(cursor),
        TAG_FLOAT => read_float(cursor),
        TAG_LONG => read_long(cursor),
        TAG_DOUBLE => read_double(cursor),
        TAG_CLASS => read_class(cursor),
        TAG_STRING => read_string(cursor),
        TAG_FIELDREF => read_fieldref(cursor),
        TAG_METHODREF => read_methodref(cursor),
        TAG_INTERFACE_METHODREF => read_interface_methodref(cursor),
        TAG_NAME_AND_TYPE => read_name_and_type(cursor),
        TAG_METHOD_HANDLE => read_method_handle(cursor),
        TAG_METHOD_TYPE => read_method_type(cursor),
        TAG_INVOKE_DYNAMIC => read_invoke_dynamic(cursor),
        _ => Err(DecodeError::UnrecognizedTag(tag)),
    }
}

/// Reads one record and numbers it `index`: the tag byte, then its payload.
pub fn decode_entry(cursor: &mut ByteCursor, index: u16) -> (result: Result<
    ConstantPoolEntry,
    DecodeError,
>)
    ensures
        decodes(
            *old(cursor),
            *final(cursor),
            result,
            parse_entry(old(cursor).remaining(), index),
        ),
        result matches Ok(entry) ==> entry@.wf(),
{
    let tag = match cursor.read_u8() {
        Ok(tag) => tag,
        Err(e) => return Err(e),
    };
    assert(cursor.remaining() =~= old(cursor).remaining().skip(1));
    match decode_payload(tag, cursor) {
        Ok(payload) => Ok(ConstantPoolEntry { index, tag, payload }),
        Err(e) => Err(e),
    }
}

/// A pool whose records stop at the first failure: asking for more records than the
/// failing one changes neither the error nor the bytes consumed.
proof fn lemma_failure_is_final(s: Seq<u8>, failed: nat, n: nat)
    requires
        parse_entries(s, failed).result is Err,
        failed <= n,
    ensures
        parse_entries(s, n) == parse_entries(s, failed),
    decreases n,
{
    if failed < n {
        lemma_failure_is_final(s, failed, (n - 1) as nat);
    }
}

/// Reads a whole pool: the 16-bit count, then one record after another, numbered
/// from 1, until the count is reached. The first failure ends the pass and nothing
/// of the pool is returned.
pub fn decode_pool(cursor: &mut ByteCursor) -> (result: Result<ConstantPool, DecodeError>)
    ensures
        decodes(*old(cursor), *final(cursor), result, parse_pool(old(cursor).remaining())),
        result matches Ok(pool) ==> pool.wf(),
{
    let count = match cursor.read_u16_be() {
        Ok(count) => count,
        Err(e) => return Err(e),
    };
    let ghost input = old(cursor).remaining();
    let ghost body = cursor.remaining();
    let ghost start = cursor.offset();
    let mut entries: Vec<ConstantPoolEntry> = Vec::new();
    let mut index: u16 = 1;
    assert(entry_views(entries@) =~= Seq::empty());
    while index < count
        invariant
            input == old(cursor).remaining(),
            input.len() >= 2,
            count == be16(input[0], input[1]),
            body == input.skip(2),
            start == old(cursor).offset() + 2,
            1 <= index,
            index <= count || index == 1,
            parse_entries(body, (index - 1) as nat).result == Ok::<Seq<EntryView>, DecodeError>(
                entry_views(entries@),
            ),
            cursor.remaining() =~= body.skip(parse_entries(body, (index - 1) as nat).consumed),
            cursor.offset() == start + parse_entries(body, (index - 1) as nat).consumed,
        decreases count - index,
    {
        let ghost before = parse_entries(body, (index - 1) as nat);
        let ghost decoded = entry_views(entries@);
        proof {
            lemma_entries_in_bounds(body, (index - 1) as nat);
            lemma_entry_in_bounds(body.skip(before.consumed), index);
        }
        match decode_entry(cursor, index) {
            Ok(entry) => {
                entries.push(entry);
                assert(entry_views(entries@) =~= decoded.push(entry@));
            },
            Err(e) => {
                proof {
                    lemma_failure_is_final(body, index as nat, entry_count(count));
                    lemma_entries_in_bounds(body, index as nat);
                    assert(cursor.remaining() =~= input.skip(
                        2 + parse_entries(body, index as nat).consumed,
                    ));
                }
                return Err(e);
            },
        }
        index = index + 1;
    }
    proof {
        lemma_pool_well_formed(input);
        lemma_entries_in_bounds(body, entry_count(count));
        assert(cursor.remaining() =~= input.skip(
            2 + parse_entries(body, entry_count(count)).consumed,
        ));
    }
    Ok(ConstantPool { count, entries })
}

} // verus!
