//! The textual report of a class file's leading sections.
//!
//! A class file starts with a 4-byte magic number, two 16-bit version fields and
//! the constant pool. Each function here reads one section from the cursor and
//! returns the lines that describe it.

use vstd::prelude::*;
use vstd::string::StringExecFns;
use vstd::utf8::encode_utf8;

use crate::cursor::{be16, big_endian_u16, ByteCursor};
use crate::decode::{decode_pool, decodes};
use crate::encode::be_bytes;
use crate::error::DecodeError;
use crate::fmt::{
    constant_type_name, decimal_text, entry_line, format_constant_type, format_entry, hex_list,
    push_decimal, push_hex_list,
};
use crate::grammar::{done, parse_pool, truncated, Outcome};
use crate::pool::{
    entry_views, ConstantPool, ConstantPoolEntry, EntryView, Payload, PayloadView, PoolView,
};

verus! {

/// The next `n` bytes, all or none.
pub open spec fn parse_bytes(s: Seq<u8>, n: nat) -> Outcome<Seq<u8>> {
    if s.len() < n {
        truncated(0)
    } else {
        done(s.take(n as int), n as int)
    }
}

/// The line for the magic number.
pub open spec fn magic_text(bytes: Seq<u8>) -> Seq<char> {
    entry_line("magic:"@, bytes)
}

/// The line for a version field: its two bytes, then its value in decimal.
pub open spec fn version_text(bytes: Seq<u8>) -> Seq<char> {
    entry_line("minor_version:"@, bytes) + " (d"@ + decimal_text(be16(bytes[0], bytes[1]) as nat)
        + ")"@
}

/// The line for the declared count of the pool.
pub open spec fn count_text(count: u16) -> Seq<char> {
    entry_line("constant_pool_count:"@, be_bytes(count)) + " (d"@ + decimal_text(count as nat)
        + ")\n"@
}

/// A line that shows raw bytes in hexadecimal under `label`.
pub open spec fn bytes_line(label: Seq<char>, bytes: Seq<u8>) -> Seq<char> {
    label + hex_list(bytes) + "\n"@
}

/// A line that shows a reference into the pool under `label`.
pub open spec fn index_line(label: Seq<char>, index: u16) -> Seq<char> {
    label + decimal_text(index as nat) + "\n"@
}

/// The lines that describe a payload, one per field.
pub open spec fn payload_text(payload: PayloadView) -> Seq<char> {
    match payload {
        PayloadView::Utf8 { bytes, text } => "  bytes: "@ + hex_list(bytes) + match text {
            Ok(text) => " (\""@ + text + "\")\n"@,
            Err(_) => " (invalid UTF-8)\n"@,
        },
        PayloadView::Integer { raw } | PayloadView::Float { raw } => bytes_line(
            "  bytes: "@,
            raw,
        ),
        PayloadView::Long { high, low } | PayloadView::Double { high, low } => bytes_line(
            "  high_bytes: "@,
            high,
        ) + bytes_line("  low_bytes: "@, low),
        PayloadView::Class { name_index } => index_line("  name_index: #"@, name_index),
        PayloadView::String { string_index } => index_line("  string_index: #"@, string_index),
        PayloadView::Fieldref { class_index, name_and_type_index }
        | PayloadView::Methodref { class_index, name_and_type_index }
        | PayloadView::InterfaceMethodref { class_index, name_and_type_index } => index_line(
            "  class_index: #"@,
            class_index,
        ) + index_line("  name_and_type_index: #"@, name_and_type_index),
        PayloadView::NameAndType { name_index, descriptor_index } => index_line(
            "  name_index: #"@,
            name_index,
        ) + index_line("  descriptor_index: #"@, descriptor_index),
        PayloadView::MethodHandle { reference_kind, reference_index } => index_line(
            "  reference_kind: #"@,
            reference_kind as u16,
        ) + index_line("  reference_index: #"@, reference_index),
        PayloadView::MethodType { descriptor_index } => index_line(
            "  descriptor_index: #"@,
            descriptor_index,
        ),
        PayloadView::InvokeDynamic {
            bootstrap_method_attr_index,
            name_and_type_index,
        } => index_line("  bootstrap_method_attr_index: #"@, bootstrap_method_attr_index)
            + index_line("  name_and_type_index: #"@, name_and_type_index),
    }
}

/// The lines that describe one record: its number, its kind, then its fields.
pub open spec fn record_text(entry: EntryView) -> Seq<char> {
    " constant #"@ + decimal_text(entry.index as nat) + ":\n"@ + "  type "@ + decimal_text(
        entry.tag as nat,
    ) + " ("@ + constant_type_name(entry.tag) + ")\n"@ + payload_text(entry.payload)
}

/// The lines of a run of records, in order.
pub open spec fn records_text(entries: Seq<EntryView>) -> Seq<char>
    decreases entries.len(),
{
    if entries.len() == 0 {
        Seq::empty()
    } else {
        records_text(entries.drop_last()) + record_text(entries.last())
    }
}

/// The lines that describe a whole pool: the count, then every record.
pub open spec fn pool_text(pool: PoolView) -> Seq<char> {
    count_text(pool.count) + records_text(pool.entries)
}

/// The heading of a report: the file name with a colon, underlined with `=` signs,
/// one for each byte of the name and one for the colon.
pub open spec fn heading_text(file_name: Seq<char>) -> Seq<char> {
    file_name + ":\n"@ + Seq::new(encode_utf8(file_name).len() + 1, |i: int| '=')
}

fn push_bytes_line(out: &mut String, label: &str, bytes: &[u8])
    ensures
        final(out)@ == old(out)@ + bytes_line(label@, bytes@),
{
    out.append(label);
    push_hex_list(out, bytes);
    out.append("\n");
    assert(out@ =~= old(out)@ + bytes_line(label@, bytes@));
}

fn push_index_line(out: &mut String, label: &str, index: u16)
    ensures
        final(out)@ == old(out)@ + index_line(label@, index),
{
    out.append(label);
    push_decimal(out, index);
    out.append("\n");
    assert(out@ =~= old(out)@ + index_line(label@, index));
}

/// Appends the lines that describe `payload`.
pub fn push_payload(out: &mut String, payload: &Payload)
    ensures
        final(out)@ == old(out)@ + payload_text(payload@),
{
    match payload {
        Payload::Utf8 { bytes, text } => {
            out.append("  bytes: ");
            push_hex_list(out, bytes.as_slice());
            match text {
                Ok(text) => {
                    out.append(" (\"");
                    out.append(text.as_str());
                    out.append("\")\n");
                },
                Err(_) => {
                    out.append(" (invalid UTF-8)\n");
                },
            }
        },
        Payload::Integer { raw } => push_bytes_line(out, "  bytes: ", raw.as_slice()),
        Payload::Float { raw } => push_bytes_line(out, "  bytes: ", raw.as_slice()),
        Payload::Long { high, low } => {
            push_bytes_line(out, "  high_bytes: ", high.as_slice());
            push_bytes_line(out, "  low_bytes: ", low.as_slice());
        },
        Payload::Double { high, low } => {
            push_bytes_line(out, "  high_bytes: ", high.as_slice());
            push_bytes_line(out, "  low_bytes: ", low.as_slice());
        },
        Payload::Class { name_index } => push_index_line(out, "  name_index: #", *name_index),
        Payload::String { string_index } => push_index_line(
            out,
            "  string_index: #",
            *string_index,
        ),
        Payload::Fieldref { class_index, name_and_type_index } => {
            push_index_line(out, "  class_index: #", *class_index);
            push_index_line(out, "  name_and_type_index: #", *name_and_type_index);
        },
        Payload::Methodref { class_index, name_and_type_index } => {
            push_index_line(out, "  class_index: #", *class_index);
            push_index_line(out, "  name_and_type_index: #", *name_and_type_index);
        },
        Payload::InterfaceMethodref { class_index, name_and_type_index } => {
            push_index_line(out, "  class_index: #", *class_index);
            push_index_line(out, "  name_and_type_index: #", *name_and_type_index);
        },
        Payload::NameAndType { name_index, descriptor_index } => {
            push_index_line(out, "  name_index: #", *name_index);
            push_index_line(out, "  descriptor_index: #", *descriptor_index);
        },
        Payload::MethodHandle { reference_kind, reference_index } => {
            push_index_line(out, "  reference_kind: #", *reference_kind as u16);
            push_index_line(out, "  reference_index: #", *reference_index);
        },
        Payload::MethodType { descriptor_index } => push_index_line(
            out,
            "  descriptor_index: #",
            *descriptor_index,
        ),
        Payload::InvokeDynamic { bootstrap_method_attr_index, name_and_type_index } => {
            push_index_line(out, "  bootstrap_method_attr_index: #", *bootstrap_method_attr_index);
            push_index_line(out, "  name_and_type_index: #", *name_and_type_index);
        },
    }
    assert(out@ =~= old(out)@ + payload_text(payload@));
}

/// Appends the lines that describe `entry`.
pub fn push_record(out: &mut String, entry: &ConstantPoolEntry)
    ensures
        final(out)@ == old(out)@ + record_text(entry@),
{
    out.append(" constant #");
    push_decimal(out, entry.index);
    out.append(":\n");
    out.append("  type ");
    push_decimal(out, entry.tag as u16);
    out.append(" (");
    out.append(format_constant_type(entry.tag));
    out.append(")\n");
    push_payload(out, &entry.payload);
    assert(out@ =~= old(out)@ + record_text(entry@));
}

/// The lines that describe `pool`: its declared count, then every record in order.
pub fn render_pool(pool: &ConstantPool) -> (text: String)
    ensures
        text@ == pool_text(pool@),
{
    let mut count_bytes: Vec<u8> = Vec::new();
    count_bytes.push((pool.count / 256) as u8);
    count_bytes.push((pool.count % 256) as u8);
    assert(count_bytes@ =~= be_bytes(pool.count));
    let mut out = format_entry("constant_pool_count:", count_bytes.as_slice());
    out.append(" (d");
    push_decimal(&mut out, pool.count);
    out.append(")\n");
    assert(out@ =~= count_text(pool.count));
    let mut i: usize = 0;
    assert(entry_views(pool.entries@).take(0) =~= Seq::empty());
    while i < pool.entries.len()
        invariant
            i <= pool.entries@.len(),
            out@ == count_text(pool.count) + records_text(
                entry_views(pool.entries@).take(i as int),
            ),
        decreases pool.entries@.len() - i,
    {
        let ghost views = entry_views(pool.entries@);
        assert(views.take(i + 1).drop_last() =~= views.take(i as int));
        push_record(&mut out, &pool.entries[i]);
        assert(out@ =~= count_text(pool.count) + records_text(views.take(i + 1)));
        i = i + 1;
    }
    assert(entry_views(pool.entries@).take(i as int) =~= entry_views(pool.entries@));
    out
}

/// Reads the 4-byte magic number and returns its line.
pub fn extract_magic(cursor: &mut ByteCursor) -> (result: Result<String, DecodeError>)
    ensures
        decodes(
            *old(cursor),
            *final(cursor),
            result,
            parse_bytes(old(cursor).remaining(), 4).map(|bytes: Seq<u8>| magic_text(bytes)),
        ),
{
    match cursor.read_bytes(4) {
        Ok(bytes) => Ok(format_entry("magic:", bytes.as_slice())),
        Err(e) => Err(e),
    }
}

fn extract_version(cursor: &mut ByteCursor) -> (result: Result<String, DecodeError>)
    ensures
        decodes(
            *old(cursor),
            *final(cursor),
            result,
            parse_bytes(old(cursor).remaining(), 2).map(|bytes: Seq<u8>| version_text(bytes)),
        ),
{
    let bytes = match cursor.read_bytes(2) {
        Ok(bytes) => bytes,
        Err(e) => return Err(e),
    };
    let value = big_endian_u16(bytes.as_slice());
    let mut out = format_entry("minor_version:", bytes.as_slice());
    out.append(" (d");
    push_decimal(&mut out, value);
    out.append(")");
    assert(out@ =~= version_text(bytes@));
    Ok(out)
}

/// Reads the 16-bit minor version and returns its line: the two bytes in
/// hexadecimal, then the value in decimal.
pub fn extract_minor_version(cursor: &mut ByteCursor) -> (result: Result<String, DecodeError>)
    ensures
        decodes(
            *old(cursor),
            *final(cursor),
            result,
            parse_bytes(old(cursor).remaining(), 2).map(|bytes: Seq<u8>| version_text(bytes)),
        ),
{
    extract_version(cursor)
}

/// Reads the 16-bit major version and returns its line. The line has the layout and
/// the label of the minor version's.
pub fn extract_major_version(cursor: &mut ByteCursor) -> (result: Result<String, DecodeError>)
    ensures
        decodes(
            *old(cursor),
            *final(cursor),
            result,
            parse_bytes(old(cursor).remaining(), 2).map(|bytes: Seq<u8>| version_text(bytes)),
        ),
{
    extract_version(cursor)
}

/// Decodes the constant pool and returns the lines that describe it. A pool that
/// does not decode yields the decoder's error and no text.
pub fn extract_constant_pool(cursor: &mut ByteCursor) -> (result: Result<String, DecodeError>)
    ensures
        decodes(
            *old(cursor),
            *final(cursor),
            result,
            parse_pool(old(cursor).remaining()).map(|pool: PoolView| pool_text(pool)),
        ),
{
    match decode_pool(cursor) {
        Ok(pool) => Ok(render_pool(&pool)),
        Err(e) => Err(e),
    }
}

/// The heading of the report on `file_name`.
pub fn heading(file_name: &str) -> (text: String)
    ensures
        text@ == heading_text(file_name@),
{
    let mut out = String::from_str(file_name);
    out.append(":\n");
    out.append("=");
    proof {
        reveal_strlit("=");
    }
    assert(out@ =~= file_name@ + ":\n"@ + Seq::new(1, |j: int| '='));
    let len = file_name.as_bytes().len();
    let mut i: usize = 0;
    while i < len
        invariant
            i <= len,
            len == encode_utf8(file_name@).len(),
            out@ == file_name@ + ":\n"@ + Seq::new((i + 1) as nat, |j: int| '='),
        decreases len - i,
    {
        proof {
            reveal_strlit("=");
        }
        out.append("=");
        assert(out@ =~= file_name@ + ":\n"@ + Seq::new((i + 2) as nat, |j: int| '='));
        i = i + 1;
    }
    out
}

} // verus!
