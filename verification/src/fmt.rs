//! Text rendering of raw bytes, labels and numbers, as used in the class-file report.

use vstd::prelude::*;
use vstd::string::{StrSliceExecFns, StringExecFns};
use vstd::utf8::encode_utf8;

use crate::pool::{
    TAG_CLASS, TAG_DOUBLE, TAG_FIELDREF, TAG_FLOAT, TAG_INTEGER, TAG_INTERFACE_METHODREF,
    TAG_INVOKE_DYNAMIC, TAG_LONG, TAG_METHODREF, TAG_METHOD_HANDLE, TAG_METHOD_TYPE,
    TAG_NAME_AND_TYPE, TAG_STRING, TAG_UTF8,
};

verus! {

/// Width, in bytes of UTF-8, to which a label is padded.
pub const NAME_WIDTH: usize = 21;

/// The digit of value `d` in upper-case hexadecimal, for `d` below 16.
pub open spec fn hex_digit(d: int) -> char {
    "0123456789ABCDEF"@[d]
}

/// A byte in upper-case hexadecimal without a leading zero: one digit below 16, two
/// from 16 on.
pub open spec fn hex_text(byte: u8) -> Seq<char> {
    if byte < 16 {
        seq![hex_digit(byte as int)]
    } else {
        seq![hex_digit(byte as int / 16), hex_digit(byte as int % 16)]
    }
}

/// The bytes in hexadecimal, separated by single spaces.
pub open spec fn hex_list(bytes: Seq<u8>) -> Seq<char>
    decreases bytes.len(),
{
    if bytes.len() == 0 {
        Seq::empty()
    } else if bytes.len() == 1 {
        hex_text(bytes[0])
    } else {
        hex_list(bytes.drop_last()) + seq![' '] + hex_text(bytes.last())
    }
}

/// A number in decimal, without leading zeros.
pub open spec fn decimal_text(n: nat) -> Seq<char>
    decreases n,
{
    if n < 10 {
        seq!["0123456789"@[n as int]]
    } else {
        decimal_text(n / 10).push("0123456789"@[(n % 10) as int])
    }
}

/// Number of spaces that bring `name` up to [`NAME_WIDTH`] bytes of UTF-8; none when
/// it is that long already.
pub open spec fn padding(name: Seq<char>) -> nat {
    if encode_utf8(name).len() < NAME_WIDTH {
        (NAME_WIDTH - encode_utf8(name).len()) as nat
    } else {
        0
    }
}

/// `name` followed by its padding.
pub open spec fn padded(name: Seq<char>) -> Seq<char> {
    name + Seq::new(padding(name), |i: int| ' ')
}

/// A labelled line of the report: the padded label, then the bytes in hexadecimal.
pub open spec fn entry_line(name: Seq<char>, bytes: Seq<u8>) -> Seq<char> {
    padded(name) + hex_list(bytes)
}

/// The symbolic name of a tag byte, `unknown` for a byte that is no tag.
pub open spec fn constant_type_name(tag: u8) -> Seq<char> {
    if tag == TAG_UTF8 {
        "CONSTANT_Utf8"@
    } else if tag == TAG_INTEGER {
        "CONSTANT_Integer"@
    } else if tag == TAG_FLOAT {
        "CONSTANT_Float"@
    } else if tag == TAG_LONG {
        "CONSTANT_Long"@
    } else if tag == TAG_DOUBLE {
        "CONSTANT_Double"@
    } else if tag == TAG_CLASS {
        "CONSTANT_Class"@
    } else if tag == TAG_STRING {
        "CONSTANT_String"@
    } else if tag == TAG_FIELDREF {
        "CONSTANT_Fieldref"@
    } else if tag == TAG_METHODREF {
        "CONSTANT_Methodref"@
    } else if tag == TAG_INTERFACE_METHODREF {
        "CONSTANT_InterfaceMethodref"@
    } else if tag == TAG_NAME_AND_TYPE {
        "CONSTANT_NameAndType"@
    } else if tag == TAG_METHOD_HANDLE {
        "CONSTANT_MethodHandle"@
    } else if tag == TAG_METHOD_TYPE {
        "CONSTANT_MethodType"@
    } else if tag == TAG_INVOKE_DYNAMIC {
        "CONSTANT_InvokeDynamic"@
    } else {
        "unknown"@
    }
}

/// Appends the hexadecimal digit of value `d`.
fn push_hex_digit(out: &mut String, d: u8)
    requires
        d < 16,
    ensures
        final(out)@ == old(out)@.push(hex_digit(d as int)),
{
    let digits = "0123456789ABCDEF";
    proof {
        reveal_strlit("0123456789ABCDEF");
    }
    out.append(digits.substring_ascii(d as usize, d as usize + 1));
    assert(out@ =~= old(out)@.push(hex_digit(d as int)));
}

/// Appends `byte` in hexadecimal.
pub fn push_hex(out: &mut String, byte: u8)
    ensures
        final(out)@ == old(out)@ + hex_text(byte),
{
    if byte >= 16 {
        push_hex_digit(out, byte / 16);
    }
    push_hex_digit(out, byte % 16);
    assert(out@ =~= old(out)@ + hex_text(byte));
}

/// Appends `n` in decimal.
pub fn push_decimal(out: &mut String, n: u16)
    ensures
        final(out)@ == old(out)@ + decimal_text(n as nat),
    decreases n,
{
    if n >= 10 {
        push_decimal(out, n / 10);
    }
    let digits = "0123456789";
    proof {
        reveal_strlit("0123456789");
    }
    let d = (n % 10) as usize;
    out.append(digits.substring_ascii(d, d + 1));
    assert(out@ =~= old(out)@ + decimal_text(n as nat));
}

/// Appends the bytes in hexadecimal, separated by single spaces.
pub fn push_hex_list(out: &mut String, bytes: &[u8])
    ensures
        final(out)@ == old(out)@ + hex_list(bytes@),
{
    let mut i: usize = 0;
    assert(bytes@.take(0) =~= Seq::empty());
    while i < bytes.len()
        invariant
            i <= bytes@.len(),
            out@ == old(out)@ + hex_list(bytes@.take(i as int)),
        decreases bytes@.len() - i,
    {
        let ghost before = out@;
        if i > 0 {
            proof {
                reveal_strlit(" ");
            }
            out.append(" ");
        }
        push_hex(out, bytes[i]);
        proof {
            let next = bytes@.take(i + 1);
            assert(next.drop_last() =~= bytes@.take(i as int));
            assert(next.last() == bytes@[i as int]);
            assert(out@ =~= old(out)@ + hex_list(next));
        }
        i = i + 1;
    }
    assert(bytes@.take(i as int) =~= bytes@);
}

/// The bytes in upper-case hexadecimal without leading zeros, separated by single
/// spaces.
pub fn format_bytes_as_hex(bytes: &[u8]) -> (text: String)
    ensures
        text@ == hex_list(bytes@),
{
    let mut out = String::new();
    push_hex_list(&mut out, bytes);
    out
}

/// `name`, padded with spaces to [`NAME_WIDTH`] bytes. A longer name is returned as
/// it is.
pub fn pad_name(name: &str) -> (text: String)
    ensures
        text@ == padded(name@),
{
    let mut out = String::from_str(name);
    let len = name.as_bytes().len();
    if len < NAME_WIDTH {
        let pad_size: usize = NAME_WIDTH - len;
        let mut i: usize = 0;
        while i < pad_size
            invariant
                i <= pad_size,
                pad_size == padding(name@),
                out@ == name@ + Seq::new(i as nat, |j: int| ' '),
            decreases pad_size - i,
        {
            proof {
                reveal_strlit(" ");
            }
            out.append(" ");
            assert(out@ =~= name@ + Seq::new((i + 1) as nat, |j: int| ' '));
            i = i + 1;
        }
    } else {
        assert(out@ =~= name@ + Seq::new(0, |j: int| ' '));
    }
    out
}

/// A labelled line: the padded `name`, then `bytes` in hexadecimal.
pub fn format_entry(name: &str, bytes: &[u8]) -> (text: String)
    ensures
        text@ == entry_line(name@, bytes@),
{
    let mut out = pad_name(name);
    push_hex_list(&mut out, bytes);
    out
}

/// The symbolic name of the record kind that `constant_type` announces, `unknown`
/// for a byte that is no tag.
pub fn format_constant_type(constant_type: u8) -> (name: &'static str)
    ensures
        name@ == constant_type_name(constant_type),
{
    match constant_type {
        TAG_UTF8 => "CONSTANT_Utf8",
        TAG_INTEGER => "CONSTANT_Integer",
        TAG_FLOAT => "CONSTANT_Float",
        TAG_LONG => "CONSTANT_Long",
        TAG_DOUBLE => "CONSTANT_Double",
        TAG_CLASS => "CONSTANT_Class",
        TAG_STRING => "CONSTANT_String",
        TAG_FIELDREF => "CONSTANT_Fieldref",
        TAG_METHODREF => "CONSTANT_Methodref",
        TAG_INTERFACE_METHODREF => "CONSTANT_InterfaceMethodref",
        TAG_NAME_AND_TYPE => "CONSTANT_NameAndType",
        TAG_METHOD_HANDLE => "CONSTANT_MethodHandle",
        TAG_METHOD_TYPE => "CONSTANT_MethodType",
        TAG_INVOKE_DYNAMIC => "CONSTANT_InvokeDynamic",
        _ => "unknown",
    }
}

} // verus!
