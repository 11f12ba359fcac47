//! The decoded constant pool and its mathematical view.

use vstd::prelude::*;
use vstd::utf8::{decode_utf8, valid_utf8};

use crate::error::DecodeError;

verus! {

/// Tag bytes of the fourteen record kinds.
pub const TAG_UTF8: u8 = 1;

pub const TAG_INTEGER: u8 = 3;

pub const TAG_FLOAT: u8 = 4;

pub const TAG_LONG: u8 = 5;

pub const TAG_DOUBLE: u8 = 6;

pub const TAG_CLASS: u8 = 7;

pub const TAG_STRING: u8 = 8;

pub const TAG_FIELDREF: u8 = 9;

pub const TAG_METHODREF: u8 = 10;

pub const TAG_INTERFACE_METHODREF: u8 = 11;

pub const TAG_NAME_AND_TYPE: u8 = 12;

pub const TAG_METHOD_HANDLE: u8 = 15;

pub const TAG_METHOD_TYPE: u8 = 16;

pub const TAG_INVOKE_DYNAMIC: u8 = 18;

/// The text that the bytes of a `Utf8` record stand for: their characters when the
/// bytes are valid UTF-8, the `InvalidUtf8` flag when they are not.
pub open spec fn utf8_text(bytes: Seq<u8>) -> Result<Seq<char>, DecodeError> {
    if valid_utf8(bytes) {
        Ok(decode_utf8(bytes))
    } else {
        Err(DecodeError::InvalidUtf8)
    }
}

/// What follows the tag byte of one record. Fields that point into the pool are
/// kept as the raw 1-based indices found in the stream.
#[derive(Debug, PartialEq, Eq)]
pub enum Payload {
    /// Length-prefixed text. `bytes` is always what the stream held; `text` is
    /// `Err(InvalidUtf8)` when those bytes are not valid UTF-8.
    Utf8 { bytes: Vec<u8>, text: Result<String, DecodeError> },
    Integer { raw: [u8; 4] },
    Float { raw: [u8; 4] },
    Long { high: [u8; 4], low: [u8; 4] },
    Double { high: [u8; 4], low: [u8; 4] },
    Class { name_index: u16 },
    String { string_index: u16 },
    Fieldref { class_index: u16, name_and_type_index: u16 },
    Methodref { class_index: u16, name_and_type_index: u16 },
    InterfaceMethodref { class_index: u16, name_and_type_index: u16 },
    NameAndType { name_index: u16, descriptor_index: u16 },
    MethodHandle { reference_kind: u8, reference_index: u16 },
    MethodType { descriptor_index: u16 },
    InvokeDynamic { bootstrap_method_attr_index: u16, name_and_type_index: u16 },
}

/// Mathematical value of a [`Payload`].
pub ghost enum PayloadView {
    Utf8 { bytes: Seq<u8>, text: Result<Seq<char>, DecodeError> },
    Integer { raw: Seq<u8> },
    Float { raw: Seq<u8> },
    Long { high: Seq<u8>, low: Seq<u8> },
    Double { high: Seq<u8>, low: Seq<u8> },
    Class { name_index: u16 },
    String { string_index: u16 },
    Fieldref { class_index: u16, name_and_type_index: u16 },
    Methodref { class_index: u16, name_and_type_index: u16 },
    InterfaceMethodref { class_index: u16, name_and_type_index: u16 },
    NameAndType { name_index: u16, descriptor_index: u16 },
    MethodHandle { reference_kind: u8, reference_index: u16 },
    MethodType { descriptor_index: u16 },
    InvokeDynamic { bootstrap_method_attr_index: u16, name_and_type_index: u16 },
}

impl PayloadView {
    /// The tag byte that announces a payload of this kind.
    pub open spec fn tag(self) -> u8 {
        match self {
            PayloadView::Utf8 { .. } => TAG_UTF8,
            PayloadView::Integer { .. } => TAG_INTEGER,
            PayloadView::Float { .. } => TAG_FLOAT,
            PayloadView::Long { .. } => TAG_LONG,
            PayloadView::Double { .. } => TAG_DOUBLE,
            PayloadView::Class { .. } => TAG_CLASS,
            PayloadView::String { .. } => TAG_STRING,
            PayloadView::Fieldref { .. } => TAG_FIELDREF,
            PayloadView::Methodref { .. } => TAG_METHODREF,
            PayloadView::InterfaceMethodref { .. } => TAG_INTERFACE_METHODREF,
            PayloadView::NameAndType { .. } => TAG_NAME_AND_TYPE,
            PayloadView::MethodHandle { .. } => TAG_METHOD_HANDLE,
            PayloadView::MethodType { .. } => TAG_METHOD_TYPE,
            PayloadView::InvokeDynamic { .. } => TAG_INVOKE_DYNAMIC,
        }
    }

    /// Number of bytes the payload occupies in the stream, the tag byte not counted.
    pub open spec fn size(self) -> nat {
        match self {
            PayloadView::Utf8 { bytes, .. } => 2 + bytes.len(),
            PayloadView::Integer { .. } | PayloadView::Float { .. } => 4,
            PayloadView::Long { .. } | PayloadView::Double { .. } => 8,
            PayloadView::Class { .. } | PayloadView::String { .. } | PayloadView::MethodType {
                ..
            } => 2,
            PayloadView::MethodHandle { .. } => 3,
            PayloadView::Fieldref { .. }
            | PayloadView::Methodref { .. }
            | PayloadView::InterfaceMethodref { .. }
            | PayloadView::NameAndType { .. }
            | PayloadView::InvokeDynamic { .. } => 4,
        }
    }

    /// The payload can be written to a stream: the text of a `Utf8` payload is short
    /// enough for its 16-bit length field.
    pub open spec fn encodable(self) -> bool {
        self matches PayloadView::Utf8 { bytes, .. } ==> bytes.len() <= u16::MAX
    }

    /// Field widths are what the format prescribes, and the text of a `Utf8` payload
    /// is the one its bytes stand for.
    pub open spec fn wf(self) -> bool {
        match self {
            PayloadView::Utf8 { bytes, text } => bytes.len() <= u16::MAX && text == utf8_text(
                bytes,
            ),
            PayloadView::Integer { raw } | PayloadView::Float { raw } => raw.len() == 4,
            PayloadView::Long { high, low } | PayloadView::Double { high, low } => high.len() == 4
                && low.len() == 4,
            _ => true,
        }
    }
}

impl View for Payload {
    type V = PayloadView;

    open spec fn view(&self) -> PayloadView {
        match *self {
            Payload::Utf8 { bytes, text } => PayloadView::Utf8 {
                bytes: bytes@,
                text: match text {
                    Ok(s) => Ok(s@),
                    Err(e) => Err(e),
                },
            },
            Payload::Integer { raw } => PayloadView::Integer { raw: raw@ },
            Payload::Float { raw } => PayloadView::Float { raw: raw@ },
            Payload::Long { high, low } => PayloadView::Long { high: high@, low: low@ },
            Payload::Double { high, low } => PayloadView::Double { high: high@, low: low@ },
            Payload::Class { name_index } => PayloadView::Class { name_index },
            Payload::String { string_index } => PayloadView::String { string_index },
            Payload::Fieldref { class_index, name_and_type_index } => PayloadView::Fieldref {
                class_index,
                name_and_type_index,
            },
            Payload::Methodref { class_index, name_and_type_index } => PayloadView::Methodref {
                class_index,
                name_and_type_index,
            },
            Payload::InterfaceMethodref {
                class_index,
                name_and_type_index,
            } => PayloadView::InterfaceMethodref { class_index, name_and_type_index },
            Payload::NameAndType { name_index, descriptor_index } => PayloadView::NameAndType {
                name_index,
                descriptor_index,
            },
            Payload::MethodHandle { reference_kind, reference_index } => PayloadView::MethodHandle {
                reference_kind,
                reference_index,
            },
            Payload::MethodType { descriptor_index } => PayloadView::MethodType {
                descriptor_index,
            },
            Payload::InvokeDynamic {
                bootstrap_method_attr_index,
                name_and_type_index,
            } => PayloadView::InvokeDynamic { bootstrap_method_attr_index, name_and_type_index },
        }
    }
}

impl Clone for Payload {
    fn clone(&self) -> (copy: Self)
        ensures
            copy@ == self@,
    {
        match self {
            Payload::Utf8 { bytes, text } => {
                let bytes_copy = bytes.clone();
                assert(bytes_copy@ =~= bytes@);
                let text_copy = match text {
                    Ok(s) => Ok(s.clone()),
                    Err(e) => Err(*e),
                };
                Payload::Utf8 { bytes: bytes_copy, text: text_copy }
            },
            Payload::Integer { raw } => Payload::Integer { raw: *raw },
            Payload::Float { raw } => Payload::Float { raw: *raw },
            Payload::Long { high, low } => Payload::Long { high: *high, low: *low },
            Payload::Double { high, low } => Payload::Double { high: *high, low: *low },
            Payload::Class { name_index } => Payload::Class { name_index: *name_index },
            Payload::String { string_index } => Payload::String { string_index: *string_index },
            Payload::Fieldref { class_index, name_and_type_index } => Payload::Fieldref {
                class_index: *class_index,
                name_and_type_index: *name_and_type_index,
            },
            Payload::Methodref { class_index, name_and_type_index } => Payload::Methodref {
                class_index: *class_index,
                name_and_type_index: *name_and_type_index,
            },
            Payload::InterfaceMethodref {
                class_index,
                name_and_type_index,
            } => Payload::InterfaceMethodref {
                class_index: *class_index,
                name_and_type_index: *name_and_type_index,
            },
            Payload::NameAndType { name_index, descriptor_index } => Payload::NameAndType {
                name_index: *name_index,
                descriptor_index: *descriptor_index,
            },
            Payload::MethodHandle { reference_kind, reference_index } => Payload::MethodHandle {
                reference_kind: *reference_kind,
                reference_index: *reference_index,
            },
            Payload::MethodType { descriptor_index } => Payload::MethodType {
                descriptor_index: *descriptor_index,
            },
            Payload::InvokeDynamic {
                bootstrap_method_attr_index,
                name_and_type_index,
            } => Payload::InvokeDynamic {
                bootstrap_method_attr_index: *bootstrap_method_attr_index,
                name_and_type_index: *name_and_type_index,
            },
        }
    }
}

/// One decoded record.
#[derive(Debug, PartialEq, Eq)]
pub struct ConstantPoolEntry {
    /// 1-based position in the pool.
    pub index: u16,
    /// The tag byte the record started with.
    pub tag: u8,
    pub payload: Payload,
}

/// Mathematical value of a [`ConstantPoolEntry`].
pub ghost struct EntryView {
    pub index: u16,
    pub tag: u8,
    pub payload: PayloadView,
}

impl EntryView {
    /// See [`PayloadView::encodable`].
    pub open spec fn encodable(self) -> bool {
        self.payload.encodable()
    }

    /// The tag is the one that belongs to the payload's kind.
    pub open spec fn wf(self) -> bool {
        self.tag == self.payload.tag() && self.payload.wf()
    }

    /// Number of bytes the record occupies in the stream, the tag byte included.
    pub open spec fn size(self) -> nat {
        1 + self.payload.size()
    }
}

impl View for ConstantPoolEntry {
    type V = EntryView;

    open spec fn view(&self) -> EntryView {
        EntryView { index: self.index, tag: self.tag, payload: self.payload@ }
    }
}

/// Number of records that follow a declared count: index 0 is reserved, so a count
/// of `n` announces `n - 1` records, and a count of 0 announces none.
pub open spec fn entry_count(count: u16) -> nat {
    if count == 0 {
        0
    } else {
        (count - 1) as nat
    }
}

/// The mathematical values of `entries`, in the same order.
pub open spec fn entry_views(entries: Seq<ConstantPoolEntry>) -> Seq<EntryView> {
    Seq::new(entries.len(), |i: int| entries[i]@)
}

impl Clone for ConstantPoolEntry {
    fn clone(&self) -> (copy: Self)
        ensures
            copy@ == self@,
    {
        ConstantPoolEntry { index: self.index, tag: self.tag, payload: self.payload.clone() }
    }
}

/// The decoded pool: the declared count and the records in stream order.
#[derive(Debug, PartialEq, Eq)]
pub struct ConstantPool {
    pub count: u16,
    pub entries: Vec<ConstantPoolEntry>,
}

/// Mathematical value of a [`ConstantPool`].
pub ghost struct PoolView {
    pub count: u16,
    pub entries: Seq<EntryView>,
}

impl PoolView {
    /// Every record can be written to a stream.
    pub open spec fn encodable(self) -> bool {
        forall|i: int| 0 <= i < self.entries.len() ==> (#[trigger] self.entries[i]).encodable()
    }

    /// The pool holds as many records as its count announces, numbered from 1 in
    /// order, each of them well formed.
    pub open spec fn wf(self) -> bool {
        &&& self.entries.len() == entry_count(self.count)
        &&& forall|i: int|
            0 <= i < self.entries.len() ==> (#[trigger] self.entries[i]).index == i + 1
        &&& forall|i: int| 0 <= i < self.entries.len() ==> (#[trigger] self.entries[i]).wf()
    }
}

impl View for ConstantPool {
    type V = PoolView;

    open spec fn view(&self) -> PoolView {
        PoolView { count: self.count, entries: entry_views(self.entries@) }
    }
}

impl Clone for ConstantPool {
    fn clone(&self) -> (copy: Self)
        ensures
            copy@ == self@,
    {
        let mut entries: Vec<ConstantPoolEntry> = Vec::new();
        let mut i: usize = 0;
        while i < self.entries.len()
            invariant
                i <= self.entries@.len(),
                entries@.len() == i,
                forall|j: int| 0 <= j < i ==> (#[trigger] entries@[j])@ == self.entries@[j]@,
            decreases self.entries@.len() - i,
        {
            entries.push(self.entries[i].clone());
            i = i + 1;
        }
        assert(entry_views(entries@) =~= entry_views(self.entries@));
        ConstantPool { count: self.count, entries }
    }
}

impl ConstantPool {
    /// See [`PoolView::wf`].
    pub open spec fn wf(&self) -> bool {
        self@.wf()
    }

    /// The record at 1-based position `index`, if the pool has that many. In a
    /// well-formed pool this is the record numbered `index`.
    pub fn get(&self, index: u16) -> (entry: Option<&ConstantPoolEntry>)
        ensures
            match entry {
                Some(e) => 1 <= index <= self.entries@.len() && *e == self.entries@[index - 1],
                None => index == 0 || index > self.entries@.len(),
            },
            self.wf() ==> (entry matches Some(e) ==> e.index == index),
    {
        if index == 0 || index as usize > self.entries.len() {
            None
        } else {
            assert(self@.entries[index - 1] == self.entries@[index - 1]@);
            Some(&self.entries[index as usize - 1])
        }
    }
}

} // verus!
