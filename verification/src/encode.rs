//! Writing a constant pool back to bytes, in the layout it is decoded from.

use vstd::prelude::*;

use crate::pool::{
    entry_views, ConstantPool, ConstantPoolEntry, EntryView, Payload, PayloadView, PoolView,
};

verus! {

/// The big-endian encoding of a 16-bit value: the high byte, then the low byte.
pub open spec fn be_bytes(value: u16) -> Seq<u8> {
    seq![(value / 256) as u8, (value % 256) as u8]
}

/// The bytes of a payload, in stream order. A `Utf8` payload is written from its
/// raw bytes, so text that failed to decode is written back unchanged.
pub open spec fn encode_payload(payload: PayloadView) -> Seq<u8> {
    match payload {
        PayloadView::Utf8 { bytes, .. } => be_bytes(bytes.len() as u16) + bytes,
        PayloadView::Integer { raw } | PayloadView::Float { raw } => raw,
        PayloadView::Long { high, low } | PayloadView::Double { high, low } => high + low,
        PayloadView::Class { name_index } => be_bytes(name_index),
        PayloadView::String { string_index } => be_bytes(string_index),
        PayloadView::MethodType { descriptor_index } => be_bytes(descriptor_index),
        PayloadView::Fieldref { class_index, name_and_type_index }
        | PayloadView::Methodref { class_index, name_and_type_index }
        | PayloadView::InterfaceMethodref { class_index, name_and_type_index } => be_bytes(
            class_index,
        ) + be_bytes(name_and_type_index),
        PayloadView::NameAndType { name_index, descriptor_index } => be_bytes(name_index)
            + be_bytes(descriptor_index),
        PayloadView::MethodHandle { reference_kind, reference_index } => seq![reference_kind]
            + be_bytes(reference_index),
        PayloadView::InvokeDynamic { bootstrap_method_attr_index, name_and_type_index } => be_bytes(
            bootstrap_method_attr_index,
        ) + be_bytes(name_and_type_index),
    }
}

/// The bytes of one record: its tag, then its payload.
pub open spec fn encode_entry(entry: EntryView) -> Seq<u8> {
    seq![entry.tag] + encode_payload(entry.payload)
}

/// The bytes of a run of records, one after another.
pub open spec fn encode_entries(entries: Seq<EntryView>) -> Seq<u8>
    decreases entries.len(),
{
    if entries.len() == 0 {
        Seq::empty()
    } else {
        encode_entries(entries.drop_last()) + encode_entry(entries.last())
    }
}

/// The bytes of a whole pool: the declared count, then the records.
pub open spec fn encode_pool(pool: PoolView) -> Seq<u8> {
    be_bytes(pool.count) + encode_entries(pool.entries)
}

fn push_u16(out: &mut Vec<u8>, value: u16)
    ensures
        final(out)@ == old(out)@ + be_bytes(value),
{
    out.push((value / 256) as u8);
    out.push((value % 256) as u8);
    assert(out@ =~= old(out)@ + be_bytes(value));
}

fn push_all(out: &mut Vec<u8>, bytes: &[u8])
    ensures
        final(out)@ == old(out)@ + bytes@,
{
    let mut i: usize = 0;
    while i < bytes.len()
        invariant
            i <= bytes@.len(),
            out@ == old(out)@ + bytes@.take(i as int),
        decreases bytes@.len() - i,
    {
        out.push(bytes[i]);
        assert(bytes@.take(i + 1) =~= bytes@.take(i as int).push(bytes@[i as int]));
        i = i + 1;
    }
    assert(bytes@.take(i as int) =~= bytes@);
}

impl Payload {
    /// Appends the bytes of this payload to `out`.
    pub fn encode_into(&self, out: &mut Vec<u8>)
        requires
            self@.encodable(),
        ensures
            final(out)@ == old(out)@ + encode_payload(self@),
    {
        match self {
            Payload::Utf8 { bytes, .. } => {
                push_u16(out, bytes.len() as u16);
                push_all(out, bytes.as_slice());
            },
            Payload::Integer { raw } => push_all(out, raw.as_slice()),
            Payload::Float { raw } => push_all(out, raw.as_slice()),
            Payload::Long { high, low } => {
                push_all(out, high.as_slice());
                push_all(out, low.as_slice());
            },
            Payload::Double { high, low } => {
                push_all(out, high.as_slice());
                push_all(out, low.as_slice());
            },
            Payload::Class { name_index } => push_u16(out, *name_index),
            Payload::String { string_index } => push_u16(out, *string_index),
            Payload::MethodType { descriptor_index } => push_u16(out, *descriptor_index),
            Payload::Fieldref { class_index, name_and_type_index } => {
                push_u16(out, *class_index);
                push_u16(out, *name_and_type_index);
            },
            Payload::Methodref { class_index, name_and_type_index } => {
                push_u16(out, *class_index);
                push_u16(out, *name_and_type_index);
            },
            Payload::InterfaceMethodref { class_index, name_and_type_index } => {
                push_u16(out, *class_index);
                push_u16(out, *name_and_type_index);
            },
            Payload::NameAndType { name_index, descriptor_index } => {
                push_u16(out, *name_index);
                push_u16(out, *descriptor_index);
            },
            Payload::MethodHandle { reference_kind, reference_index } => {
                out.push(*reference_kind);
                push_u16(out, *reference_index);
            },
            Payload::InvokeDynamic { bootstrap_method_attr_index, name_and_type_index } => {
                push_u16(out, *bootstrap_method_attr_index);
                push_u16(out, *name_and_type_index);
            },
        }
        assert(out@ =~= old(out)@ + encode_payload(self@));
    }
}

impl ConstantPoolEntry {
    /// Appends the bytes of this record to `out`: the tag, then the payload.
    pub fn encode_into(&self, out: &mut Vec<u8>)
        requires
            self@.encodable(),
        ensures
            final(out)@ == old(out)@ + encode_entry(self@),
    {
        out.push(self.tag);
        self.payload.encode_into(out);
        assert(out@ =~= old(out)@ + encode_entry(self@));
    }
}

impl ConstantPool {
    /// Whether [`ConstantPool::encode`] may be called on this pool: no text in it is
    /// longer than a 16-bit length can say.
    pub fn is_encodable(&self) -> (yes: bool)
        ensures
            yes == self@.encodable(),
    {
        let mut i: usize = 0;
        while i < self.entries.len()
            invariant
                i <= self.entries@.len(),
                forall|j: int| 0 <= j < i ==> (#[trigger] self@.entries[j]).encodable(),
            decreases self.entries@.len() - i,
        {
            if let Payload::Utf8 { bytes, .. } = &self.entries[i].payload {
                if bytes.len() > 0xFFFF {
                    assert(!self@.entries[i as int].encodable());
                    return false;
                }
            }
            assert(self@.entries[i as int].encodable());
            i = i + 1;
        }
        true
    }

    /// The bytes of this pool: the count, then every record in order. For a pool
    /// that was decoded, these are the bytes it was decoded from.
    pub fn encode(&self) -> (bytes: Vec<u8>)
        requires
            self@.encodable(),
        ensures
            bytes@ == encode_pool(self@),
    {
        let mut out: Vec<u8> = Vec::new();
        push_u16(&mut out, self.count);
        let mut i: usize = 0;
        assert(entry_views(self.entries@).take(0) =~= Seq::empty());
        while i < self.entries.len()
            invariant
                self@.encodable(),
                i <= self.entries@.len(),
                out@ == be_bytes(self.count) + encode_entries(
                    entry_views(self.entries@).take(i as int),
                ),
            decreases self.entries@.len() - i,
        {
            let ghost views = entry_views(self.entries@);
            assert(views.take(i + 1).drop_last() =~= views.take(i as int));
            assert(self@.entries[i as int].encodable());
            self.entries[i].encode_into(&mut out);
            i = i + 1;
        }
        assert(entry_views(self.entries@).take(i as int) =~= entry_views(self.entries@));
        out
    }
}

} // verus!
