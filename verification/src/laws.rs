//! What holds of every decoding pass, proved from the grammar.

use vstd::prelude::*;
use vstd::utf8::decode_utf8;

use crate::cursor::{be16, ByteCursor};
use crate::decode::decodes;
use crate::encode::{be_bytes, encode_entries, encode_entry, encode_payload, encode_pool};
use crate::error::DecodeError;
use crate::grammar::{
    done, is_known_tag, lemma_entries_in_bounds, lemma_entry_in_bounds, lemma_payload_in_bounds,
    lemma_pool_in_bounds, parse_entries, parse_entry, parse_payload, parse_pool, Outcome,
};
use crate::pool::{entry_count, ConstantPool, EntryView, PayloadView, PoolView, TAG_UTF8};

verus! {

/// Number of bytes a run of records occupies: for each record its tag byte and its
/// payload.
pub open spec fn entries_size(entries: Seq<EntryView>) -> nat
    decreases entries.len(),
{
    if entries.len() == 0 {
        0
    } else {
        entries_size(entries.drop_last()) + entries.last().size()
    }
}

/// A payload that decodes is of the kind its tag announces, has fields of the
/// prescribed widths, and took exactly the bytes its kind occupies.
pub proof fn lemma_payload_well_formed(tag: u8, s: Seq<u8>)
    ensures
        parse_payload(tag, s).result matches Ok(payload) ==> {
            &&& payload.wf()
            &&& payload.tag() == tag
            &&& parse_payload(tag, s).consumed == payload.size()
        },
{
}

/// A record that decodes carries the index it was given and the tag it started
/// with, and took one byte more than its payload.
pub proof fn lemma_entry_well_formed(s: Seq<u8>, index: u16)
    ensures
        parse_entry(s, index).result matches Ok(entry) ==> {
            &&& entry.wf()
            &&& entry.index == index
            &&& entry.tag == s[0]
            &&& parse_entry(s, index).consumed == entry.size()
        },
{
    if s.len() >= 1 {
        lemma_payload_well_formed(s[0], s.skip(1));
    }
}

/// Decoding `n` records yields exactly `n` of them, numbered 1 to `n` in stream
/// order, and consumes the sum of their sizes.
pub proof fn lemma_entries_numbered_in_order(s: Seq<u8>, n: nat)
    requires
        n <= u16::MAX,
    ensures
        parse_entries(s, n).result matches Ok(entries) ==> {
            &&& entries.len() == n
            &&& forall|i: int| 0 <= i < n ==> (#[trigger] entries[i]).index == i + 1
            &&& forall|i: int| 0 <= i < n ==> (#[trigger] entries[i]).wf()
            &&& parse_entries(s, n).consumed == entries_size(entries)
        },
    decreases n,
{
    if n > 0 {
        let before = parse_entries(s, (n - 1) as nat);
        lemma_entries_numbered_in_order(s, (n - 1) as nat);
        if let Ok(entries) = parse_entries(s, n).result {
            lemma_entry_well_formed(s.skip(before.consumed), n as u16);
            assert(entries.drop_last() =~= before.result->Ok_0);
        }
    }
}

/// A pool with declared count `n` decodes to `n - 1` records with indices 1 to
/// `n - 1` in order (to none when the count is 0), and the bytes consumed are the two
/// of the count plus, for each record, its tag byte and its payload.
pub proof fn lemma_pool_well_formed(s: Seq<u8>)
    ensures
        parse_pool(s).result matches Ok(pool) ==> {
            &&& pool.wf()
            &&& pool.count == be16(s[0], s[1])
            &&& pool.count >= 1 ==> pool.entries.len() == pool.count - 1
            &&& forall|i: int|
                0 <= i < pool.entries.len() ==> (#[trigger] pool.entries[i]).index == i + 1
            &&& parse_pool(s).consumed == 2 + entries_size(pool.entries)
        },
{
    if s.len() >= 2 {
        lemma_entries_numbered_in_order(s.skip(2), entry_count(be16(s[0], s[1])));
    }
}

/// Writing a 16-bit value big-endian and reading it back gives the value, and the
/// two bytes read are the two bytes written.
pub proof fn lemma_be16_round_trip(hi: u8, lo: u8)
    ensures
        be_bytes(be16(hi, lo)) == seq![hi, lo],
{
    assert(be_bytes(be16(hi, lo)) =~= seq![hi, lo]);
}

/// Encoding a decoded payload reproduces the bytes it was decoded from.
pub proof fn lemma_payload_round_trip(tag: u8, s: Seq<u8>)
    ensures
        parse_payload(tag, s).result matches Ok(payload) ==> encode_payload(payload) == s.take(
            parse_payload(tag, s).consumed,
        ),
{
    if let Ok(payload) = parse_payload(tag, s).result {
        let n = parse_payload(tag, s).consumed;
        lemma_payload_in_bounds(tag, s);
        if s.len() >= 2 {
            lemma_be16_round_trip(s[0], s[1]);
        }
        if s.len() >= 3 {
            lemma_be16_round_trip(s[1], s[2]);
        }
        if s.len() >= 4 {
            lemma_be16_round_trip(s[2], s[3]);
        }
        assert(encode_payload(payload) =~= s.take(n));
    }
}

/// Encoding a decoded record reproduces the bytes it was decoded from.
pub proof fn lemma_entry_round_trip(s: Seq<u8>, index: u16)
    ensures
        parse_entry(s, index).result matches Ok(entry) ==> encode_entry(entry) == s.take(
            parse_entry(s, index).consumed,
        ),
{
    if let Ok(entry) = parse_entry(s, index).result {
        lemma_payload_round_trip(s[0], s.skip(1));
        lemma_payload_in_bounds(s[0], s.skip(1));
        assert(encode_entry(entry) =~= s.take(parse_entry(s, index).consumed));
    }
}

/// Encoding a decoded run of records reproduces the bytes it was decoded from.
pub proof fn lemma_entries_round_trip(s: Seq<u8>, n: nat)
    ensures
        parse_entries(s, n).result matches Ok(entries) ==> encode_entries(entries) == s.take(
            parse_entries(s, n).consumed,
        ),
    decreases n,
{
    if let Ok(entries) = parse_entries(s, n).result {
        if n == 0 {
            assert(encode_entries(entries) =~= s.take(0));
        } else {
            let before = parse_entries(s, (n - 1) as nat);
            let rest = s.skip(before.consumed);
            lemma_entries_round_trip(s, (n - 1) as nat);
            lemma_entries_in_bounds(s, (n - 1) as nat);
            lemma_entry_round_trip(rest, n as u16);
            lemma_entry_in_bounds(rest, n as u16);
            assert(entries.drop_last() =~= before.result->Ok_0);
            assert(encode_entries(entries) =~= s.take(parse_entries(s, n).consumed));
        }
    }
}

/// Round trip: whenever a byte sequence decodes, encoding the decoded pool gives
/// back exactly the bytes that decoding consumed.
pub proof fn lemma_encode_inverts_decode(s: Seq<u8>)
    ensures
        parse_pool(s).result matches Ok(pool) ==> encode_pool(pool) == s.take(
            parse_pool(s).consumed,
        ),
{
    if let Ok(pool) = parse_pool(s).result {
        let n = entry_count(be16(s[0], s[1]));
        lemma_be16_round_trip(s[0], s[1]);
        lemma_entries_round_trip(s.skip(2), n);
        lemma_entries_in_bounds(s.skip(2), n);
        assert(encode_pool(pool) =~= s.take(parse_pool(s).consumed));
    }
}

/// A payload is decided by the bytes it consumes: bytes that agree on them decode
/// to the same payload.
pub proof fn lemma_payload_reads_only_its_bytes(tag: u8, a: Seq<u8>, b: Seq<u8>)
    requires
        parse_payload(tag, a).result is Ok,
        b.len() >= parse_payload(tag, a).consumed,
        b.take(parse_payload(tag, a).consumed) == a.take(
            parse_payload(tag, a).consumed,
        ),
    ensures
        parse_payload(tag, b) == parse_payload(tag, a),
{
    let n = parse_payload(tag, a).consumed;
    lemma_payload_in_bounds(tag, a);
    assert forall|i: int| 0 <= i < n implies a[i] == b[i] by {
        assert(a.take(n)[i] == b.take(n)[i]);
    }
    if tag == TAG_UTF8 {
        assert(a.subrange(2, n) =~= b.subrange(2, n));
    } else {
        if n >= 4 {
            assert(a.subrange(0, 4) =~= b.subrange(0, 4));
        }
        if n >= 8 {
            assert(a.subrange(4, 8) =~= b.subrange(4, 8));
        }
    }
}

/// A record is decided by the bytes it consumes.
pub proof fn lemma_entry_reads_only_its_bytes(a: Seq<u8>, b: Seq<u8>, index: u16)
    requires
        parse_entry(a, index).result is Ok,
        b.len() >= parse_entry(a, index).consumed,
        b.take(parse_entry(a, index).consumed) == a.take(
            parse_entry(a, index).consumed,
        ),
    ensures
        parse_entry(b, index) == parse_entry(a, index),
{
    let n = parse_entry(a, index).consumed;
    lemma_entry_in_bounds(a, index);
    assert(a[0] == b[0]) by {
        assert(a.take(n)[0] == b.take(n)[0]);
    }
    assert(b.skip(1).take(n - 1) =~= b.take(n).skip(1));
    assert(a.skip(1).take(n - 1) =~= a.take(n).skip(1));
    lemma_payload_reads_only_its_bytes(a[0], a.skip(1), b.skip(1));
}

/// A run of records is decided by the bytes it consumes.
pub proof fn lemma_entries_read_only_their_bytes(a: Seq<u8>, b: Seq<u8>, n: nat)
    requires
        parse_entries(a, n).result is Ok,
        b.len() >= parse_entries(a, n).consumed,
        b.take(parse_entries(a, n).consumed) == a.take(
            parse_entries(a, n).consumed,
        ),
    ensures
        parse_entries(b, n) == parse_entries(a, n),
    decreases n,
{
    if n > 0 {
        let total = parse_entries(a, n).consumed;
        let before = parse_entries(a, (n - 1) as nat);
        let c = before.consumed;
        let next = parse_entry(a.skip(c), n as u16);
        lemma_entries_in_bounds(a, n);
        lemma_entries_in_bounds(a, (n - 1) as nat);
        assert(b.take(c) =~= b.take(total).take(c));
        assert(a.take(c) =~= a.take(total).take(c));
        lemma_entries_read_only_their_bytes(a, b, (n - 1) as nat);
        assert(b.skip(c).take(total - c) =~= b.take(total).skip(c));
        assert(a.skip(c).take(total - c) =~= a.take(total).skip(c));
        lemma_entry_reads_only_its_bytes(a.skip(c), b.skip(c), n as u16);
    }
}

/// Decoding is decided by the bytes it consumes: whenever `a` decodes, every byte
/// sequence that agrees with `a` on the consumed bytes decodes to the same pool and
/// consumes as much, whatever follows.
pub proof fn lemma_pool_reads_only_its_bytes(a: Seq<u8>, b: Seq<u8>)
    requires
        parse_pool(a).result is Ok,
        b.len() >= parse_pool(a).consumed,
        b.take(parse_pool(a).consumed) == a.take(parse_pool(a).consumed),
    ensures
        parse_pool(b) == parse_pool(a),
{
    let total = parse_pool(a).consumed;
    lemma_pool_in_bounds(a);
    lemma_entries_in_bounds(a.skip(2), entry_count(be16(a[0], a[1])));
    assert(a[0] == b[0] && a[1] == b[1]) by {
        assert(a.take(total)[0] == b.take(total)[0]);
        assert(a.take(total)[1] == b.take(total)[1]);
    }
    assert(b.skip(2).take(total - 2) =~= b.take(total).skip(2));
    assert(a.skip(2).take(total - 2) =~= a.take(total).skip(2));
    lemma_entries_read_only_their_bytes(a.skip(2), b.skip(2), entry_count(be16(a[0], a[1])));
}

/// Idempotence: two decoding passes over the same unread bytes end alike. They
/// return the same pool or the same error, consume the same number of bytes and
/// leave the same bytes unread, wherever in their buffers the two cursors stood.
pub proof fn lemma_decoding_twice_gives_equal_results(
    first: ByteCursor,
    first_after: ByteCursor,
    first_result: Result<ConstantPool, DecodeError>,
    second: ByteCursor,
    second_after: ByteCursor,
    second_result: Result<ConstantPool, DecodeError>,
)
    requires
        first.remaining() == second.remaining(),
        decodes(first, first_after, first_result, parse_pool(first.remaining())),
        decodes(second, second_after, second_result, parse_pool(second.remaining())),
    ensures
        match (first_result, second_result) {
            (Ok(p), Ok(q)) => p@ == q@,
            (Err(e), Err(f)) => e == f,
            _ => false,
        },
        first_after.offset() - first.offset() == second_after.offset() - second.offset(),
        first_after.remaining() == second_after.remaining(),
{
}

/// A payload cut short is reported as an unexpected end of input.
pub proof fn lemma_truncated_payload_is_eof(tag: u8, s: Seq<u8>, m: int)
    requires
        parse_payload(tag, s).result is Ok,
        0 <= m < parse_payload(tag, s).consumed,
    ensures
        parse_payload(tag, s.take(m)).result == Err::<PayloadView, DecodeError>(
            DecodeError::UnexpectedEof,
        ),
{
    lemma_payload_in_bounds(tag, s);
}

/// A record cut short, in its tag or in its payload, is reported as an unexpected
/// end of input.
pub proof fn lemma_truncated_entry_is_eof(s: Seq<u8>, index: u16, m: int)
    requires
        parse_entry(s, index).result is Ok,
        0 <= m < parse_entry(s, index).consumed,
    ensures
        parse_entry(s.take(m), index).result == Err::<EntryView, DecodeError>(
            DecodeError::UnexpectedEof,
        ),
{
    lemma_entry_in_bounds(s, index);
    if m >= 1 {
        assert(s.take(m).skip(1) =~= s.skip(1).take(m - 1));
        lemma_truncated_payload_is_eof(s[0], s.skip(1), m - 1);
    }
}

/// A run of records cut short anywhere is reported as an unexpected end of input.
pub proof fn lemma_truncated_entries_are_eof(s: Seq<u8>, n: nat, m: int)
    requires
        parse_entries(s, n).result is Ok,
        0 <= m < parse_entries(s, n).consumed,
    ensures
        parse_entries(s.take(m), n).result == Err::<Seq<EntryView>, DecodeError>(
            DecodeError::UnexpectedEof,
        ),
    decreases n,
{
    if n > 0 {
        let before = parse_entries(s, (n - 1) as nat);
        let c = before.consumed;
        lemma_entries_in_bounds(s, n);
        lemma_entries_in_bounds(s, (n - 1) as nat);
        if m < c {
            lemma_truncated_entries_are_eof(s, (n - 1) as nat, m);
        } else {
            assert(s.take(m).take(c) =~= s.take(c));
            lemma_entries_read_only_their_bytes(s, s.take(m), (n - 1) as nat);
            assert(s.take(m).skip(c) =~= s.skip(c).take(m - c));
            lemma_truncated_entry_is_eof(s.skip(c), n as u16, m - c);
        }
    }
}

/// Truncation: if a byte sequence decodes, every proper prefix of the bytes consumed
/// fails with `UnexpectedEof`, wherever the cut falls: in the count, in a tag or in
/// the middle of a payload.
pub proof fn lemma_truncated_pool_is_eof(s: Seq<u8>, m: int)
    requires
        parse_pool(s).result is Ok,
        0 <= m < parse_pool(s).consumed,
    ensures
        parse_pool(s.take(m)).result == Err::<PoolView, DecodeError>(DecodeError::UnexpectedEof),
{
    lemma_pool_in_bounds(s);
    if m >= 2 {
        assert(s.take(m).skip(2) =~= s.skip(2).take(m - 2));
        lemma_truncated_entries_are_eof(s.skip(2), entry_count(be16(s[0], s[1])), m - 2);
    }
}

/// A record that starts with a byte that is no known tag is refused with that byte,
/// after the one byte of the tag.
pub proof fn lemma_unrecognized_tag_is_refused(s: Seq<u8>, index: u16)
    requires
        s.len() >= 1,
        !is_known_tag(s[0]),
    ensures
        parse_entry(s, index) == (Outcome::<EntryView> {
            result: Err(DecodeError::UnrecognizedTag(s[0])),
            consumed: 1,
        }),
{
}

/// An unrecognized tag at any position aborts the pass: if the first `k` records
/// decode and the next record starts with a byte that is no known tag, then asking
/// for any larger number of records fails with that byte and returns no record.
pub proof fn lemma_unrecognized_tag_aborts(s: Seq<u8>, k: nat, n: nat)
    requires
        k < n,
        parse_entries(s, k).result is Ok,
        parse_entries(s, k).consumed < s.len(),
        !is_known_tag(s[parse_entries(s, k).consumed]),
    ensures
        parse_entries(s, n) == (Outcome::<Seq<EntryView>> {
            result: Err(DecodeError::UnrecognizedTag(s[parse_entries(s, k).consumed])),
            consumed: parse_entries(s, k).consumed + 1,
        }),
    decreases n,
{
    lemma_entries_in_bounds(s, k);
    if n == k + 1 {
        lemma_unrecognized_tag_is_refused(s.skip(parse_entries(s, k).consumed), n as u16);
    } else {
        lemma_unrecognized_tag_aborts(s, k, (n - 1) as nat);
    }
}

/// A pool in which an unrecognized tag follows `k` good records, with more than
/// `k` records announced, fails with `UnrecognizedTag` of that byte.
pub proof fn lemma_unrecognized_tag_aborts_pool(s: Seq<u8>, k: nat)
    requires
        s.len() >= 2,
        k < entry_count(be16(s[0], s[1])),
        parse_entries(s.skip(2), k).result is Ok,
        2 + parse_entries(s.skip(2), k).consumed < s.len(),
        !is_known_tag(s[2 + parse_entries(s.skip(2), k).consumed]),
    ensures
        parse_pool(s).result == Err::<PoolView, DecodeError>(
            DecodeError::UnrecognizedTag(s[2 + parse_entries(s.skip(2), k).consumed]),
        ),
{
    lemma_entries_in_bounds(s.skip(2), k);
    lemma_unrecognized_tag_aborts(s.skip(2), k, entry_count(be16(s[0], s[1])));
}

/// A declared count of 1 announces no record: the pool is empty and exactly the two
/// bytes of the count are consumed.
pub proof fn lemma_count_one_is_empty(s: Seq<u8>)
    requires
        s.len() >= 2,
        s[0] == 0,
        s[1] == 1,
    ensures
        parse_pool(s) == done(PoolView { count: 1, entries: Seq::empty() }, 2),
{
}

/// A `Utf8` record of length 0 decodes to the empty text and takes exactly three
/// bytes: the tag and the two bytes of the length.
pub proof fn lemma_empty_utf8_takes_three_bytes(s: Seq<u8>, index: u16)
    requires
        s.len() >= 3,
        s[0] == TAG_UTF8,
        s[1] == 0,
        s[2] == 0,
    ensures
        parse_entry(s, index) == done(
            EntryView {
                index,
                tag: TAG_UTF8,
                payload: PayloadView::Utf8 { bytes: Seq::empty(), text: Ok(Seq::empty()) },
            },
            3,
        ),
{
    assert(s.skip(1).subrange(2, 2) =~= Seq::<u8>::empty());
    assert(decode_utf8(Seq::<u8>::empty()) =~= Seq::<char>::empty());
}

/// Text that is not valid UTF-8 never ends a pass on a run of records: the only
/// errors are a truncated input and an unrecognized tag.
pub proof fn lemma_invalid_utf8_keeps_entries_going(s: Seq<u8>, n: nat)
    ensures
        parse_entries(s, n).result != Err::<Seq<EntryView>, DecodeError>(DecodeError::InvalidUtf8),
    decreases n,
{
    if n > 0 {
        lemma_invalid_utf8_keeps_entries_going(s, (n - 1) as nat);
    }
}

/// Text that is not valid UTF-8 never ends a decoding pass: the only errors a pool
/// fails with are a truncated input and an unrecognized tag.
pub proof fn lemma_invalid_utf8_never_aborts(s: Seq<u8>)
    ensures
        parse_pool(s).result != Err::<PoolView, DecodeError>(DecodeError::InvalidUtf8),
{
    if s.len() >= 2 {
        lemma_invalid_utf8_keeps_entries_going(s.skip(2), entry_count(be16(s[0], s[1])));
    }
}

/// Reading back the big-endian bytes of a 16-bit value gives the value.
pub proof fn lemma_be_bytes_round_trip(value: u16)
    ensures
        be_bytes(value).len() == 2,
        be16(be_bytes(value)[0], be_bytes(value)[1]) == value,
{
}

/// Decoding the bytes of a well-formed payload under its own tag gives the payload
/// back and stops where its bytes end, whatever follows them.
pub proof fn lemma_payload_decodes_back(payload: PayloadView, rest: Seq<u8>)
    requires
        payload.wf(),
    ensures
        parse_payload(payload.tag(), encode_payload(payload) + rest) == done(
            payload,
            encode_payload(payload).len() as int,
        ),
        encode_payload(payload).len() == payload.size(),
{
    let bytes = encode_payload(payload);
    let s = bytes + rest;
    match payload {
        PayloadView::Utf8 { bytes: text_bytes, text } => {
            lemma_be_bytes_round_trip(text_bytes.len() as u16);
            assert(s.subrange(2, 2 + text_bytes.len() as int) =~= text_bytes);
        },
        PayloadView::Integer { raw } | PayloadView::Float { raw } => {
            assert(s.subrange(0, 4) =~= raw);
        },
        PayloadView::Long { high, low } | PayloadView::Double { high, low } => {
            assert(s.subrange(0, 4) =~= high);
            assert(s.subrange(4, 8) =~= low);
        },
        PayloadView::Class { name_index } => {
            lemma_be_bytes_round_trip(name_index);
        },
        PayloadView::String { string_index } => {
            lemma_be_bytes_round_trip(string_index);
        },
        PayloadView::MethodType { descriptor_index } => {
            lemma_be_bytes_round_trip(descriptor_index);
        },
        PayloadView::Fieldref { class_index, name_and_type_index }
        | PayloadView::Methodref { class_index, name_and_type_index }
        | PayloadView::InterfaceMethodref { class_index, name_and_type_index } => {
            lemma_be_bytes_round_trip(class_index);
            lemma_be_bytes_round_trip(name_and_type_index);
        },
        PayloadView::NameAndType { name_index, descriptor_index } => {
            lemma_be_bytes_round_trip(name_index);
            lemma_be_bytes_round_trip(descriptor_index);
        },
        PayloadView::MethodHandle { reference_kind, reference_index } => {
            lemma_be_bytes_round_trip(reference_index);
        },
        PayloadView::InvokeDynamic { bootstrap_method_attr_index, name_and_type_index } => {
            lemma_be_bytes_round_trip(bootstrap_method_attr_index);
            lemma_be_bytes_round_trip(name_and_type_index);
        },
    }
}

/// Decoding the bytes of a well-formed record gives the record back.
pub proof fn lemma_entry_decodes_back(entry: EntryView, rest: Seq<u8>)
    requires
        entry.wf(),
    ensures
        parse_entry(encode_entry(entry) + rest, entry.index) == done(
            entry,
            encode_entry(entry).len() as int,
        ),
        encode_entry(entry).len() == entry.size(),
{
    let s = encode_entry(entry) + rest;
    lemma_payload_decodes_back(entry.payload, rest);
    assert(s.skip(1) =~= encode_payload(entry.payload) + rest);
}

/// Decoding the bytes of a run of well-formed records, numbered from 1 in order,
/// gives the records back.
pub proof fn lemma_entries_decode_back(entries: Seq<EntryView>, rest: Seq<u8>)
    requires
        entries.len() <= u16::MAX,
        forall|i: int| 0 <= i < entries.len() ==> (#[trigger] entries[i]).index == i + 1,
        forall|i: int| 0 <= i < entries.len() ==> (#[trigger] entries[i]).wf(),
    ensures
        parse_entries(encode_entries(entries) + rest, entries.len()) == done(
            entries,
            encode_entries(entries).len() as int,
        ),
        encode_entries(entries).len() == entries_size(entries),
    decreases entries.len(),
{
    let s = encode_entries(entries) + rest;
    if entries.len() == 0 {
        assert(entries =~= Seq::empty());
    } else {
        let front = entries.drop_last();
        let last = entries.last();
        let tail = encode_entry(last) + rest;
        assert(s =~= encode_entries(front) + tail);
        lemma_entries_decode_back(front, tail);
        lemma_entry_decodes_back(last, rest);
        assert(s.skip(encode_entries(front).len() as int) =~= tail);
        assert(front.push(last) =~= entries);
    }
}

/// The encoder and the decoder are inverse to each other on well-formed pools:
/// decoding the bytes of a well-formed pool gives the pool back and consumes exactly
/// those bytes, whatever follows them.
pub proof fn lemma_decode_inverts_encode(pool: PoolView, rest: Seq<u8>)
    requires
        pool.wf(),
    ensures
        parse_pool(encode_pool(pool) + rest) == done(pool, encode_pool(pool).len() as int),
        encode_pool(pool).len() == 2 + entries_size(pool.entries),
{
    let s = encode_pool(pool) + rest;
    lemma_be_bytes_round_trip(pool.count);
    lemma_entries_decode_back(pool.entries, rest);
    assert(s.skip(2) =~= encode_entries(pool.entries) + rest);
}

} // verus!
