//! What holds of every revlog index, proved from the format.

use crate::endian::{
    lemma_i32_round_trip, lemma_u32_round_trip, lemma_u64_round_trip, i32_be_bytes, u32_be_bytes,
    u64_be_bytes,
};
use crate::hex::hex_digits;
use crate::revlog::{null_id, parent_id, short_id, NULL_REVISION};
use crate::revlog_format::{
    has_header, has_record, header_at, index_bytes, payload_len_at, read_back, record_at,
    record_bytes, record_len, records_end, records_from, revlog_break, storable, version_from,
    version_of, RawRecord, RecordView,
};
use vstd::prelude::*;

verus! {

/// Where the record number `i` starts, counted from the record at `at`, if
/// the records before it are whole.
pub open spec fn record_start(s: Seq<u8>, at: int, i: nat) -> int
    decreases i,
{
    if i == 0 {
        at
    } else {
        record_start(s, at + record_len(s, at), (i - 1) as nat)
    }
}

/// A record starts no earlier than the records before it.
pub proof fn lemma_record_start_grows(s: Seq<u8>, at: int, i: nat)
    ensures
        record_start(s, at, i) >= at + 64 * i,
    decreases i,
{
    if i > 0 {
        lemma_record_start_grows(s, at + record_len(s, at), (i - 1) as nat);
    }
}

/// Each decoded record is the whole record that stands where its number says:
/// one record for each header that a whole record follows.
pub proof fn lemma_record_of_index(s: Seq<u8>, at: int, first: bool, i: nat)
    requires
        i < records_from(s, at, first).len(),
    ensures
        has_record(s, record_start(s, at, i)),
        records_from(s, at, first)[i as int] == record_at(
            s,
            record_start(s, at, i),
            first && i == 0,
        ),
    decreases i,
{
    if i > 0 {
        let next = at + record_len(s, at);
        assert(records_from(s, at, first).skip(1) =~= records_from(s, next, false));
        lemma_record_of_index(s, next, false, (i - 1) as nat);
    }
}

/// The decoded records end where the record with the next number would
/// start, and no whole record stands there.
pub proof fn lemma_records_end(s: Seq<u8>, at: int, first: bool)
    ensures
        records_end(s, at) == record_start(s, at, records_from(s, at, first).len()),
        !has_record(s, records_end(s, at)),
    decreases s.len() - at,
{
    if has_record(s, at) {
        let next = at + record_len(s, at);
        lemma_records_end(s, next, false);
        assert(records_from(s, at, first).skip(1) =~= records_from(s, next, false));
    }
}

/// The offset of the first record is 0, whatever its header holds.
pub proof fn lemma_first_offset_is_zero(s: Seq<u8>, at: int)
    requires
        records_from(s, at, true).len() > 0,
    ensures
        records_from(s, at, true)[0].offset == 0,
{
}

/// The offset of every record after the first is its header without the low
/// 16 bits.
pub proof fn lemma_later_offset(s: Seq<u8>, at: int, i: nat)
    requires
        0 < i < records_from(s, at, true).len(),
    ensures
        records_from(s, at, true)[i as int].offset == header_at(s, record_start(s, at, i)) >> 16,
{
    lemma_record_of_index(s, at, true, i);
}

/// A header made of a 16-bit version in its bits 32 to 47 and of anything
/// else around it.
pub open spec fn make_header(version: u16, high: u16, low: u32) -> u64 {
    ((high as u64) << 48) | ((version as u64) << 32) | (low as u64)
}

/// The version read from a header is the one that the header was made with,
/// whatever stands in its other bits.
pub proof fn lemma_version_of_header(version: u16, high: u16, low: u32)
    ensures
        version_of(make_header(version, high, low)) == version,
{
    assert((((((high as u64) << 48) | ((version as u64) << 32) | (low as u64)) >> 32) & 0xffff)
        == version as u64) by (bit_vector);
}

/// The version of an index is read from the header of its first record.
pub proof fn lemma_version_is_first_header(s: Seq<u8>, at: int)
    requires
        has_header(s, at),
    ensures
        version_from(s, at) == (header_at(s, at) >> 32) & 0xffff,
        version_from(s, at) <= 0xffff,
{
    let h = header_at(s, at);
    assert((h >> 32) & 0xffff <= 0xffff) by (bit_vector);
}

/// A whole record looks the same in every prefix of the stream that holds
/// all of it.
pub proof fn lemma_record_in_prefix(s: Seq<u8>, k: int, at: int, first: bool)
    requires
        has_record(s, at),
        at + record_len(s, at) <= k <= s.len(),
    ensures
        has_record(s.take(k), at),
        record_len(s.take(k), at) == record_len(s, at),
        record_at(s.take(k), at, first) == record_at(s, at, first),
{
    let t = s.take(k);
    assert(t.subrange(at, at + 8) =~= s.subrange(at, at + 8));
    assert(t.subrange(at + 8, at + 12) =~= s.subrange(at + 8, at + 12));
    assert(t.subrange(at + 12, at + 16) =~= s.subrange(at + 12, at + 16));
    assert(t.subrange(at + 16, at + 20) =~= s.subrange(at + 16, at + 20));
    assert(t.subrange(at + 20, at + 24) =~= s.subrange(at + 20, at + 24));
    assert(t.subrange(at + 24, at + 28) =~= s.subrange(at + 24, at + 28));
    assert(t.subrange(at + 28, at + 32) =~= s.subrange(at + 28, at + 32));
    assert(t.subrange(at + 32, at + 64) =~= s.subrange(at + 32, at + 64));
    let n = payload_len_at(s, at);
    assert(t.subrange(at + 64, at + 64 + n) =~= s.subrange(at + 64, at + 64 + n));
}

/// A stream cut inside a record, behind that record's header, breaks off: the
/// decoder reports the break at the record that was cut, and the records that
/// it hands back are the whole records before it, none of them shortened.
pub proof fn lemma_cut_record_breaks_off(s: Seq<u8>, at: int, first: bool, i: nat, k: int)
    requires
        0 <= at,
        i < records_from(s, at, first).len(),
        record_start(s, at, i) + 8 <= k < record_start(s, at, i) + record_len(
            s,
            record_start(s, at, i),
        ),
    ensures
        revlog_break(s.take(k), at).is_some(),
        records_end(s.take(k), at) == record_start(s, at, i),
        records_from(s.take(k), at, first) == records_from(s, at, first).take(i as int),
    decreases i,
{
    let t = s.take(k);
    lemma_record_of_index(s, at, first, i);
    lemma_record_start_grows(s, at, i);
    if i == 0 {
        if k >= at + 64 {
            assert(t.subrange(at + 8, at + 12) =~= s.subrange(at + 8, at + 12));
        }
        assert(!has_record(t, at));
        assert(records_from(t, at, first) =~= records_from(s, at, first).take(0));
    } else {
        let next = at + record_len(s, at);
        lemma_record_start_grows(s, next, (i - 1) as nat);
        lemma_record_in_prefix(s, k, at, first);
        assert(records_from(s, at, first).skip(1) =~= records_from(s, next, false));
        lemma_cut_record_breaks_off(s, next, false, (i - 1) as nat, k);
        assert(records_from(t, at, first) =~= records_from(s, at, first).take(i as int));
    }
}

/// What is decoded from `at` on depends on the bytes from `at` on alone.
pub proof fn lemma_decoding_shifts(s: Seq<u8>, at: int, first: bool)
    requires
        0 <= at <= s.len(),
    ensures
        records_from(s, at, first) == records_from(s.skip(at), 0, first),
        records_end(s, at) == at + records_end(s.skip(at), 0),
    decreases s.len() - at,
{
    let t = s.skip(at);
    if at + 64 <= s.len() {
        assert(t.subrange(0, 8) =~= s.subrange(at, at + 8));
        assert(t.subrange(8, 12) =~= s.subrange(at + 8, at + 12));
        assert(t.subrange(12, 16) =~= s.subrange(at + 12, at + 16));
        assert(t.subrange(16, 20) =~= s.subrange(at + 16, at + 20));
        assert(t.subrange(20, 24) =~= s.subrange(at + 20, at + 24));
        assert(t.subrange(24, 28) =~= s.subrange(at + 24, at + 28));
        assert(t.subrange(28, 32) =~= s.subrange(at + 28, at + 32));
        assert(t.subrange(32, 64) =~= s.subrange(at + 32, at + 64));
    }
    if has_record(s, at) {
        let n = payload_len_at(s, at);
        let len = record_len(s, at);
        assert(t.subrange(64, 64 + n) =~= s.subrange(at + 64, at + 64 + n));
        assert(has_record(t, 0));
        assert(record_at(t, 0, first) == record_at(s, at, first));
        lemma_decoding_shifts(s, at + len, false);
        lemma_decoding_shifts(t, len, false);
        assert(t.skip(len) =~= s.skip(at + len));
    } else {
        assert(!has_record(t, 0));
    }
}

/// The bytes of a record, with anything behind them, hold that record whole.
pub proof fn lemma_record_read_back(r: RawRecord, rest: Seq<u8>, first: bool)
    requires
        storable(r),
    ensures
        record_bytes(r).len() == 64 + r.data.len(),
        has_record(record_bytes(r) + rest, 0),
        record_len(record_bytes(r) + rest, 0) == record_bytes(r).len(),
        header_at(record_bytes(r) + rest, 0) == r.header,
        record_at(record_bytes(r) + rest, 0, first) == read_back(r, first),
{
    let s = record_bytes(r) + rest;
    let none = Seq::<u8>::empty();
    let n = r.data.len() as u32;
    lemma_u64_round_trip(r.header, none);
    lemma_u32_round_trip(n, none);
    lemma_u32_round_trip(r.ulen, none);
    lemma_i32_round_trip(r.base, none);
    lemma_i32_round_trip(r.link, none);
    lemma_i32_round_trip(r.p1, none);
    lemma_i32_round_trip(r.p2, none);
    assert(s.subrange(0, 8) =~= u64_be_bytes(r.header) + none);
    assert(s.subrange(8, 12) =~= u32_be_bytes(n) + none);
    assert(s.subrange(12, 16) =~= u32_be_bytes(r.ulen) + none);
    assert(s.subrange(16, 20) =~= i32_be_bytes(r.base) + none);
    assert(s.subrange(20, 24) =~= i32_be_bytes(r.link) + none);
    assert(s.subrange(24, 28) =~= i32_be_bytes(r.p1) + none);
    assert(s.subrange(28, 32) =~= i32_be_bytes(r.p2) + none);
    assert(s.subrange(32, 64) =~= r.nodeid);
    assert(s.subrange(64, 64 + n) =~= r.data);
}

/// The records that are read back from `records`, in their order; `first`
/// says whether the first of them opens the index.
pub open spec fn read_back_all(records: Seq<RawRecord>, first: bool) -> Seq<RecordView> {
    Seq::new(records.len(), |i: int| read_back(records[i], first && i == 0))
}

/// Decoding the stream that holds `records` gives one record for each of
/// them, with the fields that went in, and uses up the stream.
pub proof fn lemma_decode_index_bytes(records: Seq<RawRecord>, first: bool)
    requires
        forall|i: int| 0 <= i < records.len() ==> storable(#[trigger] records[i]),
    ensures
        records_from(index_bytes(records), 0, first) == read_back_all(records, first),
        records_end(index_bytes(records), 0) == index_bytes(records).len(),
    decreases records.len(),
{
    let s = index_bytes(records);
    if records.len() == 0 {
        assert(records_from(s, 0, first) =~= read_back_all(records, first));
    } else {
        let head = record_bytes(records[0]);
        let tail = records.skip(1);
        let rest = index_bytes(tail);
        lemma_record_read_back(records[0], rest, first);
        lemma_decoding_shifts(s, head.len() as int, false);
        assert(s.skip(head.len() as int) =~= rest);
        lemma_decode_index_bytes(tail, false);
        assert(records_from(s, 0, first) =~= read_back_all(records, first));
    }
}

/// An index made of `records` decodes without a break to as many records as
/// went in: each with its fields, the first with offset 0 and the others with
/// their header's offset, and with the version that the first header holds.
pub proof fn lemma_index_round_trip(records: Seq<RawRecord>)
    requires
        forall|i: int| 0 <= i < records.len() ==> storable(#[trigger] records[i]),
    ensures
        revlog_break(index_bytes(records), 0).is_none(),
        records_from(index_bytes(records), 0, true).len() == records.len(),
        forall|i: int|
            0 <= i < records.len() ==> #[trigger] records_from(index_bytes(records), 0, true)[i]
                == read_back(records[i], i == 0),
        version_from(index_bytes(records), 0) == (if records.len() == 0 {
            0
        } else {
            version_of(records[0].header)
        }),
{
    lemma_decode_index_bytes(records, true);
    if records.len() > 0 {
        lemma_record_read_back(records[0], index_bytes(records.skip(1)), true);
    }
}

/// A short id is twelve characters, each of them a digit or a letter from
/// `a` to `f`.
pub proof fn lemma_short_id_is_lowercase_hex(nodeid: Seq<u8>)
    requires
        nodeid.len() >= 6,
    ensures
        short_id(nodeid).len() == 12,
        forall|i: int|
            0 <= i < 12 ==> {
                let c = #[trigger] short_id(nodeid)[i];
                ('0' <= c && c <= '9') || ('a' <= c && c <= 'f')
            },
{
    assert forall|i: int| 0 <= i < 12 implies {
        let c = #[trigger] short_id(nodeid)[i];
        ('0' <= c && c <= '9') || ('a' <= c && c <= 'f')
    } by {
        let byte = nodeid.subrange(0, 6)[i / 2];
        let digit = if i % 2 == 0 {
            byte as int / 16
        } else {
            byte as int % 16
        };
        assert(short_id(nodeid)[i] == hex_digits()[digit]);
        assert(0 <= digit < 16);
    }
}

/// The short id depends on the first six bytes of the node id alone.
pub proof fn lemma_short_id_ignores_tail(a: Seq<u8>, b: Seq<u8>)
    requires
        a.len() >= 6,
        b.len() >= 6,
        a.take(6) == b.take(6),
    ensures
        short_id(a) == short_id(b),
{
    assert(a.subrange(0, 6) =~= a.take(6));
    assert(b.subrange(0, 6) =~= b.take(6));
}

/// The id of the null revision is the short id of a node id whose first six
/// bytes are zero.
pub proof fn lemma_null_id_is_zero(nodeid: Seq<u8>)
    requires
        nodeid.len() >= 6,
        forall|i: int| 0 <= i < 6 ==> nodeid[i] == 0,
    ensures
        short_id(nodeid) == null_id(),
{
    reveal_strlit("000000000000");
    assert(short_id(nodeid) =~= null_id());
}

/// The null revision has the null id in every revlog: no record is looked
/// up for it.
pub proof fn lemma_null_parent(records: Seq<RecordView>)
    ensures
        parent_id(records, NULL_REVISION) == Some(null_id()),
        parent_id(records, -1i32) == Some("000000000000"@),
{
}

} // verus!
