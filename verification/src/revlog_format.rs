//! The wire format of a revlog index, as a function of the bytes.
//!
//! A record is an 8-byte header, six 32-bit fields, a 32-byte node id and a
//! payload whose length the first of the six fields gives. All numbers are
//! big-endian. Records follow each other until the stream ends.

use crate::endian::{be_i32, be_u32, be_u64, i32_be_bytes, u32_be_bytes, u64_be_bytes};
use crate::error::{Break, Field};
use vstd::prelude::*;

verus! {

/// The length of a record's header.
pub const HEADER_LEN: usize = 8;

/// The length of a node id.
pub const NODE_ID_LEN: usize = 32;

/// The length of a record without its payload.
pub const FIXED_LEN: usize = 64;

/// What a revlog record holds.
pub struct RecordView {
    pub offset: u64,
    pub clen: u32,
    pub ulen: u32,
    pub base: i32,
    pub link: i32,
    pub p1: i32,
    pub p2: i32,
    pub nodeid: Seq<u8>,
    pub data: Seq<u8>,
}

/// What a revlog holds.
pub struct RevlogView {
    pub records: Seq<RecordView>,
    pub version: u32,
}

/// The format version that the header of the first record carries: its bits
/// 32 to 47.
pub open spec fn version_of(header: u64) -> u32 {
    ((header >> 32) & 0xffff) as u32
}

/// The offset that a header gives: none for the first record, whose low bits
/// carry the format instead, and the header without its low 16 bits for the
/// others.
pub open spec fn offset_of(header: u64, first: bool) -> u64 {
    if first {
        0
    } else {
        header >> 16
    }
}

/// Whether a whole header stands at `at`.
pub open spec fn has_header(s: Seq<u8>, at: int) -> bool {
    0 <= at && at + HEADER_LEN <= s.len()
}

/// The header of the record at `at`.
pub open spec fn header_at(s: Seq<u8>, at: int) -> u64 {
    be_u64(s.subrange(at, at + 8))
}

/// The length of the payload of the record at `at`.
pub open spec fn payload_len_at(s: Seq<u8>, at: int) -> u32 {
    be_u32(s.subrange(at + 8, at + 12))
}

/// The length of the record at `at`, payload included.
pub open spec fn record_len(s: Seq<u8>, at: int) -> int {
    FIXED_LEN + payload_len_at(s, at)
}

/// Whether a whole record stands at `at`.
pub open spec fn has_record(s: Seq<u8>, at: int) -> bool {
    0 <= at && at + FIXED_LEN <= s.len() && at + record_len(s, at) <= s.len()
}

/// The record at `at`; `first` says whether it opens the index.
pub open spec fn record_at(s: Seq<u8>, at: int, first: bool) -> RecordView {
    RecordView {
        offset: offset_of(header_at(s, at), first),
        clen: payload_len_at(s, at),
        ulen: be_u32(s.subrange(at + 12, at + 16)),
        base: be_i32(s.subrange(at + 16, at + 20)),
        link: be_i32(s.subrange(at + 20, at + 24)),
        p1: be_i32(s.subrange(at + 24, at + 28)),
        p2: be_i32(s.subrange(at + 28, at + 32)),
        nodeid: s.subrange(at + 32, at + 64),
        data: s.subrange(at + 64, at + 64 + payload_len_at(s, at)),
    }
}

/// The whole records that follow each other from `at` on, in stream order.
pub open spec fn records_from(s: Seq<u8>, at: int, first: bool) -> Seq<RecordView>
    decreases s.len() - at,
{
    if has_record(s, at) {
        seq![record_at(s, at, first)] + records_from(s, at + record_len(s, at), false)
    } else {
        Seq::empty()
    }
}

/// Where the whole records that follow each other from `at` on end.
pub open spec fn records_end(s: Seq<u8>, at: int) -> int
    decreases s.len() - at,
{
    if has_record(s, at) {
        records_end(s, at + record_len(s, at))
    } else {
        at
    }
}

/// Whether the stream breaks off inside a record: after the last whole record
/// a header stands, and the record that it opens is not whole.
pub open spec fn breaks_off(s: Seq<u8>, at: int) -> bool {
    has_header(s, records_end(s, at))
}

/// Where the index that starts at `at` breaks off, if it does: at the first
/// field that is not whole, of the record after the last whole one.
pub open spec fn revlog_break(s: Seq<u8>, at: int) -> Option<Break> {
    let end = records_end(s, at);
    if breaks_off(s, at) {
        Some(
            Break {
                field: missing_field(s, end),
                position: end + field_offset(missing_field(s, end)),
            },
        )
    } else {
        None
    }
}

/// The format version of the index that starts at `at`: that of its first
/// header, and 0 where there is none.
pub open spec fn version_from(s: Seq<u8>, at: int) -> u32 {
    if has_header(s, at) {
        version_of(header_at(s, at))
    } else {
        0
    }
}

/// What the index that starts at `at` holds.
pub open spec fn revlog_from(s: Seq<u8>, at: int) -> RevlogView {
    RevlogView { records: records_from(s, at, true), version: version_from(s, at) }
}

/// The first field that the stream is too short for, of a record at `at` whose
/// header is whole.
pub open spec fn missing_field(s: Seq<u8>, at: int) -> Field {
    let n = s.len() - at;
    if n < 12 {
        Field::CompressedLength
    } else if n < 16 {
        Field::UncompressedLength
    } else if n < 20 {
        Field::BaseRevision
    } else if n < 24 {
        Field::LinkRevision
    } else if n < 28 {
        Field::Parent1
    } else if n < 32 {
        Field::Parent2
    } else if n < 64 {
        Field::NodeId
    } else {
        Field::Payload
    }
}

/// Where a field starts in its record.
pub open spec fn field_offset(field: Field) -> int {
    match field {
        Field::CompressedLength => 8,
        Field::UncompressedLength => 12,
        Field::BaseRevision => 16,
        Field::LinkRevision => 20,
        Field::Parent1 => 24,
        Field::Parent2 => 28,
        Field::NodeId => 32,
        Field::Payload => 64,
        _ => 0,
    }
}

/// What stands in the stream for one record: its header as it is, and its
/// fields but for the payload's length, which the payload gives.
pub struct RawRecord {
    pub header: u64,
    pub ulen: u32,
    pub base: i32,
    pub link: i32,
    pub p1: i32,
    pub p2: i32,
    pub nodeid: Seq<u8>,
    pub data: Seq<u8>,
}

/// Whether the format can hold `r`: its node id has the fixed length, and its
/// payload a length of 32 bits.
pub open spec fn storable(r: RawRecord) -> bool {
    r.nodeid.len() == NODE_ID_LEN && r.data.len() <= u32::MAX
}

/// The bytes that stand in the stream for `r`.
pub open spec fn record_bytes(r: RawRecord) -> Seq<u8> {
    u64_be_bytes(r.header) + u32_be_bytes(r.data.len() as u32) + u32_be_bytes(r.ulen)
        + i32_be_bytes(r.base) + i32_be_bytes(r.link) + i32_be_bytes(r.p1) + i32_be_bytes(r.p2)
        + r.nodeid + r.data
}

/// The stream that holds `records`, one after the other.
pub open spec fn index_bytes(records: Seq<RawRecord>) -> Seq<u8>
    decreases records.len(),
{
    if records.len() == 0 {
        Seq::empty()
    } else {
        record_bytes(records[0]) + index_bytes(records.skip(1))
    }
}

/// The record that is read back from the bytes of `r`; `first` says whether
/// it opens the index.
pub open spec fn read_back(r: RawRecord, first: bool) -> RecordView {
    RecordView {
        offset: offset_of(r.header, first),
        clen: r.data.len() as u32,
        ulen: r.ulen,
        base: r.base,
        link: r.link,
        p1: r.p1,
        p2: r.p2,
        nodeid: r.nodeid,
        data: r.data,
    }
}

} // verus!
