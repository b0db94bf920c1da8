//! The revision index and its decoder.

use crate::error::{Field, Truncated};
use crate::hex::{hex_lower, to_hex};
use crate::reader::ByteReader;
use crate::revlog_format::{
    breaks_off, field_offset, has_header, has_record, header_at, missing_field, offset_of,
    record_at, record_len, records_end, records_from, revlog_break, revlog_from, version_from,
    RecordView, RevlogView, NODE_ID_LEN,
};
use vstd::prelude::*;
use vstd::slice::slice_subrange;

verus! {

/// The revlog record.
#[derive(Clone, Debug)]
pub struct RevlogRecord {
    pub offset: u64,
    pub clen: u32,
    pub ulen: u32,
    pub base: i32,
    pub link: i32,
    pub p1: i32,
    pub p2: i32,
    pub nodeid: Vec<u8>,
    pub data: Vec<u8>,
}

/// The revlog.
#[derive(Clone, Debug)]
pub struct Revlog {
    pub records: Vec<RevlogRecord>,
    pub version: u32,
}

/// A revlog whose last record breaks off: the records before it, and what is
/// missing.
#[derive(Clone, Debug)]
pub struct RevlogError {
    pub partial: Revlog,
    pub cause: Truncated,
}

impl View for RevlogRecord {
    type V = RecordView;

    open spec fn view(&self) -> RecordView {
        RecordView {
            offset: self.offset,
            clen: self.clen,
            ulen: self.ulen,
            base: self.base,
            link: self.link,
            p1: self.p1,
            p2: self.p2,
            nodeid: self.nodeid@,
            data: self.data@,
        }
    }
}

impl View for Revlog {
    type V = RevlogView;

    open spec fn view(&self) -> RevlogView {
        RevlogView { records: record_views(self.records@), version: self.version }
    }
}

/// What each of `records` holds, in their order.
pub open spec fn record_views(records: Seq<RevlogRecord>) -> Seq<RecordView> {
    records.map_values(|r: RevlogRecord| r@)
}

/// The number of bytes of a node id that its short form shows.
pub const SHORT_ID_BYTES: usize = 6;

/// The parent index that stands for "no parent".
pub const NULL_REVISION: i32 = -1;

/// The short id of the null revision.
pub open spec fn null_id() -> Seq<char> {
    "000000000000"@
}

/// The short form of a node id: its first six bytes in lowercase hexadecimal.
pub open spec fn short_id(nodeid: Seq<u8>) -> Seq<char> {
    hex_lower(nodeid.subrange(0, SHORT_ID_BYTES as int))
}

/// What stands in the parent column for the parent index `parent`: the null
/// id for the null revision, the short id of the record that the index names,
/// and nothing for an index that names no record.
pub open spec fn parent_id(records: Seq<RecordView>, parent: i32) -> Option<Seq<char>> {
    if parent == NULL_REVISION {
        Some(null_id())
    } else if 0 <= parent < records.len() {
        Some(short_id(records[parent as int].nodeid))
    } else {
        None
    }
}

impl RevlogRecord {
    /// The node id has its fixed length, and the payload the length that the
    /// record states.
    pub open spec fn wf(&self) -> bool {
        self.nodeid@.len() == NODE_ID_LEN && self.data@.len() == self.clen
    }

    /// Whether the record is well formed.
    pub fn is_wf(&self) -> (b: bool)
        ensures
            b == self.wf(),
    {
        self.nodeid.len() == NODE_ID_LEN && self.data.len() == self.clen as usize
    }

    /// The short id of the record: twelve lowercase hexadecimal digits.
    pub fn shortid(&self) -> (id: String)
        requires
            self.nodeid@.len() >= SHORT_ID_BYTES,
        ensures
            id@ == short_id(self.nodeid@),
            id@.len() == 12,
    {
        to_hex(slice_subrange(self.nodeid.as_slice(), 0, SHORT_ID_BYTES))
    }
}

impl Revlog {
    /// Every record is well formed.
    pub open spec fn wf(&self) -> bool {
        forall|i: int| 0 <= i < self.records@.len() ==> (#[trigger] self.records@[i]).wf()
    }

    /// Whether every record is well formed.
    pub fn is_wf(&self) -> (b: bool)
        ensures
            b == self.wf(),
    {
        let mut i: usize = 0;
        while i < self.records.len()
            invariant
                i <= self.records@.len(),
                forall|j: int| 0 <= j < i ==> (#[trigger] self.records@[j]).wf(),
            decreases self.records@.len() - i,
        {
            if !self.records[i].is_wf() {
                return false;
            }
            i = i + 1;
        }
        true
    }

    /// The short id of the parent that the index `parent` names: the null id
    /// for the null revision, which names no record, and nothing for any
    /// other index outside the revlog.
    pub fn parent_shortid(&self, parent: i32) -> (id: Option<String>)
        requires
            self.wf(),
        ensures
            match id {
                Some(text) => parent_id(self@.records, parent) == Some(text@),
                None => parent_id(self@.records, parent).is_none(),
            },
    {
        if parent == NULL_REVISION {
            Some("000000000000".to_owned())
        } else if parent >= 0 && (parent as usize) < self.records.len() {
            Some(self.records[parent as usize].shortid())
        } else {
            None
        }
    }

    /// Decodes the records that follow each other from the reader's cursor to
    /// the end of the stream.
    ///
    /// Fewer bytes than a header where a record would start end the index.
    /// A header that the rest of its record does not follow in full is an
    /// error: it carries the records before it, and the reader stays at the
    /// field that is missing.
    pub fn from_reader(f: &mut ByteReader) -> (r: Result<Revlog, RevlogError>)
        ensures
            final(f).stream() == old(f).stream(),
            match r {
                Ok(log) => {
                    &&& revlog_break(old(f).stream(), old(f).cursor()).is_none()
                    &&& log@ == revlog_from(old(f).stream(), old(f).cursor())
                    &&& log.wf()
                    &&& final(f).cursor() == records_end(old(f).stream(), old(f).cursor())
                },
                Err(e) => {
                    &&& revlog_break(old(f).stream(), old(f).cursor()) == Some(e.cause@)
                    &&& e.partial@ == revlog_from(old(f).stream(), old(f).cursor())
                    &&& e.partial.wf()
                    &&& final(f).cursor() == e.cause.position
                },
            },
    {
        let ghost s = f.stream();
        let ghost start = f.cursor();
        let mut records: Vec<RevlogRecord> = Vec::new();
        let mut version: u32 = 0;
        proof {
            f.lemma_cursor_counts();
        }
        loop
            invariant
                s == old(f).stream(),
                start == old(f).cursor(),
                f.stream() == s,
                0 <= start <= f.cursor(),
                records_from(s, start, true) == record_views(records@) + records_from(
                    s,
                    f.cursor(),
                    records@.len() == 0,
                ),
                records_end(s, start) == records_end(s, f.cursor()),
                records@.len() == 0 ==> f.cursor() == start && version == 0,
                records@.len() > 0 ==> version == version_from(s, start),
                forall|i: int| 0 <= i < records@.len() ==> (#[trigger] records@[i]).wf(),
            ensures
                f.stream() == s,
                !breaks_off(s, start),
                record_views(records@) == records_from(s, start, true),
                version == version_from(s, start),
                forall|i: int| 0 <= i < records@.len() ==> (#[trigger] records@[i]).wf(),
                f.cursor() == records_end(s, start),
            decreases s.len() - f.cursor(),
        {
            let ghost at = f.cursor();
            let first: bool = records.len() == 0;
            let header_read: Option<u64> = f.read_be_u64();
            if header_read.is_none() {
                proof {
                    assert(!has_record(s, at));
                    assert(records_from(s, at, first) =~= Seq::<RecordView>::empty());
                    assert(record_views(records@) =~= records_from(s, start, true));
                }
                break ;
            }
            let header: u64 = header_read.unwrap();
            assert((header >> 32) & 0xffff <= 0xffff) by (bit_vector);
            let offset: u64 = if first {
                version = ((header >> 32) & 0xffff) as u32;
                0
            } else {
                header >> 16
            };
            assert(offset == offset_of(header_at(s, at), first));
            assert(version == version_from(s, start));
            let clen: u32 = match f.read_be_u32() {
                Some(v) => v,
                None => {
                    return Err(
                        broken(
                            records,
                            version,
                            Field::CompressedLength,
                            f,
                            Ghost(s),
                            Ghost(start),
                            Ghost(at),
                        ),
                    );
                },
            };
            let ulen: u32 = match f.read_be_u32() {
                Some(v) => v,
                None => {
                    return Err(
                        broken(
                            records,
                            version,
                            Field::UncompressedLength,
                            f,
                            Ghost(s),
                            Ghost(start),
                            Ghost(at),
                        ),
                    );
                },
            };
            let base: i32 = match f.read_be_i32() {
                Some(v) => v,
                None => {
                    return Err(
                        broken(
                            records,
                            version,
                            Field::BaseRevision,
                            f,
                            Ghost(s),
                            Ghost(start),
                            Ghost(at),
                        ),
                    );
                },
            };
            let link: i32 = match f.read_be_i32() {
                Some(v) => v,
                None => {
                    return Err(
                        broken(
                            records,
                            version,
                            Field::LinkRevision,
                            f,
                            Ghost(s),
                            Ghost(start),
                            Ghost(at),
                        ),
                    );
                },
            };
            let p1: i32 = match f.read_be_i32() {
                Some(v) => v,
                None => {
                    return Err(
                        broken(
                            records,
                            version,
                            Field::Parent1,
                            f,
                            Ghost(s),
                            Ghost(start),
                            Ghost(at),
                        ),
                    );
                },
            };
            let p2: i32 = match f.read_be_i32() {
                Some(v) => v,
                None => {
                    return Err(
                        broken(
                            records,
                            version,
                            Field::Parent2,
                            f,
                            Ghost(s),
                            Ghost(start),
                            Ghost(at),
                        ),
                    );
                },
            };
            let nodeid: Vec<u8> = match f.read_exact(NODE_ID_LEN) {
                Some(v) => v,
                None => {
                    return Err(
                        broken(
                            records,
                            version,
                            Field::NodeId,
                            f,
                            Ghost(s),
                            Ghost(start),
                            Ghost(at),
                        ),
                    );
                },
            };
            let data: Vec<u8> = match f.read_exact(clen as usize) {
                Some(v) => v,
                None => {
                    return Err(
                        broken(
                            records,
                            version,
                            Field::Payload,
                            f,
                            Ghost(s),
                            Ghost(start),
                            Ghost(at),
                        ),
                    );
                },
            };
            let record = RevlogRecord { offset, clen, ulen, base, link, p1, p2, nodeid, data };
            proof {
                assert(has_record(s, at));
                assert(record@ == record_at(s, at, first));
                assert(f.cursor() == at + record_len(s, at));
                assert(record_views(records@.push(record)) =~= record_views(records@).push(
                    record@,
                ));
                assert(record_views(records@).push(record@) + records_from(s, f.cursor(), false)
                    =~= record_views(records@) + records_from(s, at, first));
            }
            records.push(record);
        }
        Ok(Revlog { records, version })
    }
}

/// The error for a record at `at` whose `field` the stream is too short for.
fn broken(
    records: Vec<RevlogRecord>,
    version: u32,
    field: Field,
    f: &ByteReader,
    Ghost(s): Ghost<Seq<u8>>,
    Ghost(start): Ghost<int>,
    Ghost(at): Ghost<int>,
) -> (e: RevlogError)
    requires
        f.stream() == s,
        0 <= start <= at,
        has_header(s, at),
        !has_record(s, at),
        field == missing_field(s, at),
        f.cursor() == at + field_offset(field),
        records_from(s, start, true) == record_views(records@) + records_from(
            s,
            at,
            records@.len() == 0,
        ),
        records_end(s, start) == records_end(s, at),
        version == version_from(s, start),
        forall|i: int| 0 <= i < records@.len() ==> (#[trigger] records@[i]).wf(),
    ensures
        revlog_break(s, start) == Some(e.cause@),
        e.partial@ == revlog_from(s, start),
        e.partial.wf(),
        e.cause.position == f.cursor(),
{
    proof {
        assert(records_from(s, at, records@.len() == 0) =~= Seq::<RecordView>::empty());
        assert(record_views(records@) =~= records_from(s, start, true));
    }
    let position: usize = f.position();
    RevlogError { partial: Revlog { records, version }, cause: Truncated { field, position } }
}

} // verus!
