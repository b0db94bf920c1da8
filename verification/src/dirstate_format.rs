//! The wire format of a dirstate file, as a function of the bytes.
//!
//! The file opens with the hashes of the two parents, twenty bytes each.
//! Entries follow until the stream ends: a state byte, four big-endian 32-bit
//! fields, and a name whose length the last of the four gives.

use crate::endian::be_u32;
use crate::error::{Break, Field};
use vstd::prelude::*;

verus! {

/// The length of a parent's hash.
pub const HASH_LEN: usize = 20;

/// The length of the two hashes that open the file.
pub const HASHES_LEN: usize = 40;

/// The length of an entry without its name.
pub const ENTRY_FIXED_LEN: usize = 17;

/// What a dirstate entry holds.
pub struct EntryView {
    pub state: u8,
    pub mode: u32,
    pub size: u32,
    pub mtime: u32,
    pub namelen: u32,
    pub name: Seq<u8>,
}

/// What a dirstate holds.
pub struct DirstateView {
    pub fphash: Seq<u8>,
    pub sphash: Seq<u8>,
    pub entries: Seq<EntryView>,
}

/// Whether a state byte stands at `at`.
pub open spec fn has_state(s: Seq<u8>, at: int) -> bool {
    0 <= at < s.len()
}

/// The length of the name of the entry at `at`.
pub open spec fn name_len_at(s: Seq<u8>, at: int) -> u32 {
    be_u32(s.subrange(at + 13, at + 17))
}

/// The length of the entry at `at`, name included.
pub open spec fn entry_len(s: Seq<u8>, at: int) -> int {
    ENTRY_FIXED_LEN + name_len_at(s, at)
}

/// Whether a whole entry stands at `at`.
pub open spec fn has_entry(s: Seq<u8>, at: int) -> bool {
    0 <= at && at + ENTRY_FIXED_LEN <= s.len() && at + entry_len(s, at) <= s.len()
}

/// The entry at `at`.
pub open spec fn entry_at(s: Seq<u8>, at: int) -> EntryView {
    EntryView {
        state: s[at],
        mode: be_u32(s.subrange(at + 1, at + 5)),
        size: be_u32(s.subrange(at + 5, at + 9)),
        mtime: be_u32(s.subrange(at + 9, at + 13)),
        namelen: name_len_at(s, at),
        name: s.subrange(at + 17, at + 17 + name_len_at(s, at)),
    }
}

/// The whole entries that follow each other from `at` on, in stream order.
pub open spec fn entries_from(s: Seq<u8>, at: int) -> Seq<EntryView>
    decreases s.len() - at,
{
    if has_entry(s, at) {
        seq![entry_at(s, at)] + entries_from(s, at + entry_len(s, at))
    } else {
        Seq::empty()
    }
}

/// Where the whole entries that follow each other from `at` on end.
pub open spec fn entries_end(s: Seq<u8>, at: int) -> int
    decreases s.len() - at,
{
    if has_entry(s, at) {
        entries_end(s, at + entry_len(s, at))
    } else {
        at
    }
}

/// The first field that the stream is too short for, of an entry at `at` whose
/// state byte is there.
pub open spec fn missing_entry_field(s: Seq<u8>, at: int) -> Field {
    let n = s.len() - at;
    if n < 5 {
        Field::Mode
    } else if n < 9 {
        Field::Size
    } else if n < 13 {
        Field::Mtime
    } else if n < 17 {
        Field::NameLength
    } else {
        Field::Name
    }
}

/// Where a field starts in its entry.
pub open spec fn entry_field_offset(field: Field) -> int {
    match field {
        Field::Mode => 1,
        Field::Size => 5,
        Field::Mtime => 9,
        Field::NameLength => 13,
        Field::Name => 17,
        _ => 0,
    }
}

/// Whether both hashes stand at `at`.
pub open spec fn has_hashes(s: Seq<u8>, at: int) -> bool {
    0 <= at && at + HASHES_LEN <= s.len()
}

/// Where the dirstate that starts at `at` ends: behind its last whole entry,
/// and at `at` where the hashes are not whole.
pub open spec fn dirstate_end(s: Seq<u8>, at: int) -> int {
    if has_hashes(s, at) {
        entries_end(s, at + HASHES_LEN)
    } else {
        at
    }
}

/// Where the dirstate that starts at `at` breaks off, if it does: at a hash
/// that is not whole, or at the first field that is not whole of the entry
/// after the last whole one.
pub open spec fn dirstate_break(s: Seq<u8>, at: int) -> Option<Break> {
    let end = dirstate_end(s, at);
    if s.len() < at + HASH_LEN {
        Some(Break { field: Field::Parent1Hash, position: at })
    } else if s.len() < at + HASHES_LEN {
        Some(Break { field: Field::Parent2Hash, position: at + HASH_LEN })
    } else if has_state(s, end) {
        Some(
            Break {
                field: missing_entry_field(s, end),
                position: end + entry_field_offset(missing_entry_field(s, end)),
            },
        )
    } else {
        None
    }
}

/// What the dirstate that starts at `at` holds, as far as it is whole: each
/// hash that is whole, and the whole entries behind the two.
pub open spec fn dirstate_from(s: Seq<u8>, at: int) -> DirstateView {
    DirstateView {
        fphash: if at + HASH_LEN <= s.len() {
            s.subrange(at, at + HASH_LEN)
        } else {
            Seq::empty()
        },
        sphash: if at + HASHES_LEN <= s.len() {
            s.subrange(at + HASH_LEN, at + HASHES_LEN)
        } else {
            Seq::empty()
        },
        entries: if at + HASHES_LEN <= s.len() {
            entries_from(s, at + HASHES_LEN)
        } else {
            Seq::empty()
        },
    }
}

} // verus!
