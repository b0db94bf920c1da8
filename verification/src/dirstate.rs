//! The working-copy table and its decoder.

use crate::dirstate_format::{
    dirstate_break, dirstate_end, dirstate_from, entries_end, entries_from, entry_at,
    entry_field_offset, entry_len, has_entry, has_state, missing_entry_field, DirstateView,
    EntryView, HASH_LEN,
};
use crate::endian::signed32;
use crate::error::{Field, Truncated};
use crate::names::{sorted_by_name, with_name};
use crate::reader::ByteReader;
use crate::sorting::sort_entries;
use ascii::AsciiChar;
use vstd::prelude::*;
use vstd::seq_lib::to_multiset_contains;

verus! {

/// Dirstate entry record.
#[derive(Clone, Debug)]
pub struct DirstateEntry {
    pub state: u8,
    pub mode: u32,
    pub size: u32,
    pub mtime: u32,
    pub namelen: u32,
    pub name: Vec<u8>,
}

/// Dirstate.
#[derive(Clone, Debug)]
pub struct Dirstate {
    pub fphash: Vec<u8>,
    pub sphash: Vec<u8>,
    pub entries: Vec<DirstateEntry>,
}

/// A dirstate that breaks off: what was whole before the break, and what is
/// missing.
#[derive(Clone, Debug)]
pub struct DirstateError {
    pub partial: Dirstate,
    pub cause: Truncated,
}

impl View for DirstateEntry {
    type V = EntryView;

    open spec fn view(&self) -> EntryView {
        EntryView {
            state: self.state,
            mode: self.mode,
            size: self.size,
            mtime: self.mtime,
            namelen: self.namelen,
            name: self.name@,
        }
    }
}

impl View for Dirstate {
    type V = DirstateView;

    open spec fn view(&self) -> DirstateView {
        DirstateView {
            fphash: self.fphash@,
            sphash: self.sphash@,
            entries: entry_views(self.entries@),
        }
    }
}

/// What each of `entries` holds, in their order.
pub open spec fn entry_views(entries: Seq<DirstateEntry>) -> Seq<EntryView> {
    entries.map_values(|e: DirstateEntry| e@)
}

/// The modification time that stands for "unset": all ones, which is -1 when
/// read as a signed number.
pub const MTIME_UNSET: u32 = 0xffff_ffff;

/// The bits of a mode that hold the permissions.
pub const PERMISSION_BITS: u32 = 0o777;

/// The character that a byte stands for in ASCII, if it stands for one.
pub open spec fn ascii_of(byte: u8) -> Option<char> {
    if byte < 128 {
        Some(byte as char)
    } else {
        None
    }
}

/// `ascii::AsciiChar::from_ascii` on a byte, and `AsciiChar::as_char` on what
/// it gives: the character with the byte's code for a byte below 128, and
/// nothing for any other byte.
#[verifier::external_body]
fn ascii_char(byte: u8) -> (c: Option<char>)
    ensures
        c == ascii_of(byte),
{
    match AsciiChar::from_ascii(byte) {
        Ok(letter) => Some(letter.as_char()),
        Err(_) => None,
    }
}

impl DirstateEntry {
    /// The name has the length that the entry states.
    pub open spec fn wf(&self) -> bool {
        self.name@.len() == self.namelen
    }

    /// Whether the entry is well formed.
    pub fn is_wf(&self) -> (b: bool)
        ensures
            b == self.wf(),
    {
        self.name.len() == self.namelen as usize
    }

    /// The state code as a character, if it is ASCII.
    pub fn state_char(&self) -> (c: Option<char>)
        ensures
            c == ascii_of(self.state),
    {
        ascii_char(self.state)
    }

    /// The permissions: the low nine bits of the mode.
    pub fn permissions(&self) -> (p: u32)
        ensures
            p == self.mode & PERMISSION_BITS,
            p <= PERMISSION_BITS,
    {
        let mode: u32 = self.mode;
        assert(mode & 0o777 <= 0o777) by (bit_vector);
        self.mode & PERMISSION_BITS
    }

    /// Whether the modification time is unset: whether it is -1 when read as
    /// a signed number.
    pub fn mtime_is_unset(&self) -> (b: bool)
        ensures
            b == (signed32(self.mtime) == -1),
            b == (self.mtime == MTIME_UNSET),
    {
        self.mtime == MTIME_UNSET
    }

    /// The modification time in seconds, and nothing where it is unset.
    pub fn timestamp(&self) -> (t: Option<i64>)
        ensures
            t == (if self.mtime == MTIME_UNSET {
                None
            } else {
                Some(self.mtime as i64)
            }),
    {
        if self.mtime_is_unset() {
            None
        } else {
            Some(self.mtime as i64)
        }
    }
}

impl Dirstate {
    /// Both hashes have their fixed length, and every entry is well formed.
    pub open spec fn wf(&self) -> bool {
        &&& self.fphash@.len() == HASH_LEN
        &&& self.sphash@.len() == HASH_LEN
        &&& forall|i: int| 0 <= i < self.entries@.len() ==> (#[trigger] self.entries@[i]).wf()
    }

    /// Whether the dirstate is well formed.
    pub fn is_wf(&self) -> (b: bool)
        ensures
            b == self.wf(),
    {
        if self.fphash.len() != HASH_LEN || self.sphash.len() != HASH_LEN {
            return false;
        }
        let mut i: usize = 0;
        while i < self.entries.len()
            invariant
                i <= self.entries@.len(),
                forall|j: int| 0 <= j < i ==> (#[trigger] self.entries@[j]).wf(),
            decreases self.entries@.len() - i,
        {
            if !self.entries[i].is_wf() {
                return false;
            }
            i = i + 1;
        }
        true
    }

    /// Sorts the entries by name, byte by byte. The entries are the same as
    /// before, and entries of one name keep the order that they had.
    pub fn sort_by_name(&mut self)
        ensures
            final(self).fphash == old(self).fphash,
            final(self).sphash == old(self).sphash,
            sorted_by_name(final(self)@.entries),
            final(self)@.entries.to_multiset() == old(self)@.entries.to_multiset(),
            forall|name: Seq<u8>| #[trigger]
                with_name(final(self)@.entries, name) == with_name(old(self)@.entries, name),
            old(self).wf() ==> final(self).wf(),
    {
        let ghost before = self.entries@;
        let ghost was_wf = self.wf();
        sort_entries(&mut self.entries);
        proof {
            let after = self.entries@;
            if was_wf {
                assert forall|i: int| 0 <= i < after.len() implies (#[trigger] after[i]).wf() by {
                    let v = entry_views(after)[i];
                    assert(entry_views(after).contains(v));
                    to_multiset_contains(entry_views(after), v);
                    to_multiset_contains(entry_views(before), v);
                    let j = choose|j: int|
                        0 <= j < entry_views(before).len() && entry_views(before)[j] == v;
                    assert(before[j].wf());
                }
            }
        }
    }

    /// Decodes the two hashes and the entries that follow them, from the
    /// reader's cursor to the end of the stream.
    ///
    /// The end of the stream where an entry would start ends the table. A hash
    /// that is not whole, or a state byte that the rest of its entry does not
    /// follow in full, is an error: it carries what was whole before it, and
    /// the reader stays at the field that is missing.
    pub fn from_reader(f: &mut ByteReader) -> (r: Result<Dirstate, DirstateError>)
        ensures
            final(f).stream() == old(f).stream(),
            match r {
                Ok(table) => {
                    &&& dirstate_break(old(f).stream(), old(f).cursor()).is_none()
                    &&& table@ == dirstate_from(old(f).stream(), old(f).cursor())
                    &&& table.wf()
                    &&& final(f).cursor() == dirstate_end(old(f).stream(), old(f).cursor())
                },
                Err(e) => {
                    &&& dirstate_break(old(f).stream(), old(f).cursor()) == Some(e.cause@)
                    &&& e.partial@ == dirstate_from(old(f).stream(), old(f).cursor())
                    &&& final(f).cursor() == e.cause.position
                },
            },
    {
        let ghost s = f.stream();
        let ghost start = f.cursor();
        let begin: usize = f.position();
        let mut entries: Vec<DirstateEntry> = Vec::new();
        let fphash: Vec<u8> = match f.read_exact(HASH_LEN) {
            Some(v) => v,
            None => {
                let partial = Dirstate { fphash: Vec::new(), sphash: Vec::new(), entries };
                proof {
                    assert(partial@.entries =~= Seq::<EntryView>::empty());
                }
                return Err(
                    DirstateError {
                        partial,
                        cause: Truncated { field: Field::Parent1Hash, position: begin },
                    },
                );
            },
        };
        let second: usize = f.position();
        let sphash: Vec<u8> = match f.read_exact(HASH_LEN) {
            Some(v) => v,
            None => {
                let partial = Dirstate { fphash, sphash: Vec::new(), entries };
                proof {
                    assert(partial@.entries =~= Seq::<EntryView>::empty());
                }
                return Err(
                    DirstateError {
                        partial,
                        cause: Truncated { field: Field::Parent2Hash, position: second },
                    },
                );
            },
        };
        loop
            invariant
                s == old(f).stream(),
                start == old(f).cursor(),
                f.stream() == s,
                0 <= start,
                start + 40 <= f.cursor() <= s.len(),
                fphash@ == s.subrange(start, start + 20),
                sphash@ == s.subrange(start + 20, start + 40),
                entries_from(s, start + 40) == entry_views(entries@) + entries_from(
                    s,
                    f.cursor(),
                ),
                entries_end(s, start + 40) == entries_end(s, f.cursor()),
                forall|i: int| 0 <= i < entries@.len() ==> (#[trigger] entries@[i]).wf(),
            ensures
                f.stream() == s,
                0 <= start,
                start + 40 <= s.len(),
                fphash@ == s.subrange(start, start + 20),
                sphash@ == s.subrange(start + 20, start + 40),
                !has_state(s, entries_end(s, start + 40)),
                entry_views(entries@) == entries_from(s, start + 40),
                forall|i: int| 0 <= i < entries@.len() ==> (#[trigger] entries@[i]).wf(),
                f.cursor() == entries_end(s, start + 40),
            decreases s.len() - f.cursor(),
        {
            let ghost at = f.cursor();
            let state_read: Option<u8> = f.read_u8();
            if state_read.is_none() {
                proof {
                    assert(!has_entry(s, at));
                    assert(entries_from(s, at) =~= Seq::<EntryView>::empty());
                    assert(entry_views(entries@) =~= entries_from(s, start + 40));
                }
                break ;
            }
            let state: u8 = state_read.unwrap();
            let mode: u32 = match f.read_be_u32() {
                Some(v) => v,
                None => {
                    return Err(
                        broken(fphash, sphash, entries, Field::Mode, f, Ghost(start), Ghost(at)),
                    );
                },
            };
            let size: u32 = match f.read_be_u32() {
                Some(v) => v,
                None => {
                    return Err(
                        broken(fphash, sphash, entries, Field::Size, f, Ghost(start), Ghost(at)),
                    );
                },
            };
            let mtime: u32 = match f.read_be_u32() {
                Some(v) => v,
                None => {
                    return Err(
                        broken(fphash, sphash, entries, Field::Mtime, f, Ghost(start), Ghost(at)),
                    );
                },
            };
            let namelen: u32 = match f.read_be_u32() {
                Some(v) => v,
                None => {
                    return Err(
                        broken(
                            fphash,
                            sphash,
                            entries,
                            Field::NameLength,
                            f,
                            Ghost(start),
                            Ghost(at),
                        ),
                    );
                },
            };
            let name: Vec<u8> = match f.read_exact(namelen as usize) {
                Some(v) => v,
                None => {
                    return Err(
                        broken(fphash, sphash, entries, Field::Name, f, Ghost(start), Ghost(at)),
                    );
                },
            };
            let entry = DirstateEntry { state, mode, size, mtime, namelen, name };
            proof {
                assert(has_entry(s, at));
                assert(entry@ == entry_at(s, at));
                assert(f.cursor() == at + entry_len(s, at));
                assert(entry_views(entries@.push(entry)) =~= entry_views(entries@).push(entry@));
                assert(entry_views(entries@).push(entry@) + entries_from(s, f.cursor())
                    =~= entry_views(entries@) + entries_from(s, at));
            }
            entries.push(entry);
        }
        Ok(Dirstate { fphash, sphash, entries })
    }
}

/// The error for an entry at `at` whose `field` the stream is too short for.
fn broken(
    fphash: Vec<u8>,
    sphash: Vec<u8>,
    entries: Vec<DirstateEntry>,
    field: Field,
    f: &ByteReader,
    Ghost(start): Ghost<int>,
    Ghost(at): Ghost<int>,
) -> (e: DirstateError)
    requires
        0 <= start,
        start + 40 <= at,
        has_state(f.stream(), at),
        !has_entry(f.stream(), at),
        field == missing_entry_field(f.stream(), at),
        f.cursor() == at + entry_field_offset(field),
        fphash@ == f.stream().subrange(start, start + 20),
        sphash@ == f.stream().subrange(start + 20, start + 40),
        entries_from(f.stream(), start + 40) == entry_views(entries@) + entries_from(
            f.stream(),
            at,
        ),
        entries_end(f.stream(), start + 40) == entries_end(f.stream(), at),
    ensures
        dirstate_break(f.stream(), start) == Some(e.cause@),
        e.partial@ == dirstate_from(f.stream(), start),
        e.cause.position == f.cursor(),
{
    proof {
        assert(entries_from(f.stream(), at) =~= Seq::<EntryView>::empty());
        assert(entry_views(entries@) =~= entries_from(f.stream(), start + 40));
    }
    let position: usize = f.position();
    DirstateError {
        partial: Dirstate { fphash, sphash, entries },
        cause: Truncated { field, position },
    }
}

} // verus!
