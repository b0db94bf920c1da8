//! What holds of every dirstate file, proved from the format.

use crate::dirstate_format::{
    dirstate_break, dirstate_end, dirstate_from, entries_end, entries_from, entry_at, entry_len,
    has_entry, name_len_at, EntryView,
};
use crate::endian::signed32;
use crate::error::{Break, Field};
use vstd::prelude::*;

verus! {

/// Where the entry number `i` starts, counted from the entry at `at`, if the
/// entries before it are whole.
pub open spec fn entry_start(s: Seq<u8>, at: int, i: nat) -> int
    decreases i,
{
    if i == 0 {
        at
    } else {
        entry_start(s, at + entry_len(s, at), (i - 1) as nat)
    }
}

/// An entry starts no earlier than the entries before it.
pub proof fn lemma_entry_start_grows(s: Seq<u8>, at: int, i: nat)
    ensures
        entry_start(s, at, i) >= at + 17 * i,
    decreases i,
{
    if i > 0 {
        lemma_entry_start_grows(s, at + entry_len(s, at), (i - 1) as nat);
    }
}

/// Each decoded entry is the whole entry that stands where its number says:
/// one entry for each state byte that a whole entry follows.
pub proof fn lemma_entry_of_index(s: Seq<u8>, at: int, i: nat)
    requires
        i < entries_from(s, at).len(),
    ensures
        has_entry(s, entry_start(s, at, i)),
        entries_from(s, at)[i as int] == entry_at(s, entry_start(s, at, i)),
    decreases i,
{
    if i > 0 {
        let next = at + entry_len(s, at);
        assert(entries_from(s, at).skip(1) =~= entries_from(s, next));
        lemma_entry_of_index(s, next, (i - 1) as nat);
    }
}

/// A whole entry looks the same in every prefix of the stream that holds all
/// of it.
pub proof fn lemma_entry_in_prefix(s: Seq<u8>, k: int, at: int)
    requires
        has_entry(s, at),
        at + entry_len(s, at) <= k <= s.len(),
    ensures
        has_entry(s.take(k), at),
        entry_len(s.take(k), at) == entry_len(s, at),
        entry_at(s.take(k), at) == entry_at(s, at),
{
    let t = s.take(k);
    assert(t.subrange(at + 1, at + 5) =~= s.subrange(at + 1, at + 5));
    assert(t.subrange(at + 5, at + 9) =~= s.subrange(at + 5, at + 9));
    assert(t.subrange(at + 9, at + 13) =~= s.subrange(at + 9, at + 13));
    assert(t.subrange(at + 13, at + 17) =~= s.subrange(at + 13, at + 17));
    let n = name_len_at(s, at);
    assert(t.subrange(at + 17, at + 17 + n) =~= s.subrange(at + 17, at + 17 + n));
}

/// A run of entries cut inside an entry, behind that entry's state byte, ends
/// at the entry that was cut, and the entries before it are whole, none of
/// them shortened.
pub proof fn lemma_cut_entry(s: Seq<u8>, at: int, i: nat, k: int)
    requires
        0 <= at,
        i < entries_from(s, at).len(),
        entry_start(s, at, i) + 1 <= k < entry_start(s, at, i) + entry_len(
            s,
            entry_start(s, at, i),
        ),
    ensures
        entries_end(s.take(k), at) == entry_start(s, at, i),
        entries_from(s.take(k), at) == entries_from(s, at).take(i as int),
    decreases i,
{
    let t = s.take(k);
    lemma_entry_of_index(s, at, i);
    lemma_entry_start_grows(s, at, i);
    if i == 0 {
        if k >= at + 17 {
            assert(t.subrange(at + 13, at + 17) =~= s.subrange(at + 13, at + 17));
        }
        assert(!has_entry(t, at));
        assert(entries_from(t, at) =~= entries_from(s, at).take(0));
    } else {
        let next = at + entry_len(s, at);
        lemma_entry_start_grows(s, next, (i - 1) as nat);
        lemma_entry_in_prefix(s, k, at);
        assert(entries_from(s, at).skip(1) =~= entries_from(s, next));
        lemma_cut_entry(s, next, (i - 1) as nat, k);
        assert(entries_from(t, at) =~= entries_from(s, at).take(i as int));
    }
}

/// A dirstate cut inside an entry, behind that entry's state byte, breaks
/// off: the decoder reports the break at the entry that was cut, and hands
/// back both hashes and the whole entries before it, none of them shortened.
pub proof fn lemma_cut_entry_breaks_off(s: Seq<u8>, at: int, i: nat, k: int)
    requires
        0 <= at,
        i < dirstate_from(s, at).entries.len(),
        entry_start(s, at + 40, i) + 1 <= k < entry_start(s, at + 40, i) + entry_len(
            s,
            entry_start(s, at + 40, i),
        ),
    ensures
        dirstate_break(s.take(k), at).is_some(),
        dirstate_end(s.take(k), at) == entry_start(s, at + 40, i),
        dirstate_from(s.take(k), at).fphash == dirstate_from(s, at).fphash,
        dirstate_from(s.take(k), at).sphash == dirstate_from(s, at).sphash,
        dirstate_from(s.take(k), at).entries == dirstate_from(s, at).entries.take(i as int),
{
    let t = s.take(k);
    lemma_entry_start_grows(s, at + 40, i);
    lemma_entry_of_index(s, at + 40, i);
    lemma_cut_entry(s, at + 40, i, k);
    assert(t.subrange(at, at + 20) =~= s.subrange(at, at + 20));
    assert(t.subrange(at + 20, at + 40) =~= s.subrange(at + 20, at + 40));
}

/// A stream too short for the two hashes is an error, not an empty table: the
/// break is at the first hash that is not whole.
pub proof fn lemma_short_hashes_break_off(s: Seq<u8>, at: int)
    requires
        0 <= at <= s.len() < at + 40,
    ensures
        dirstate_break(s, at) == Some(
            if s.len() < at + 20 {
                Break { field: Field::Parent1Hash, position: at }
            } else {
                Break { field: Field::Parent2Hash, position: at + 20 }
            },
        ),
        dirstate_from(s, at).entries == Seq::<EntryView>::empty(),
{
}

/// A stream of the two hashes and nothing else is a dirstate without
/// entries, and no error.
pub proof fn lemma_hashes_alone(s: Seq<u8>)
    requires
        s.len() == 40,
    ensures
        dirstate_break(s, 0).is_none(),
        dirstate_from(s, 0).fphash == s.take(20),
        dirstate_from(s, 0).sphash == s.skip(20),
        dirstate_from(s, 0).entries == Seq::<EntryView>::empty(),
{
    assert(s.subrange(0, 20) =~= s.take(20));
    assert(s.subrange(20, 40) =~= s.skip(20));
    assert(entries_from(s, 40) =~= Seq::<EntryView>::empty());
}

/// The one modification time whose signed reading is -1 is the pattern of
/// all ones: no other pattern stands for "unset".
pub proof fn lemma_unset_is_all_ones(mtime: u32)
    ensures
        signed32(mtime) == -1 <==> mtime == 0xffff_ffff,
{
}

} // verus!
