//! Sorting the entries of a dirstate by name, which std's stable sort does.

use crate::dirstate::{entry_views, DirstateEntry};
use crate::names::{
    lemma_name_le_antisymmetric, lemma_name_le_reflexive, lemma_name_le_total, name_le,
    name_le_bytes, sorted_by_name, with_name,
};
use std::cmp::Ordering;
use vstd::prelude::*;

verus! {

/// How the names of two entries stand to each other.
pub fn name_order(a: &DirstateEntry, b: &DirstateEntry) -> (o: Ordering)
    ensures
        o == Ordering::Less <==> !name_le(b.name@, a.name@),
        o == Ordering::Equal <==> a.name@ == b.name@,
        o == Ordering::Greater <==> !name_le(a.name@, b.name@),
{
    let forth: bool = name_le_bytes(a.name.as_slice(), b.name.as_slice());
    let back: bool = name_le_bytes(b.name.as_slice(), a.name.as_slice());
    proof {
        lemma_name_le_total(a.name@, b.name@);
        lemma_name_le_reflexive(a.name@);
        if forth && back {
            lemma_name_le_antisymmetric(a.name@, b.name@);
        }
    }
    if forth {
        if back {
            Ordering::Equal
        } else {
            Ordering::Less
        }
    } else {
        Ordering::Greater
    }
}

/// `sort_by` of std's slices, with `name_order` to tell two entries apart: a
/// stable sort. The entries are the same as before, their names never go
/// down, and entries of one name keep the order that they had.
#[verifier::external_body]
pub(crate) fn sort_entries(entries: &mut Vec<DirstateEntry>)
    ensures
        sorted_by_name(entry_views(final(entries)@)),
        entry_views(final(entries)@).to_multiset() == entry_views(old(entries)@).to_multiset(),
        forall|name: Seq<u8>| #[trigger]
            with_name(entry_views(final(entries)@), name) == with_name(
                entry_views(old(entries)@),
                name,
            ),
{
    entries.sort_by(|a, b| name_order(a, b));
}

} // verus!
