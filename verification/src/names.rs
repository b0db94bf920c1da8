//! The order of names: byte by byte, a prefix before what it is a prefix of.

use crate::dirstate_format::EntryView;
use vstd::prelude::*;

verus! {

/// Whether `a` stands before `b` or is `b`, byte by byte: the first byte that
/// differs decides, and a name stands before every name that it opens.
pub open spec fn name_le(a: Seq<u8>, b: Seq<u8>) -> bool
    decreases a.len(),
{
    if a.len() == 0 {
        true
    } else if b.len() == 0 {
        false
    } else if a[0] != b[0] {
        a[0] < b[0]
    } else {
        name_le(a.skip(1), b.skip(1))
    }
}

/// Whether the names of `entries` never go down.
pub open spec fn sorted_by_name(entries: Seq<EntryView>) -> bool {
    forall|i: int, j: int|
        0 <= i < j < entries.len() ==> name_le(
            (#[trigger] entries[i]).name,
            (#[trigger] entries[j]).name,
        )
}

/// The entries of `entries` that bear `name`, in their order.
pub open spec fn with_name(entries: Seq<EntryView>, name: Seq<u8>) -> Seq<EntryView> {
    entries.filter(|e: EntryView| e.name == name)
}

/// Every name stands at its own place.
pub proof fn lemma_name_le_reflexive(a: Seq<u8>)
    ensures
        name_le(a, a),
    decreases a.len(),
{
    if a.len() > 0 {
        lemma_name_le_reflexive(a.skip(1));
    }
}

/// Of two names, one stands before the other or is the other.
pub proof fn lemma_name_le_total(a: Seq<u8>, b: Seq<u8>)
    ensures
        name_le(a, b) || name_le(b, a),
    decreases a.len(),
{
    if a.len() > 0 && b.len() > 0 && a[0] == b[0] {
        lemma_name_le_total(a.skip(1), b.skip(1));
    }
}

/// Two names that each stand before or at the other are one name.
pub proof fn lemma_name_le_antisymmetric(a: Seq<u8>, b: Seq<u8>)
    requires
        name_le(a, b),
        name_le(b, a),
    ensures
        a == b,
    decreases a.len(),
{
    if a.len() > 0 && b.len() > 0 {
        lemma_name_le_antisymmetric(a.skip(1), b.skip(1));
        assert(a =~= seq![a[0]] + a.skip(1));
        assert(b =~= seq![b[0]] + b.skip(1));
    } else {
        assert(a =~= b);
    }
}

/// The order of names has no cycle: what stands before a name stands before
/// all that the name stands before.
pub proof fn lemma_name_le_transitive(a: Seq<u8>, b: Seq<u8>, c: Seq<u8>)
    requires
        name_le(a, b),
        name_le(b, c),
    ensures
        name_le(a, c),
    decreases a.len(),
{
    if a.len() > 0 && b.len() > 0 && c.len() > 0 && a[0] == b[0] && b[0] == c[0] {
        lemma_name_le_transitive(a.skip(1), b.skip(1), c.skip(1));
    }
}

/// The entries that bear the name of the last entry end with that entry, and
/// for every other name the last entry can be left out.
proof fn lemma_with_name_of_last(entries: Seq<EntryView>, name: Seq<u8>)
    requires
        entries.len() > 0,
    ensures
        with_name(entries, name) == (if entries.last().name == name {
            with_name(entries.drop_last(), name).push(entries.last())
        } else {
            with_name(entries.drop_last(), name)
        }),
{
    reveal(Seq::filter);
}

/// An entry among those that bear `name` is one of the entries, and bears
/// `name`.
proof fn lemma_with_name_is_found(entries: Seq<EntryView>, name: Seq<u8>, i: int)
    requires
        0 <= i < with_name(entries, name).len(),
    ensures
        with_name(entries, name)[i].name == name,
        exists|j: int| 0 <= j < entries.len() && entries[j] == with_name(entries, name)[i],
    decreases entries.len(),
{
    reveal(Seq::filter);
    if entries.len() > 0 {
        lemma_with_name_of_last(entries, name);
        let rest = with_name(entries.drop_last(), name);
        if i < rest.len() {
            lemma_with_name_is_found(entries.drop_last(), name, i);
            let j = choose|j: int|
                0 <= j < entries.drop_last().len() && entries.drop_last()[j] == rest[i];
            assert(entries[j] == with_name(entries, name)[i]);
        } else {
            assert(entries[entries.len() - 1] == with_name(entries, name)[i]);
        }
    }
}

/// Sorting by name has one result: two runs of entries whose names never go
/// down, and which hold for each name the same entries in the same order,
/// are one run.
pub proof fn lemma_sorted_is_unique(a: Seq<EntryView>, b: Seq<EntryView>)
    requires
        sorted_by_name(a),
        sorted_by_name(b),
        forall|name: Seq<u8>| #[trigger] with_name(a, name) == with_name(b, name),
    ensures
        a == b,
    decreases a.len(),
{
    if a.len() == 0 && b.len() == 0 {
        assert(a =~= b);
    } else if a.len() == 0 {
        lemma_with_name_of_last(b, b.last().name);
        assert(with_name(a, b.last().name).len() == 0) by {
            reveal(Seq::filter);
        }
        assert(with_name(b, b.last().name).len() > 0);
    } else {
        let x = a.last();
        lemma_with_name_of_last(a, x.name);
        let last_of_b = (with_name(b, x.name).len() - 1) as int;
        assert(with_name(b, x.name)[last_of_b] == x);
        lemma_with_name_is_found(b, x.name, last_of_b);
        let y = b.last();
        let jb = choose|j: int| 0 <= j < b.len() && b[j] == x;
        lemma_name_le_reflexive(x.name);
        assert(name_le(x.name, y.name)) by {
            if jb < b.len() - 1 {
                assert(name_le(b[jb].name, b[b.len() - 1].name));
            }
        }
        lemma_with_name_of_last(b, y.name);
        let last_of_a = (with_name(a, y.name).len() - 1) as int;
        assert(with_name(a, y.name)[last_of_a] == y);
        lemma_with_name_is_found(a, y.name, last_of_a);
        let ja = choose|j: int| 0 <= j < a.len() && a[j] == y;
        assert(name_le(y.name, x.name)) by {
            if ja < a.len() - 1 {
                assert(name_le(a[ja].name, a[a.len() - 1].name));
            }
        }
        lemma_name_le_antisymmetric(x.name, y.name);
        assert(x == y);
        let shorter_a = a.drop_last();
        let shorter_b = b.drop_last();
        assert forall|name: Seq<u8>| #[trigger]
            with_name(shorter_a, name) == with_name(shorter_b, name) by {
            lemma_with_name_of_last(a, name);
            lemma_with_name_of_last(b, name);
            assert(with_name(a, name) == with_name(b, name));
            if x.name == name {
                assert(with_name(shorter_a, name) =~= with_name(a, name).drop_last());
                assert(with_name(shorter_b, name) =~= with_name(b, name).drop_last());
            }
        }
        assert(sorted_by_name(shorter_a)) by {
            assert forall|i: int, j: int| 0 <= i < j < shorter_a.len() implies name_le(
                (#[trigger] shorter_a[i]).name,
                (#[trigger] shorter_a[j]).name,
            ) by {
                assert(name_le(a[i].name, a[j].name));
            }
        }
        assert(sorted_by_name(shorter_b)) by {
            assert forall|i: int, j: int| 0 <= i < j < shorter_b.len() implies name_le(
                (#[trigger] shorter_b[i]).name,
                (#[trigger] shorter_b[j]).name,
            ) by {
                assert(name_le(b[i].name, b[j].name));
            }
        }
        lemma_sorted_is_unique(shorter_a, shorter_b);
        assert(a =~= shorter_a.push(x));
        assert(b =~= shorter_b.push(y));
    }
}

/// Whether `a` stands before `b` or is `b`.
pub fn name_le_bytes(a: &[u8], b: &[u8]) -> (r: bool)
    ensures
        r == name_le(a@, b@),
{
    let mut i: usize = 0;
    proof {
        assert(a@.skip(0) =~= a@);
        assert(b@.skip(0) =~= b@);
    }
    while i < a.len() && i < b.len()
        invariant
            i <= a@.len(),
            i <= b@.len(),
            name_le(a@, b@) == name_le(a@.skip(i as int), b@.skip(i as int)),
        decreases a@.len() - i,
    {
        proof {
            assert(a@.skip(i as int).skip(1) =~= a@.skip(i + 1));
            assert(b@.skip(i as int).skip(1) =~= b@.skip(i + 1));
        }
        if a[i] != b[i] {
            return a[i] < b[i];
        }
        i = i + 1;
    }
    i == a.len()
}

} // verus!
