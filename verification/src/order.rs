//! Byte-string lexicographic order, the directories-before-files listing
//! order, and a verified insertion sort that produces it.

use vstd::prelude::*;
use vstd::multiset::Multiset;
use vstd::seq_lib::to_multiset_build;
use vstd::seq_lib::to_multiset_insert;
use crate::state::EntryKind;
use crate::state::RemoteEntry;

verus! {

/// Lexicographic order on byte strings: `a` comes no later than `b`.
pub open spec fn bytes_le(a: Seq<u8>, b: Seq<u8>) -> bool
    decreases a.len(),
{
    if a.len() == 0 {
        true
    } else if b.len() == 0 {
        false
    } else if a[0] != b[0] {
        a[0] < b[0]
    } else {
        bytes_le(a.skip(1), b.skip(1))
    }
}

pub proof fn lemma_bytes_le_total(a: Seq<u8>, b: Seq<u8>)
    ensures
        bytes_le(a, b) || bytes_le(b, a),
    decreases a.len(),
{
    if a.len() == 0 || b.len() == 0 {
    } else if a[0] == b[0] {
        lemma_bytes_le_total(a.skip(1), b.skip(1));
    }
}

pub proof fn lemma_bytes_le_trans(a: Seq<u8>, b: Seq<u8>, c: Seq<u8>)
    requires
        bytes_le(a, b),
        bytes_le(b, c),
    ensures
        bytes_le(a, c),
    decreases a.len(),
{
    if a.len() == 0 || b.len() == 0 || c.len() == 0 {
    } else if a[0] == b[0] && b[0] == c[0] {
        lemma_bytes_le_trans(a.skip(1), b.skip(1), c.skip(1));
    }
}

/// Decides `bytes_le` on byte vectors.
pub fn bytes_le_exec(a: &Vec<u8>, b: &Vec<u8>) -> (r: bool)
    ensures
        r == bytes_le(a@, b@),
{
    let mut i: usize = 0;
    proof {
        assert(a@.skip(0) =~= a@);
        assert(b@.skip(0) =~= b@);
    }
    loop
        invariant
            i <= a.len(),
            i <= b.len(),
            bytes_le(a@, b@) == bytes_le(a@.skip(i as int), b@.skip(i as int)),
        decreases a.len() - i,
    {
        if i == a.len() {
            proof {
                assert(a@.skip(i as int).len() == 0);
            }
            return true;
        }
        if i == b.len() {
            proof {
                assert(b@.skip(i as int).len() == 0);
                assert(a@.skip(i as int).len() > 0);
            }
            return false;
        }
        let x = a[i];
        let y = b[i];
        proof {
            assert(a@.skip(i as int)[0] == a@[i as int]);
            assert(b@.skip(i as int)[0] == b@[i as int]);
        }
        if x < y {
            return true;
        }
        if x > y {
            return false;
        }
        proof {
            assert(a@.skip(i as int).skip(1) =~= a@.skip(i as int + 1));
            assert(b@.skip(i as int).skip(1) =~= b@.skip(i as int + 1));
        }
        i = i + 1;
    }
}

/// Directories sort before files; a parent link sorts before both.
pub open spec fn kind_rank(k: EntryKind) -> int {
    match k {
        EntryKind::ParentLink => 0,
        EntryKind::Directory => 1,
        EntryKind::File { .. } => 2,
    }
}

/// The listing order: by kind rank, then lexicographically by name.
pub open spec fn entry_le(a: RemoteEntry, b: RemoteEntry) -> bool {
    ||| kind_rank(a.kind) < kind_rank(b.kind)
    ||| (kind_rank(a.kind) == kind_rank(b.kind) && bytes_le(a.name@, b.name@))
}

/// Every two positions of `s` are in listing order.
pub open spec fn entries_sorted(s: Seq<RemoteEntry>) -> bool {
    forall|i: int, j: int| 0 <= i < j < s.len() ==> entry_le(s[i], s[j])
}

pub proof fn lemma_entry_le_total(a: RemoteEntry, b: RemoteEntry)
    ensures
        entry_le(a, b) || entry_le(b, a),
{
    lemma_bytes_le_total(a.name@, b.name@);
}

pub proof fn lemma_entry_le_trans(a: RemoteEntry, b: RemoteEntry, c: RemoteEntry)
    requires
        entry_le(a, b),
        entry_le(b, c),
    ensures
        entry_le(a, c),
{
    if kind_rank(a.kind) == kind_rank(b.kind) && kind_rank(b.kind) == kind_rank(c.kind) {
        lemma_bytes_le_trans(a.name@, b.name@, c.name@);
    }
}

fn entry_le_exec(a: &RemoteEntry, b: &RemoteEntry) -> (r: bool)
    ensures
        r == entry_le(*a, *b),
{
    let ra: u8 = match a.kind {
        EntryKind::ParentLink => 0,
        EntryKind::Directory => 1,
        EntryKind::File { .. } => 2,
    };
    let rb: u8 = match b.kind {
        EntryKind::ParentLink => 0,
        EntryKind::Directory => 1,
        EntryKind::File { .. } => 2,
    };
    if ra < rb {
        true
    } else if ra > rb {
        false
    } else {
        bytes_le_exec(&a.name, &b.name)
    }
}

/// Inserts `x` into the sorted vector `out`, keeping it sorted.
fn insert_sorted(out: &mut Vec<RemoteEntry>, x: RemoteEntry)
    requires
        entries_sorted(old(out)@),
    ensures
        entries_sorted(final(out)@),
        final(out)@.to_multiset() == old(out)@.to_multiset().insert(x),
        final(out)@.len() == old(out)@.len() + 1,
{
    let ghost orig = out@;
    let mut p: usize = 0;
    while p < out.len() && entry_le_exec(&out[p], &x)
        invariant
            p <= out.len(),
            out@ == orig,
            forall|k: int| 0 <= k < p ==> entry_le(orig[k], x),
        decreases out.len() - p,
    {
        p = p + 1;
    }
    proof {
        if p < orig.len() {
            lemma_entry_le_total(orig[p as int], x);
            assert forall|k: int| p <= k < orig.len() implies entry_le(x, orig[k]) by {
                if k > p {
                    lemma_entry_le_trans(x, orig[p as int], orig[k]);
                }
            }
        }
    }
    out.insert(p, x);
    proof {
        let after = orig.insert(p as int, x);
        assert(out@ == after);
        assert forall|i: int, j: int| 0 <= i < j < after.len() implies entry_le(
            after[i],
            after[j],
        ) by {
            if i < p && j < p {
                assert(after[i] == orig[i] && after[j] == orig[j]);
            } else if i < p && j == p {
                assert(after[i] == orig[i] && after[j] == x);
            } else if i < p && j > p {
                assert(after[i] == orig[i] && after[j] == orig[j - 1]);
            } else if i == p && j > p {
                assert(after[i] == x && after[j] == orig[j - 1]);
            } else if i > p && j > p {
                assert(after[i] == orig[i - 1] && after[j] == orig[j - 1]);
            }
        }
        to_multiset_insert(orig, p as int, x);
    }
}

/// Sorts a listing into the order the navigation view shows: directories
/// before files, each group lexicographically by name. The result holds
/// exactly the given entries.
pub fn sort_entries(entries: Vec<RemoteEntry>) -> (r: Vec<RemoteEntry>)
    ensures
        entries_sorted(r@),
        r@.to_multiset() == entries@.to_multiset(),
        r@.len() == entries@.len(),
{
    let ghost all = entries@;
    let mut src = entries;
    let mut out: Vec<RemoteEntry> = Vec::new();
    proof {
        broadcast use vstd::seq_lib::group_to_multiset_ensures;
        broadcast use vstd::multiset::group_multiset_axioms;

        vstd::multiset::lemma_multiset_empty_len(out@.to_multiset());
        assert(out@.to_multiset().add(src@.to_multiset()) =~= all.to_multiset());
    }
    while src.len() > 0
        invariant
            entries_sorted(out@),
            out@.to_multiset().add(src@.to_multiset()) == all.to_multiset(),
            out@.len() + src@.len() == all.len(),
        decreases src.len(),
    {
        let ghost before = src@;
        let x = src.pop().unwrap();
        proof {
            broadcast use vstd::multiset::group_multiset_axioms;

            assert(before =~= src@.push(x));
            to_multiset_build(src@, x);
            let ghost outms = out@.to_multiset();
            assert(outms.add(src@.to_multiset().insert(x)) =~= outms.insert(x).add(
                src@.to_multiset(),
            ));
        }
        insert_sorted(&mut out, x);
    }
    proof {
        broadcast use vstd::seq_lib::group_to_multiset_ensures;
        broadcast use vstd::multiset::group_multiset_axioms;

        vstd::multiset::lemma_multiset_empty_len(src@.to_multiset());
        assert(src@.to_multiset() =~= Multiset::<RemoteEntry>::empty());
        assert(out@.to_multiset().add(Multiset::<RemoteEntry>::empty()) =~= out@.to_multiset());
    }
    out
}

} // verus!
