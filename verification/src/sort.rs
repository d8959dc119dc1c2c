//! The sort engine: orders an entry list by a selected key and direction,
//! with directories-first tie-breaking under the default key.
//!
//! The engine is one stable insertion sort whose result is pinned down
//! exactly by `sort_spec`; the ordering laws (the result is sorted, it is
//! a permutation of the input, and under the default key directories
//! always come first and the direction moves only entries of the same
//! kind) are proved about that specification.

use vstd::prelude::*;
use vstd::multiset::Multiset;
use vstd::seq_lib::group_seq_properties;
use crate::chars::{chars_le, lemma_chars_le_total, lemma_chars_le_trans};
use crate::entry::{EntryV, FileEntry};

verus! {

/// The key an entry list is ordered by.
#[derive(Clone, Copy, Debug, PartialEq, Eq, Structural)]
pub enum SortKey {
    /// Directories before files, then by name in the requested direction
    /// among entries of the same kind.
    Default,
    /// By on-disk size.
    Size,
    /// By name.
    Name,
    /// By last-modification time.
    Modified,
}

/// The direction an entry list is ordered in.
#[derive(Clone, Copy, Debug, PartialEq, Eq, Structural)]
pub enum SortDirection {
    Asc,
    Desc,
}

/// Whether `a` comes at or before `b` under the given key and direction.
/// Under the default key the directory-first partition never depends on
/// the direction; the direction turns only the name tie-break around.
pub open spec fn le_key(k: SortKey, d: SortDirection, a: EntryV, b: EntryV) -> bool {
    match k {
        SortKey::Size => if d is Asc {
            a.size <= b.size
        } else {
            b.size <= a.size
        },
        SortKey::Name => if d is Asc {
            chars_le(a.name, b.name)
        } else {
            chars_le(b.name, a.name)
        },
        SortKey::Modified => if d is Asc {
            a.modified <= b.modified
        } else {
            b.modified <= a.modified
        },
        SortKey::Default => if a.is_dir && !b.is_dir {
            true
        } else if !a.is_dir && b.is_dir {
            false
        } else if d is Asc {
            chars_le(a.name, b.name)
        } else {
            chars_le(b.name, a.name)
        },
    }
}

/// The comparison is total: one of the two directions always holds.
pub proof fn lemma_le_key_total(k: SortKey, d: SortDirection, a: EntryV, b: EntryV)
    ensures
        le_key(k, d, a, b) || le_key(k, d, b, a),
{
    lemma_chars_le_total(a.name, b.name);
    lemma_chars_le_total(b.name, a.name);
}

/// The comparison is transitive.
pub proof fn lemma_le_key_trans(k: SortKey, d: SortDirection, a: EntryV, b: EntryV, c: EntryV)
    requires
        le_key(k, d, a, b),
        le_key(k, d, b, c),
    ensures
        le_key(k, d, a, c),
{
    match k {
        SortKey::Name => {
            if d is Asc {
                lemma_chars_le_trans(a.name, b.name, c.name);
            } else {
                lemma_chars_le_trans(c.name, b.name, a.name);
            }
        },
        SortKey::Default => {
            if a.is_dir == b.is_dir && b.is_dir == c.is_dir {
                if d is Asc {
                    lemma_chars_le_trans(a.name, b.name, c.name);
                } else {
                    lemma_chars_le_trans(c.name, b.name, a.name);
                }
            }
        },
        _ => {},
    }
}

/// Whether an entry list is ordered under the given key and direction.
pub open spec fn sorted_by(s: Seq<EntryV>, k: SortKey, d: SortDirection) -> bool {
    forall|i: int, j: int| 0 <= i < j < s.len() ==> le_key(k, d, s[i], s[j])
}

/// A sorted list with `e` inserted after every entry that comes at or
/// before it: the last position that keeps the list sorted, which keeps
/// the insertion stable.
pub open spec fn insert_sorted(s: Seq<EntryV>, e: EntryV, k: SortKey, d: SortDirection) -> Seq<
    EntryV,
>
    decreases s.len(),
{
    if s.len() == 0 {
        seq![e]
    } else if le_key(k, d, s.last(), e) {
        s.push(e)
    } else {
        insert_sorted(s.drop_last(), e, k, d).push(s.last())
    }
}

/// The entry list ordered under the given key and direction: each entry
/// of the input, in turn, inserted into the sorted result.
pub open spec fn sort_spec(s: Seq<EntryV>, k: SortKey, d: SortDirection) -> Seq<EntryV>
    decreases s.len(),
{
    if s.len() == 0 {
        Seq::empty()
    } else {
        insert_sorted(sort_spec(s.drop_last(), k, d), s.last(), k, d)
    }
}

/// Inserting adds exactly one entry.
proof fn lemma_insert_sorted_len(s: Seq<EntryV>, e: EntryV, k: SortKey, d: SortDirection)
    ensures
        insert_sorted(s, e, k, d).len() == s.len() + 1,
    decreases s.len(),
{
    if s.len() > 0 && !le_key(k, d, s.last(), e) {
        lemma_insert_sorted_len(s.drop_last(), e, k, d);
    }
}

/// Sorting keeps the length.
pub proof fn lemma_sort_spec_len(s: Seq<EntryV>, k: SortKey, d: SortDirection)
    ensures
        sort_spec(s, k, d).len() == s.len(),
    decreases s.len(),
{
    if s.len() > 0 {
        lemma_sort_spec_len(s.drop_last(), k, d);
        lemma_insert_sorted_len(sort_spec(s.drop_last(), k, d), s.last(), k, d);
    }
}

/// If every entry of a sorted list comes at or before `b`, and so does
/// `e`, then so does every entry after inserting `e`.
proof fn lemma_insert_sorted_bounded(
    s: Seq<EntryV>,
    e: EntryV,
    b: EntryV,
    k: SortKey,
    d: SortDirection,
)
    requires
        forall|m: int| 0 <= m < s.len() ==> le_key(k, d, s[m], b),
        le_key(k, d, e, b),
    ensures
        forall|m: int|
            0 <= m < insert_sorted(s, e, k, d).len() ==> le_key(
                k,
                d,
                #[trigger] insert_sorted(s, e, k, d)[m],
                b,
            ),
    decreases s.len(),
{
    if s.len() == 0 {
        assert(insert_sorted(s, e, k, d)[0] == e);
    } else if le_key(k, d, s.last(), e) {
        let t = s.push(e);
        assert forall|m: int| 0 <= m < t.len() implies le_key(k, d, #[trigger] t[m], b) by {
            if m < s.len() {
                assert(t[m] == s[m]);
            } else {
                assert(t[m] == e);
            }
        }
    } else {
        assert(forall|m: int|
            0 <= m < s.drop_last().len() ==> le_key(k, d, #[trigger] s.drop_last()[m], b));
        lemma_insert_sorted_bounded(s.drop_last(), e, b, k, d);
        let t0 = insert_sorted(s.drop_last(), e, k, d);
        let t = t0.push(s.last());
        assert(le_key(k, d, s[s.len() - 1], b));
        assert forall|m: int| 0 <= m < t.len() implies le_key(k, d, #[trigger] t[m], b) by {
            if m < t0.len() {
                assert(t[m] == t0[m]);
            } else {
                assert(t[m] == s.last());
            }
        }
    }
}

/// Inserting into a sorted list keeps it sorted.
proof fn lemma_insert_sorted_sorted(s: Seq<EntryV>, e: EntryV, k: SortKey, d: SortDirection)
    requires
        sorted_by(s, k, d),
    ensures
        sorted_by(insert_sorted(s, e, k, d), k, d),
    decreases s.len(),
{
    if s.len() == 0 {
    } else if le_key(k, d, s.last(), e) {
        let r = s.push(e);
        assert forall|i: int, j: int| 0 <= i < j < r.len() implies le_key(k, d, r[i], r[j]) by {
            if j == r.len() - 1 {
                if i < s.len() - 1 {
                    lemma_le_key_trans(k, d, s[i], s.last(), e);
                }
            }
        }
    } else {
        assert(sorted_by(s.drop_last(), k, d)) by {
            assert(forall|i: int, j: int|
                0 <= i < j < s.drop_last().len() ==> s.drop_last()[i] == s[i] && s.drop_last()[j]
                    == s[j]);
        }
        lemma_insert_sorted_sorted(s.drop_last(), e, k, d);
        lemma_le_key_total(k, d, s.last(), e);
        assert(forall|m: int|
            0 <= m < s.drop_last().len() ==> le_key(k, d, #[trigger] s.drop_last()[m], s.last()));
        lemma_insert_sorted_bounded(s.drop_last(), e, s.last(), k, d);
        lemma_insert_sorted_len(s.drop_last(), e, k, d);
        let t = insert_sorted(s.drop_last(), e, k, d);
        let r = t.push(s.last());
        assert forall|i: int, j: int| 0 <= i < j < r.len() implies le_key(k, d, r[i], r[j]) by {
            if j == r.len() - 1 {
                assert(r[i] == t[i]);
                assert(le_key(k, d, t[i], s.last()));
            }
        }
    }
}

/// Law: the sorted list is ordered under the chosen key and direction.
pub proof fn lemma_sort_spec_sorted(s: Seq<EntryV>, k: SortKey, d: SortDirection)
    ensures
        sorted_by(sort_spec(s, k, d), k, d),
    decreases s.len(),
{
    if s.len() > 0 {
        lemma_sort_spec_sorted(s.drop_last(), k, d);
        lemma_insert_sorted_sorted(sort_spec(s.drop_last(), k, d), s.last(), k, d);
    }
}

/// Inserting adds the entry to the list's multiset of entries.
proof fn lemma_insert_sorted_multiset(s: Seq<EntryV>, e: EntryV, k: SortKey, d: SortDirection)
    ensures
        insert_sorted(s, e, k, d).to_multiset() =~= s.to_multiset().insert(e),
    decreases s.len(),
{
    broadcast use vstd::seq_lib::group_to_multiset_ensures;

    if s.len() == 0 {
        assert(insert_sorted(s, e, k, d) =~= Seq::empty().push(e));
        assert(s.to_multiset() =~= Multiset::empty());
    } else if le_key(k, d, s.last(), e) {
    } else {
        lemma_insert_sorted_multiset(s.drop_last(), e, k, d);
        assert(s =~= s.drop_last().push(s.last()));
        assert(s.to_multiset() =~= s.drop_last().to_multiset().insert(s.last()));
    }
}

/// Law: sorting permutes the entry list: no entry appears, disappears or
/// changes.
pub proof fn lemma_sort_spec_permutes(s: Seq<EntryV>, k: SortKey, d: SortDirection)
    ensures
        sort_spec(s, k, d).to_multiset() =~= s.to_multiset(),
    decreases s.len(),
{
    broadcast use vstd::seq_lib::group_to_multiset_ensures;

    if s.len() > 0 {
        lemma_sort_spec_permutes(s.drop_last(), k, d);
        lemma_insert_sorted_multiset(sort_spec(s.drop_last(), k, d), s.last(), k, d);
        assert(s =~= s.drop_last().push(s.last()));
        assert(s.to_multiset() =~= s.drop_last().to_multiset().insert(s.last()));
    }
}

/// The number of directory entries in a list.
pub open spec fn dir_count(s: Seq<EntryV>) -> int
    decreases s.len(),
{
    if s.len() == 0 {
        0
    } else {
        dir_count(s.drop_last()) + if s.last().is_dir {
            1int
        } else {
            0int
        }
    }
}

/// A list never holds fewer than zero or more than all directories.
proof fn lemma_dir_count_bounds(s: Seq<EntryV>)
    ensures
        0 <= dir_count(s) <= s.len(),
    decreases s.len(),
{
    if s.len() > 0 {
        lemma_dir_count_bounds(s.drop_last());
    }
}

/// Inserting a directory raises the directory count by one; inserting a
/// file keeps it.
proof fn lemma_insert_sorted_dir_count(s: Seq<EntryV>, e: EntryV, k: SortKey, d: SortDirection)
    ensures
        dir_count(insert_sorted(s, e, k, d)) == dir_count(s) + if e.is_dir {
            1int
        } else {
            0int
        },
    decreases s.len(),
{
    if s.len() == 0 {
        assert(insert_sorted(s, e, k, d).drop_last() =~= s);
    } else if le_key(k, d, s.last(), e) {
        assert(s.push(e).drop_last() =~= s);
    } else {
        lemma_insert_sorted_dir_count(s.drop_last(), e, k, d);
        let t = insert_sorted(s.drop_last(), e, k, d);
        assert(t.push(s.last()).drop_last() =~= t);
    }
}

/// Sorting keeps the directory count.
proof fn lemma_sort_spec_dir_count(s: Seq<EntryV>, k: SortKey, d: SortDirection)
    ensures
        dir_count(sort_spec(s, k, d)) == dir_count(s),
    decreases s.len(),
{
    if s.len() > 0 {
        lemma_sort_spec_dir_count(s.drop_last(), k, d);
        lemma_insert_sorted_dir_count(sort_spec(s.drop_last(), k, d), s.last(), k, d);
    }
}

/// In a list ordered under the default key, the directories are exactly
/// the first `dir_count` entries, whatever the direction.
proof fn lemma_default_dirs_prefix(s: Seq<EntryV>, d: SortDirection)
    requires
        sorted_by(s, SortKey::Default, d),
    ensures
        forall|i: int| 0 <= i < s.len() ==> (#[trigger] s[i].is_dir <==> i < dir_count(s)),
    decreases s.len(),
{
    lemma_dir_count_bounds(s);
    if s.len() > 0 {
        assert(sorted_by(s.drop_last(), SortKey::Default, d)) by {
            assert(forall|i: int, j: int|
                0 <= i < j < s.drop_last().len() ==> s.drop_last()[i] == s[i] && s.drop_last()[j]
                    == s[j]);
        }
        lemma_default_dirs_prefix(s.drop_last(), d);
        lemma_dir_count_bounds(s.drop_last());
        if s.last().is_dir {
            // A directory at the end: everything before it is a directory
            // too, since a file may never precede a directory.
            assert forall|i: int| 0 <= i < s.len() implies #[trigger] s[i].is_dir by {
                if i < s.len() - 1 {
                    assert(le_key(SortKey::Default, d, s[i], s[s.len() - 1]));
                }
            }
            lemma_dir_count_all_dirs(s.drop_last());
            assert(dir_count(s) == s.len());
        } else {
            assert forall|i: int| 0 <= i < s.len() implies (#[trigger] s[i].is_dir <==> i
                < dir_count(s)) by {
                if i < s.len() - 1 {
                    assert(s.drop_last()[i] == s[i]);
                    assert(s.drop_last()[i].is_dir <==> i < dir_count(s.drop_last()));
                }
            }
        }
    }
}

/// A list of directories alone has them all in its count.
proof fn lemma_dir_count_all_dirs(s: Seq<EntryV>)
    requires
        forall|i: int| 0 <= i < s.len() ==> s[i].is_dir,
    ensures
        dir_count(s) == s.len(),
    decreases s.len(),
{
    if s.len() > 0 {
        assert(forall|i: int| 0 <= i < s.drop_last().len() ==> s.drop_last()[i] == s[i]);
        lemma_dir_count_all_dirs(s.drop_last());
    }
}

/// Law: under the default key every directory comes before every file,
/// and turning the direction around moves entries only within their kind:
/// the pattern of directories and files over the positions is the same in
/// both directions.
pub proof fn lemma_default_sort_partition(s: Seq<EntryV>, d1: SortDirection, d2: SortDirection)
    ensures
        forall|i: int, j: int|
            0 <= i < j < sort_spec(s, SortKey::Default, d1).len() ==> !(!sort_spec(
                s,
                SortKey::Default,
                d1,
            )[i].is_dir && sort_spec(s, SortKey::Default, d1)[j].is_dir),
        sort_spec(s, SortKey::Default, d1).len() == sort_spec(s, SortKey::Default, d2).len(),
        forall|i: int|
            0 <= i < sort_spec(s, SortKey::Default, d1).len() ==> #[trigger] sort_spec(
                s,
                SortKey::Default,
                d1,
            )[i].is_dir == sort_spec(s, SortKey::Default, d2)[i].is_dir,
{
    let r1 = sort_spec(s, SortKey::Default, d1);
    let r2 = sort_spec(s, SortKey::Default, d2);
    lemma_sort_spec_len(s, SortKey::Default, d1);
    lemma_sort_spec_len(s, SortKey::Default, d2);
    lemma_sort_spec_sorted(s, SortKey::Default, d1);
    lemma_sort_spec_sorted(s, SortKey::Default, d2);
    lemma_sort_spec_dir_count(s, SortKey::Default, d1);
    lemma_sort_spec_dir_count(s, SortKey::Default, d2);
    lemma_default_dirs_prefix(r1, d1);
    lemma_default_dirs_prefix(r2, d2);
    assert forall|i: int, j: int| 0 <= i < j < r1.len() implies !(!r1[i].is_dir
        && r1[j].is_dir) by {
        assert(le_key(SortKey::Default, d1, r1[i], r1[j]));
    }
}

/// Whether `a` comes at or before `b` under the given key and direction.
pub fn entry_le(k: SortKey, d: SortDirection, a: &FileEntry, b: &FileEntry) -> (r: bool)
    ensures
        r == le_key(k, d, a@, b@),
{
    let asc = matches!(d, SortDirection::Asc);
    match k {
        SortKey::Size => if asc {
            a.size <= b.size
        } else {
            b.size <= a.size
        },
        SortKey::Name => if asc {
            crate::chars::str_le(a.name.as_str(), b.name.as_str())
        } else {
            crate::chars::str_le(b.name.as_str(), a.name.as_str())
        },
        SortKey::Modified => if asc {
            a.modified <= b.modified
        } else {
            b.modified <= a.modified
        },
        SortKey::Default => if a.is_dir && !b.is_dir {
            true
        } else if !a.is_dir && b.is_dir {
            false
        } else if asc {
            crate::chars::str_le(a.name.as_str(), b.name.as_str())
        } else {
            crate::chars::str_le(b.name.as_str(), a.name.as_str())
        },
    }
}

/// An insertion at the position the engine finds is the stable insertion
/// the specification describes.
proof fn lemma_insert_sorted_at(s: Seq<EntryV>, e: EntryV, k: SortKey, d: SortDirection, j: int)
    requires
        0 <= j <= s.len(),
        forall|m: int| j <= m < s.len() ==> !le_key(k, d, s[m], e),
        j > 0 ==> le_key(k, d, s[j - 1], e),
    ensures
        insert_sorted(s, e, k, d) == s.insert(j, e),
    decreases s.len(),
{
    if s.len() == 0 {
        assert(insert_sorted(s, e, k, d) =~= s.insert(0, e));
    } else if le_key(k, d, s.last(), e) {
        assert(j == s.len());
        assert(s.push(e) =~= s.insert(j, e));
    } else {
        assert(j < s.len());
        assert(forall|m: int|
            j <= m < s.drop_last().len() ==> s.drop_last()[m] == s[m]);
        assert(j > 0 ==> s.drop_last()[j - 1] == s[j - 1]);
        lemma_insert_sorted_at(s.drop_last(), e, k, d, j);
        assert(insert_sorted(s.drop_last(), e, k, d).push(s.last()) =~= s.insert(j, e)) by {
            assert(insert_sorted(s.drop_last(), e, k, d) == s.drop_last().insert(j, e));
        }
    }
}

/// Orders the entry list by the given key and direction. Ties keep the
/// list's own order: the sort is stable.
pub fn sort_entries(entries: &mut Vec<FileEntry>, k: SortKey, d: SortDirection)
    ensures
        final(entries).deep_view() == sort_spec(old(entries).deep_view(), k, d),
{
    let ghost orig = old(entries).deep_view();
    let n = entries.len();
    let mut out: Vec<FileEntry> = Vec::new();
    let mut i: usize = 0;
    while i < n
        invariant
            orig == entries.deep_view(),
            n == entries@.len(),
            i <= n,
            out.deep_view() == sort_spec(orig.take(i as int), k, d),
            out@.len() == i,
        decreases n - i,
    {
        let e = entries[i].clone();
        let ghost pre = out.deep_view();
        let mut j: usize = out.len();
        while j > 0 && !entry_le(k, d, &out[j - 1], &e)
            invariant
                pre == out.deep_view(),
                out@.len() == pre.len(),
                j <= out@.len(),
                e@ == orig[i as int],
                0 <= (i as int) < orig.len(),
                forall|m: int| j <= m < pre.len() ==> !le_key(k, d, pre[m], e@),
            decreases j,
        {
            j = j - 1;
        }
        proof {
            lemma_insert_sorted_at(pre, e@, k, d, j as int);
        }
        out.insert(j, e);
        proof {
            assert(out.deep_view() =~= pre.insert(j as int, e@));
            assert(orig.take(i + 1).drop_last() =~= orig.take(i as int));
            assert(orig.take(i + 1).last() == orig[i as int]);
            assert(sort_spec(orig.take(i + 1), k, d) == insert_sorted(pre, e@, k, d));
            assert(out.deep_view() == sort_spec(orig.take(i + 1), k, d));
        }
        i = i + 1;
    }
    proof {
        assert(orig.take(n as int) =~= orig);
    }
    *entries = out;
}

} // verus!
