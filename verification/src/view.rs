//! Display-level state logic: the session-local filter a viewer lays over
//! the controller's entry list, the set of extensions available to cycle
//! through, and the small decisions behind the view's key handling
//! (selection movement, sort-key cycling, filter cycling).

use vstd::prelude::*;
use vstd::string::StringExecFns;
use crate::chars::{
    chars_le, ext_of, extension_of, lemma_chars_le_antisym, lemma_chars_le_total, str_eq, str_le,
};
use crate::entry::{EntryV, FileEntry};
use crate::sort::SortKey;

verus! {

/// Whether an entry passes a display filter: with no filter every entry
/// passes; with one, the entry's name must carry exactly that extension.
pub open spec fn ext_matches(e: EntryV, ext: Option<Seq<char>>) -> bool {
    match ext {
        Option::None => true,
        Option::Some(x) => ext_of(e.name) == Option::Some(x),
    }
}

/// The entries among the first `k` that pass the display filter, in
/// order.
pub open spec fn filter_upto(s: Seq<EntryV>, ext: Option<Seq<char>>, k: int) -> Seq<EntryV>
    decreases k,
{
    if k <= 0 {
        Seq::empty()
    } else if ext_matches(s[k - 1], ext) {
        filter_upto(s, ext, k - 1).push(s[k - 1])
    } else {
        filter_upto(s, ext, k - 1)
    }
}

/// The entries that pass the display filter, in order.
pub open spec fn filter_spec(s: Seq<EntryV>, ext: Option<Seq<char>>) -> Seq<EntryV> {
    filter_upto(s, ext, s.len() as int)
}

/// The entries that pass the display filter, as a fresh list; the
/// underlying scan result is not touched.
pub fn filter_entries(entries: &Vec<FileEntry>, ext: &Option<String>) -> (r: Vec<FileEntry>)
    ensures
        r.deep_view() == filter_spec(entries.deep_view(), ext.deep_view()),
{
    let ghost ev = entries.deep_view();
    let ghost xv = ext.deep_view();
    let n = entries.len();
    let mut out: Vec<FileEntry> = Vec::new();
    let mut i: usize = 0;
    while i < n
        invariant
            ev == entries.deep_view(),
            xv == ext.deep_view(),
            n == ev.len(),
            i <= n,
            out.deep_view() == filter_upto(ev, xv, i as int),
        decreases n - i,
    {
        let keep = match ext {
            None => true,
            Some(x) => {
                match extension_of(entries[i].name.as_str()) {
                    Some(e) => str_eq(e.as_str(), x.as_str()),
                    None => false,
                }
            },
        };
        if keep {
            out.push(entries[i].clone());
        }
        proof {
            assert(out.deep_view() =~= filter_upto(ev, xv, i + 1));
        }
        i = i + 1;
    }
    out
}

/// Whether a list of names is sorted with no repeats.
pub open spec fn sorted_unique(s: Seq<Seq<char>>) -> bool {
    forall|i: int, j: int|
        0 <= i < j < s.len() ==> chars_le(#[trigger] s[i], #[trigger] s[j]) && s[i] != s[j]
}

/// Whether some entry among the first `k` carries the extension `a`.
pub open spec fn ext_among(s: Seq<EntryV>, k: int, a: Seq<char>) -> bool {
    exists|i: int| 0 <= i < k && ext_of(#[trigger] s[i].name) == Option::Some(a)
}

/// Puts `x` into a sorted list of distinct names, keeping it sorted and
/// adding nothing else; a name already present is not repeated.
fn insert_unique_sorted(v: &mut Vec<String>, x: String)
    requires
        sorted_unique(old(v).deep_view()),
    ensures
        sorted_unique(final(v).deep_view()),
        forall|a: Seq<char>|
            final(v).deep_view().contains(a) <==> (old(v).deep_view().contains(a) || a == x@),
{
    let ghost orig = v.deep_view();
    let n = v.len();
    let mut j: usize = 0;
    while j < n && !str_le(x.as_str(), v[j].as_str())
        invariant
            orig == v.deep_view(),
            n == orig.len(),
            j <= n,
            forall|m: int| 0 <= m < j ==> !chars_le(x@, #[trigger] orig[m]),
        decreases n - j,
    {
        j = j + 1;
    }
    proof {
        assert forall|m: int| 0 <= m < j implies chars_le(#[trigger] orig[m], x@) && orig[m]
            != x@ by {
            lemma_chars_le_total(x@, orig[m]);
        }
    }
    if j < n && str_eq(v[j].as_str(), x.as_str()) {
        proof {
            assert(orig.contains(x@)) by {
                assert(orig[j as int] == x@);
            }
        }
        return ;
    }
    proof {
        // Anything at or after the insertion point stays strictly above
        // `x`: it is at least `v[j]`, which `x` precedes without equalling.
        assert forall|m: int| j <= m < n implies chars_le(x@, #[trigger] orig[m]) && orig[m]
            != x@ by {
            if m > j {
                crate::chars::lemma_chars_le_trans(x@, orig[j as int], orig[m]);
                if orig[m] == x@ {
                    lemma_chars_le_antisym(x@, orig[j as int]);
                }
            }
        }
    }
    let ghost xv = x@;
    v.insert(j, x);
    proof {
        let cur = v.deep_view();
        assert(cur =~= orig.insert(j as int, xv)) by {
            assert(v@ == old(v)@.insert(j as int, x));
        }
        assert forall|i: int, m: int| 0 <= i < m < cur.len() implies chars_le(
            #[trigger] cur[i],
            #[trigger] cur[m],
        ) && cur[i] != cur[m] by {
            let oi: int = if i < j { i } else { i - 1 };
            let om: int = if m <= j { m } else { m - 1 };
            if i == j {
                assert(cur[i] == xv);
                assert(cur[m] == orig[om]);
            } else if m == j {
                assert(cur[m] == xv);
                assert(cur[i] == orig[oi]);
            } else {
                assert(cur[i] == orig[oi]);
                assert(cur[m] == orig[om]);
            }
        }
        assert forall|a: Seq<char>| cur.contains(a) implies (orig.contains(a) || a == xv) by {
            let p = choose|p: int| 0 <= p < cur.len() && cur[p] == a;
            if p < j {
                assert(orig[p] == a);
            } else if p > j {
                assert(orig[p - 1] == a);
            }
        }
        assert forall|a: Seq<char>| (orig.contains(a) || a == xv) implies cur.contains(a) by {
            if a == xv {
                assert(cur[j as int] == a);
            } else {
                let p = choose|p: int| 0 <= p < orig.len() && orig[p] == a;
                if p < j {
                    assert(cur[p] == a);
                } else {
                    assert(cur[p + 1] == a);
                }
            }
        }
    }
}

/// The extensions the viewer can cycle through: every extension carried
/// by some entry's name, each once, in ascending name order.
pub fn available_extensions(entries: &Vec<FileEntry>) -> (r: Vec<String>)
    ensures
        sorted_unique(r.deep_view()),
        forall|a: Seq<char>|
            r.deep_view().contains(a) <==> ext_among(
                entries.deep_view(),
                entries.deep_view().len() as int,
                a,
            ),
{
    let ghost ev = entries.deep_view();
    let n = entries.len();
    let mut out: Vec<String> = Vec::new();
    let mut i: usize = 0;
    while i < n
        invariant
            ev == entries.deep_view(),
            n == ev.len(),
            i <= n,
            sorted_unique(out.deep_view()),
            forall|a: Seq<char>| out.deep_view().contains(a) <==> ext_among(ev, i as int, a),
        decreases n - i,
    {
        let ghost pre = out.deep_view();
        match extension_of(entries[i].name.as_str()) {
            None => {
                proof {
                    assert forall|a: Seq<char>| out.deep_view().contains(a) <==> ext_among(
                        ev,
                        i + 1,
                        a,
                    ) by {
                        if ext_among(ev, i + 1, a) && !ext_among(ev, i as int, a) {
                            let w = choose|w: int|
                                0 <= w < i + 1 && ext_of(#[trigger] ev[w].name) == Option::Some(a);
                            assert(w == i as int);
                        }
                    }
                }
            },
            Some(e) => {
                insert_unique_sorted(&mut out, e);
                proof {
                    let ghost xv = ext_of(ev[i as int].name)->0;
                    assert forall|a: Seq<char>| out.deep_view().contains(a) <==> ext_among(
                        ev,
                        i + 1,
                        a,
                    ) by {
                        if out.deep_view().contains(a) {
                            if pre.contains(a) {
                                let w = choose|w: int|
                                    0 <= w < i && ext_of(#[trigger] ev[w].name) == Option::Some(a);
                                assert(ext_among(ev, i + 1, a));
                            } else {
                                assert(a == xv);
                                assert(ext_of(ev[i as int].name) == Option::Some(a));
                                assert(ext_among(ev, i + 1, a));
                            }
                        }
                        if ext_among(ev, i + 1, a) {
                            let w = choose|w: int|
                                0 <= w < i + 1 && ext_of(#[trigger] ev[w].name) == Option::Some(a);
                            if w < i {
                                assert(ext_among(ev, i as int, a));
                            } else {
                                assert(a == xv);
                            }
                        }
                    }
                }
            },
        }
        i = i + 1;
    }
    out
}

/// The next sort key under the viewer's cycling order: default, size,
/// name, modified, and around again.
pub fn next_sort_key(k: SortKey) -> (r: SortKey)
    ensures
        r == (match k {
            SortKey::Default => SortKey::Size,
            SortKey::Size => SortKey::Name,
            SortKey::Name => SortKey::Modified,
            SortKey::Modified => SortKey::Default,
        }),
{
    match k {
        SortKey::Default => SortKey::Size,
        SortKey::Size => SortKey::Name,
        SortKey::Name => SortKey::Modified,
        SortKey::Modified => SortKey::Default,
    }
}

/// The configuration word for a sort key, as the viewer displays it.
pub fn sort_key_label(k: SortKey) -> (r: String)
    ensures
        r@ == (match k {
            SortKey::Default => "default"@,
            SortKey::Size => "size"@,
            SortKey::Name => "name"@,
            SortKey::Modified => "modified"@,
        }),
{
    match k {
        SortKey::Default => "default".to_owned(),
        SortKey::Size => "size".to_owned(),
        SortKey::Name => "name".to_owned(),
        SortKey::Modified => "modified".to_owned(),
    }
}

/// The selection after an up-step: one position up, staying at the top;
/// with nothing selected, the first position.
pub fn selection_up(sel: Option<usize>) -> (r: Option<usize>)
    ensures
        r == (match sel {
            Option::Some(s) => if s > 0 {
                Option::Some((s - 1) as usize)
            } else {
                Option::Some(s)
            },
            Option::None => Option::Some(0usize),
        }),
{
    match sel {
        Some(s) => if s > 0 {
            Some(s - 1)
        } else {
            Some(s)
        },
        None => Some(0),
    }
}

/// The selection after a down-step: one position down, staying at the
/// last entry of a list of length `len`; with nothing selected, the first
/// position.
pub fn selection_down(sel: Option<usize>, len: usize) -> (r: Option<usize>)
    ensures
        r == (match sel {
            Option::Some(s) => if s + 1 < len {
                Option::Some((s + 1) as usize)
            } else {
                Option::Some(s)
            },
            Option::None => Option::Some(0usize),
        }),
{
    match sel {
        Some(s) => if len > 0 && s < len - 1 {
            Some(s + 1)
        } else {
            Some(s)
        },
        None => Some(0),
    }
}

/// The next position in the filter cycle over `n` available extensions:
/// position 0 stands for no filter, positions 1 through `n` for the
/// extension at that position, and the cycle wraps after the last.
pub fn cycle_extension_index(idx: usize, n: usize) -> (r: usize)
    ensures
        r == ((idx as int + 1) % (n as int + 1)),
{
    proof {
        assert((idx as u128 + 1) % (n as u128 + 1) <= n as u128);
    }
    ((idx as u128 + 1) % (n as u128 + 1)) as usize
}

} // verus!
