//! The traversal engine: filters a depth-first node list into the visible
//! entry list and computes on-disk sizes.
//!
//! The filesystem walk itself happens outside the library; it hands in a
//! `Vec<FsNode>` in depth-first order (each directory right before its
//! descendants, which carry strictly greater depths). The engine applies
//! the depth bound and the hidden and extension filters to decide which
//! nodes are listed, and sums allocation over a directory's whole subtree
//! — at any depth, ignoring the filters — to size it.

use vstd::prelude::*;
use crate::chars::{ext_of, extension_of, is_hidden_name, name_is_hidden, str_eq};
use crate::entry::{EntryV, FileEntry, FsNode, NodeV, perm_chars};

verus! {

/// Saturating addition: the sum, capped at the largest representable size.
pub open spec fn sat_add(a: u64, b: u64) -> u64 {
    if a + b > u64::MAX {
        u64::MAX
    } else {
        (a + b) as u64
    }
}

/// The on-disk allocation of a node in bytes: its 512-byte block count
/// times 512, capped at the largest representable size.
pub open spec fn file_alloc(blocks: u64) -> u64 {
    if blocks * 512 > u64::MAX {
        u64::MAX
    } else {
        (blocks * 512) as u64
    }
}

/// The first position at or after `j` whose node does not lie below a
/// node of depth `d`, or the list's end.
pub open spec fn subtree_end_from(nodes: Seq<NodeV>, d: usize, j: int) -> int
    decreases nodes.len() - j,
{
    if j < 0 || j >= nodes.len() {
        nodes.len() as int
    } else if nodes[j].depth <= d {
        j
    } else {
        subtree_end_from(nodes, d, j + 1)
    }
}

/// One past the last position of the subtree rooted at position `i`: in a
/// depth-first list, a node's subtree is the run of following nodes of
/// strictly greater depth.
pub open spec fn subtree_end(nodes: Seq<NodeV>, i: int) -> int {
    subtree_end_from(nodes, nodes[i].depth, i + 1)
}

/// The saturating sum of the on-disk allocation of every file node in
/// positions `from .. to`.
pub open spec fn size_sum(nodes: Seq<NodeV>, from: int, to: int) -> u64
    decreases to - from,
{
    if to <= from {
        0
    } else {
        let pre = size_sum(nodes, from, to - 1);
        if !nodes[to - 1].is_dir {
            sat_add(pre, file_alloc(nodes[to - 1].blocks))
        } else {
            pre
        }
    }
}

/// The size reported for the node at position `i`: a file's own
/// allocation, or for a directory the allocation of every descendant file
/// in its subtree, at any depth.
pub open spec fn entry_size(nodes: Seq<NodeV>, i: int) -> u64 {
    if nodes[i].is_dir {
        size_sum(nodes, i + 1, subtree_end(nodes, i))
    } else {
        file_alloc(nodes[i].blocks)
    }
}

/// The entry produced for the node at position `i`. It does not depend on
/// the scan's filters: they decide only whether the entry is listed.
pub open spec fn entry_of(nodes: Seq<NodeV>, i: int) -> EntryV {
    EntryV {
        path: nodes[i].path,
        size: entry_size(nodes, i),
        is_dir: nodes[i].is_dir,
        modified: nodes[i].modified,
        permissions: perm_chars(nodes[i].mode, nodes[i].is_dir),
        name: nodes[i].name,
    }
}

/// The traversal engine's configuration: the depth bound and the
/// visibility filters.
pub ghost struct ScanConfig {
    pub max_depth: usize,
    pub show_hidden: bool,
    pub ext: Option<Seq<char>>,
}

/// Whether a node is listed under a configuration: it lies within the
/// depth bound, it is not hidden (unless hidden files are shown), and its
/// name's extension matches the filter exactly, if one is set.
pub open spec fn visible(n: NodeV, c: ScanConfig) -> bool {
    &&& n.depth <= c.max_depth
    &&& (c.show_hidden || !is_hidden_name(n.name))
    &&& (match c.ext {
        Option::None => true,
        Option::Some(e) => ext_of(n.name) == Option::Some(e),
    })
}

/// The entry list produced from the first `k` nodes: the visible ones, in
/// node order, each sized over the full node list.
pub open spec fn scan_upto(nodes: Seq<NodeV>, c: ScanConfig, k: int) -> Seq<EntryV>
    decreases k,
{
    if k <= 0 {
        Seq::empty()
    } else if visible(nodes[k - 1], c) {
        scan_upto(nodes, c, k - 1).push(entry_of(nodes, k - 1))
    } else {
        scan_upto(nodes, c, k - 1)
    }
}

/// The entry list a scan produces from a depth-first node list.
pub open spec fn scan_spec(nodes: Seq<NodeV>, c: ScanConfig) -> Seq<EntryV> {
    scan_upto(nodes, c, nodes.len() as int)
}

/// The sum, capped at the largest representable size.
fn sat_add_exec(a: u64, b: u64) -> (r: u64)
    ensures
        r == sat_add(a, b),
{
    match a.checked_add(b) {
        Some(v) => v,
        None => u64::MAX,
    }
}

/// The block count times 512, capped at the largest representable size.
fn alloc_of_blocks(blocks: u64) -> (r: u64)
    ensures
        r == file_alloc(blocks),
{
    match blocks.checked_mul(512) {
        Some(v) => v,
        None => u64::MAX,
    }
}

/// A scan of positions `from .. j` that saw only depths above `d` and
/// stopped at `j` on the list's end or on a depth at most `d` has found
/// the subtree's end.
proof fn lemma_subtree_end_found(nodes: Seq<NodeV>, d: usize, from: int, j: int)
    requires
        0 <= from <= j <= nodes.len(),
        forall|m: int| from <= m < j ==> nodes[m].depth > d,
        j == nodes.len() || nodes[j].depth <= d,
    ensures
        subtree_end_from(nodes, d, from) == j,
    decreases j - from,
{
    if from < j {
        lemma_subtree_end_found(nodes, d, from + 1, j);
    }
}

/// The traversal engine: the depth bound and the visibility filters of a
/// session.
pub struct Scanner {
    max_depth: usize,
    show_hidden: bool,
    extension_filter: Option<String>,
}

impl View for Scanner {
    type V = ScanConfig;

    closed spec fn view(&self) -> ScanConfig {
        ScanConfig {
            max_depth: self.max_depth,
            show_hidden: self.show_hidden,
            ext: self.extension_filter.deep_view(),
        }
    }
}

impl Scanner {
    /// A scanner with the given depth bound and hidden-file setting, and
    /// no extension filter.
    pub fn new(max_depth: usize, show_hidden: bool) -> (r: Self)
        ensures
            r@ == (ScanConfig { max_depth, show_hidden, ext: Option::None }),
    {
        Scanner { max_depth, show_hidden, extension_filter: None }
    }

    /// The same scanner with the given extension filter.
    pub fn with_extension_filter(self, ext: Option<String>) -> (r: Self)
        ensures
            r@ == (ScanConfig { ext: ext.deep_view(), ..self@ }),
    {
        Scanner { extension_filter: ext, ..self }
    }

    /// Whether the node at position `i` is listed under this
    /// configuration.
    fn is_visible(&self, nodes: &Vec<FsNode>, i: usize) -> (r: bool)
        requires
            i < nodes@.len(),
        ensures
            r == visible(nodes.deep_view()[i as int], self@),
    {
        let node = &nodes[i];
        if node.depth > self.max_depth {
            return false;
        }
        if !self.show_hidden && name_is_hidden(node.name.as_str()) {
            return false;
        }
        match &self.extension_filter {
            None => true,
            Some(f) => {
                match extension_of(node.name.as_str()) {
                    Some(e) => str_eq(e.as_str(), f.as_str()),
                    None => false,
                }
            },
        }
    }

    /// The on-disk size of the node at position `i`: its own allocation
    /// for a file, the full-depth subtree sum for a directory.
    fn size_of_node(&self, nodes: &Vec<FsNode>, i: usize) -> (r: u64)
        requires
            i < nodes@.len(),
        ensures
            r == entry_size(nodes.deep_view(), i as int),
    {
        let ghost nv = nodes.deep_view();
        let n = nodes.len();
        if !nodes[i].is_dir {
            return alloc_of_blocks(nodes[i].blocks);
        }
        let d = nodes[i].depth;
        let mut total: u64 = 0;
        let mut j: usize = i + 1;
        while j < n && nodes[j].depth > d
            invariant
                nv == nodes.deep_view(),
                n == nv.len(),
                i < n,
                nv[i as int].depth == d,
                i + 1 <= j <= n,
                forall|m: int| i + 1 <= m < j ==> nv[m].depth > d,
                total == size_sum(nv, i + 1, j as int),
            decreases n - j,
        {
            if !nodes[j].is_dir {
                total = sat_add_exec(total, alloc_of_blocks(nodes[j].blocks));
            }
            j = j + 1;
        }
        proof {
            lemma_subtree_end_found(nv, d, i + 1, j as int);
        }
        total
    }

    /// The scan of a depth-first node list: the visible entries, in node
    /// order, each carrying its on-disk size, timestamp and permission
    /// summary.
    pub fn scan(&self, nodes: &Vec<FsNode>) -> (r: Vec<FileEntry>)
        ensures
            r.deep_view() == scan_spec(nodes.deep_view(), self@),
    {
        let ghost nv = nodes.deep_view();
        let n = nodes.len();
        let mut out: Vec<FileEntry> = Vec::new();
        let mut i: usize = 0;
        while i < n
            invariant
                nv == nodes.deep_view(),
                n == nv.len(),
                i <= n,
                out.deep_view() == scan_upto(nv, self@, i as int),
            decreases n - i,
        {
            if self.is_visible(nodes, i) {
                let size = self.size_of_node(nodes, i);
                let e = FileEntry::from_node(&nodes[i], size);
                proof {
                    assert(e.deep_view() == entry_of(nv, i as int));
                }
                out.push(e);
                proof {
                    assert(out.deep_view() =~= scan_upto(nv, self@, i + 1));
                }
            } else {
                proof {
                    assert(out.deep_view() =~= scan_upto(nv, self@, i + 1));
                }
            }
            i = i + 1;
        }
        proof {
            assert(out.deep_view() == scan_spec(nv, self@));
        }
        out
    }
}

/// Whether an entry is exactly what some visible node of the list
/// produces: it carries that node's path, name, kind, timestamp and
/// permission rendering, and its size is measured over the node's whole
/// subtree -- for a directory, the allocation of every descendant file at
/// any depth, whatever the filters exclude from the listing.
pub open spec fn entry_sound(e: EntryV, nodes: Seq<NodeV>, c: ScanConfig) -> bool {
    exists|m: int|
        0 <= m < nodes.len() && visible(nodes[m], c) && nodes[m].depth <= c.max_depth && e
            == #[trigger] entry_of(nodes, m)
}

/// Every entry among the first `k` nodes' output comes from a visible
/// node.
proof fn lemma_scan_upto_sound(nodes: Seq<NodeV>, c: ScanConfig, k: int)
    requires
        0 <= k <= nodes.len(),
    ensures
        forall|j: int|
            #![trigger scan_upto(nodes, c, k)[j]]
            0 <= j < scan_upto(nodes, c, k).len() ==> entry_sound(scan_upto(nodes, c, k)[j], nodes, c),
    decreases k,
{
    if k > 0 {
        lemma_scan_upto_sound(nodes, c, k - 1);
        let pre = scan_upto(nodes, c, k - 1);
        let cur = scan_upto(nodes, c, k);
        assert forall|j: int| 0 <= j < cur.len() implies entry_sound(cur[j], nodes, c) by {
            if j < pre.len() {
                assert(cur[j] == pre[j]);
                assert(entry_sound(pre[j], nodes, c));
            } else {
                assert(visible(nodes[k - 1], c));
                assert(cur[j] == entry_of(nodes, k - 1));
                assert(0 <= k - 1 < nodes.len() && visible(nodes[k - 1], c) && nodes[k - 1].depth
                    <= c.max_depth && cur[j] == entry_of(nodes, k - 1));
            }
        }
    }
}

/// Law: every entry a scan lists comes from a node within the depth
/// limit, and a listed directory's size is the sum over its whole
/// subtree, at any depth -- the depth bound limits what is listed, never
/// what is measured (see `entry_sound` and `entry_of`).
pub proof fn lemma_scan_within_depth(nodes: Seq<NodeV>, c: ScanConfig)
    ensures
        forall|j: int|
            #![trigger scan_spec(nodes, c)[j]]
            0 <= j < scan_spec(nodes, c).len() ==> entry_sound(scan_spec(nodes, c)[j], nodes, c),
{
    lemma_scan_upto_sound(nodes, c, nodes.len() as int);
}

/// A hidden name never passes the filter when hidden files are off.
proof fn lemma_scan_upto_hidden(nodes: Seq<NodeV>, c: ScanConfig, k: int)
    requires
        !c.show_hidden,
        0 <= k <= nodes.len(),
    ensures
        forall|j: int|
            #![trigger scan_upto(nodes, c, k)[j]]
            0 <= j < scan_upto(nodes, c, k).len() ==> !is_hidden_name(scan_upto(nodes, c, k)[j].name),
    decreases k,
{
    if k > 0 {
        lemma_scan_upto_hidden(nodes, c, k - 1);
        let pre = scan_upto(nodes, c, k - 1);
        let cur = scan_upto(nodes, c, k);
        assert forall|j: int| 0 <= j < cur.len() implies !is_hidden_name(cur[j].name) by {
            if j < pre.len() {
                assert(cur[j] == pre[j]);
            } else {
                assert(cur[j] == entry_of(nodes, k - 1));
                assert(!is_hidden_name(nodes[k - 1].name));
            }
        }
    }
}

/// Law: with hidden files switched off, no listed entry's name starts
/// with a dot.
pub proof fn lemma_hidden_filter(nodes: Seq<NodeV>, c: ScanConfig)
    requires
        !c.show_hidden,
    ensures
        forall|j: int|
            #![trigger scan_spec(nodes, c)[j]]
            0 <= j < scan_spec(nodes, c).len() ==> !is_hidden_name(scan_spec(nodes, c)[j].name),
{
    lemma_scan_upto_hidden(nodes, c, nodes.len() as int);
}

/// Under an extension filter, every listed entry's name carries exactly
/// that extension.
proof fn lemma_scan_upto_ext(nodes: Seq<NodeV>, c: ScanConfig, k: int)
    requires
        c.ext is Some,
        0 <= k <= nodes.len(),
    ensures
        forall|j: int|
            #![trigger scan_upto(nodes, c, k)[j]]
            0 <= j < scan_upto(nodes, c, k).len() ==> ext_of(scan_upto(nodes, c, k)[j].name)
                == c.ext,
    decreases k,
{
    if k > 0 {
        lemma_scan_upto_ext(nodes, c, k - 1);
        let pre = scan_upto(nodes, c, k - 1);
        let cur = scan_upto(nodes, c, k);
        assert forall|j: int| 0 <= j < cur.len() implies ext_of(cur[j].name) == c.ext by {
            if j < pre.len() {
                assert(cur[j] == pre[j]);
            } else {
                assert(cur[j] == entry_of(nodes, k - 1));
            }
        }
    }
}

/// Law: the extension filter is a literal per-node test: every entry a
/// filtered scan lists -- a file or a directory alike -- has exactly the
/// filter's extension in its own name. A directory named without it is
/// not listed, however many matching files lie below it.
pub proof fn lemma_extension_filter(nodes: Seq<NodeV>, c: ScanConfig)
    requires
        c.ext is Some,
    ensures
        forall|j: int|
            #![trigger scan_spec(nodes, c)[j]]
            0 <= j < scan_spec(nodes, c).len() ==> ext_of(scan_spec(nodes, c)[j].name) == c.ext,
{
    lemma_scan_upto_ext(nodes, c, nodes.len() as int);
}

/// A visible node among the first `k` has its entry in their output.
proof fn lemma_scan_upto_lists(nodes: Seq<NodeV>, c: ScanConfig, k: int, m: int)
    requires
        0 <= m < k <= nodes.len(),
        visible(nodes[m], c),
    ensures
        scan_upto(nodes, c, k).contains(entry_of(nodes, m)),
    decreases k,
{
    if m == k - 1 {
        let cur = scan_upto(nodes, c, k);
        assert(cur[cur.len() - 1] == entry_of(nodes, m));
    } else {
        lemma_scan_upto_lists(nodes, c, k - 1, m);
        let pre = scan_upto(nodes, c, k - 1);
        let j = choose|j: int| 0 <= j < pre.len() && pre[j] == entry_of(nodes, m);
        assert(scan_upto(nodes, c, k)[j] == entry_of(nodes, m));
    }
}

/// Law: the filters only exclude: every node visible under the
/// configuration has its entry in the scan's output.
pub proof fn lemma_visible_node_listed(nodes: Seq<NodeV>, c: ScanConfig, m: int)
    requires
        0 <= m < nodes.len(),
        visible(nodes[m], c),
    ensures
        scan_spec(nodes, c).contains(entry_of(nodes, m)),
{
    lemma_scan_upto_lists(nodes, c, nodes.len() as int, m);
}

/// Law: a node visible under two configurations is listed by both scans
/// as the very same entry -- in particular with the same size, which is
/// computed from the raw node list and never from the filtered one.
/// Showing or hiding other nodes, or filtering by extension, cannot
/// change what is measured for this node.
pub proof fn lemma_entry_ignores_filters(nodes: Seq<NodeV>, c1: ScanConfig, c2: ScanConfig, m: int)
    requires
        0 <= m < nodes.len(),
        visible(nodes[m], c1),
        visible(nodes[m], c2),
    ensures
        scan_spec(nodes, c1).contains(entry_of(nodes, m)),
        scan_spec(nodes, c2).contains(entry_of(nodes, m)),
{
    lemma_scan_upto_lists(nodes, c1, nodes.len() as int, m);
    lemma_scan_upto_lists(nodes, c2, nodes.len() as int, m);
}

/// Law: a scan is a function of the node list and the configuration
/// alone: two scans of an unchanged directory list the same entries with
/// the same sizes, names, kinds and permissions.
pub proof fn lemma_scan_deterministic(
    nodes1: Seq<NodeV>,
    nodes2: Seq<NodeV>,
    c1: ScanConfig,
    c2: ScanConfig,
)
    requires
        nodes1 == nodes2,
        c1 == c2,
    ensures
        scan_spec(nodes1, c1) == scan_spec(nodes2, c2),
{
}

/// Law: a file's reported size comes from its allocated block count --
/// `blocks * 512` whenever that fits, independent of any logical byte
/// length, which the scan never reads.
pub proof fn lemma_file_size_from_blocks(nodes: Seq<NodeV>, m: int)
    requires
        0 <= m < nodes.len(),
        !nodes[m].is_dir,
    ensures
        entry_of(nodes, m).size == file_alloc(nodes[m].blocks),
        nodes[m].blocks * 512 <= u64::MAX ==> entry_of(nodes, m).size == nodes[m].blocks * 512,
{
}

} // verus!
