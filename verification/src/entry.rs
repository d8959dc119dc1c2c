//! The entry model: the record describing one filesystem object in a scan
//! result, and the raw node record that the filesystem walk hands to the
//! traversal engine.

use vstd::prelude::*;
use vstd::string::StringExecFns;

verus! {

/// One node as the filesystem walk reports it, in depth-first order:
/// a directory comes right before its children, and a node's subtree is
/// the run of following nodes of strictly greater depth.
#[derive(Debug)]
pub struct FsNode {
    /// The node's location, as the walk renders it.
    pub path: String,
    /// The final path component.
    pub name: String,
    /// Path components below the scan root; the root itself has depth 0.
    pub depth: usize,
    /// Whether the node is a directory.
    pub is_dir: bool,
    /// 512-byte blocks allocated on disk for this node.
    pub blocks: u64,
    /// Unix permission bits of the node's mode.
    pub mode: u32,
    /// Last-modification time, in nanoseconds since the Unix epoch.
    pub modified: u64,
}

/// The mathematical value of an [`FsNode`].
pub ghost struct NodeV {
    pub path: Seq<char>,
    pub name: Seq<char>,
    pub depth: usize,
    pub is_dir: bool,
    pub blocks: u64,
    pub mode: u32,
    pub modified: u64,
}

impl View for FsNode {
    type V = NodeV;

    open spec fn view(&self) -> NodeV {
        NodeV {
            path: self.path@,
            name: self.name@,
            depth: self.depth,
            is_dir: self.is_dir,
            blocks: self.blocks,
            mode: self.mode,
            modified: self.modified,
        }
    }
}

impl DeepView for FsNode {
    type V = NodeV;

    open spec fn deep_view(&self) -> NodeV {
        self.view()
    }
}

/// One filesystem object of a scan result: a file or a directory with its
/// on-disk size, timestamp and permission summary.
#[derive(Debug)]
pub struct FileEntry {
    /// The entry's location.
    pub path: String,
    /// On-disk allocation in bytes: for a file, its block count times 512;
    /// for a directory, the sum of that figure over every descendant file,
    /// at any depth.
    pub size: u64,
    /// Whether the entry is a directory.
    pub is_dir: bool,
    /// Last-modification time, in nanoseconds since the Unix epoch.
    pub modified: u64,
    /// Fixed-width symbolic rendering of the mode bits: a `d`/`-` kind
    /// flag and nine `rwx` positions for owner, group and other.
    pub permissions: String,
    /// The final path component, used for display and name-sort.
    pub name: String,
}

/// The mathematical value of a [`FileEntry`].
pub ghost struct EntryV {
    pub path: Seq<char>,
    pub size: u64,
    pub is_dir: bool,
    pub modified: u64,
    pub permissions: Seq<char>,
    pub name: Seq<char>,
}

impl View for FileEntry {
    type V = EntryV;

    open spec fn view(&self) -> EntryV {
        EntryV {
            path: self.path@,
            size: self.size,
            is_dir: self.is_dir,
            modified: self.modified,
            permissions: self.permissions@,
            name: self.name@,
        }
    }
}

impl DeepView for FileEntry {
    type V = EntryV;

    open spec fn deep_view(&self) -> EntryV {
        self.view()
    }
}

impl Clone for FileEntry {
    /// A copy of the entry, equal to it field by field.
    fn clone(&self) -> (res: Self)
        ensures
            res == *self,
    {
        FileEntry {
            path: self.path.clone(),
            size: self.size,
            is_dir: self.is_dir,
            modified: self.modified,
            permissions: self.permissions.clone(),
            name: self.name.clone(),
        }
    }
}

impl FileEntry {
    /// The entry for one walked node with its size already measured: the
    /// node's path, name, kind and timestamp, with the permission bits
    /// rendered symbolically.
    pub fn from_node(node: &FsNode, size: u64) -> (r: FileEntry)
        ensures
            r@ == (EntryV {
                path: node@.path,
                size,
                is_dir: node@.is_dir,
                modified: node@.modified,
                permissions: perm_chars(node@.mode, node@.is_dir),
                name: node@.name,
            }),
    {
        FileEntry {
            path: node.path.clone(),
            size,
            is_dir: node.is_dir,
            modified: node.modified,
            permissions: format_permissions(node.mode, node.is_dir),
            name: node.name.clone(),
        }
    }
}

/// The symbolic rendering of the given mode bits: a kind flag and nine
/// `rwx` positions, `-` where the bit is unset.
pub open spec fn perm_chars(mode: u32, is_dir: bool) -> Seq<char> {
    seq![
        if is_dir { 'd' } else { '-' },
        if mode & 0o400 != 0 { 'r' } else { '-' },
        if mode & 0o200 != 0 { 'w' } else { '-' },
        if mode & 0o100 != 0 { 'x' } else { '-' },
        if mode & 0o040 != 0 { 'r' } else { '-' },
        if mode & 0o020 != 0 { 'w' } else { '-' },
        if mode & 0o010 != 0 { 'x' } else { '-' },
        if mode & 0o004 != 0 { 'r' } else { '-' },
        if mode & 0o002 != 0 { 'w' } else { '-' },
        if mode & 0o001 != 0 { 'x' } else { '-' },
    ]
}

/// Renders the mode bits of a node as the fixed ten-character permission
/// summary.
#[verifier::rlimit(60)]
pub fn format_permissions(mode: u32, is_dir: bool) -> (r: String)
    ensures
        r@ == perm_chars(mode, is_dir),
{
    proof {
        reveal_strlit("d");
        reveal_strlit("r");
        reveal_strlit("w");
        reveal_strlit("x");
        reveal_strlit("-");
    }
    let ghost target = perm_chars(mode, is_dir);
    let mut s = String::new();
    if is_dir {
        s.append("d");
    } else {
        s.append("-");
    }
    proof {
        assert(s@ =~= target.take(1));
    }
    if mode & 0o400 != 0 {
        s.append("r");
    } else {
        s.append("-");
    }
    proof {
        assert(s@ =~= target.take(2));
    }
    if mode & 0o200 != 0 {
        s.append("w");
    } else {
        s.append("-");
    }
    proof {
        assert(s@ =~= target.take(3));
    }
    if mode & 0o100 != 0 {
        s.append("x");
    } else {
        s.append("-");
    }
    proof {
        assert(s@ =~= target.take(4));
    }
    if mode & 0o040 != 0 {
        s.append("r");
    } else {
        s.append("-");
    }
    proof {
        assert(s@ =~= target.take(5));
    }
    if mode & 0o020 != 0 {
        s.append("w");
    } else {
        s.append("-");
    }
    proof {
        assert(s@ =~= target.take(6));
    }
    if mode & 0o010 != 0 {
        s.append("x");
    } else {
        s.append("-");
    }
    proof {
        assert(s@ =~= target.take(7));
    }
    if mode & 0o004 != 0 {
        s.append("r");
    } else {
        s.append("-");
    }
    proof {
        assert(s@ =~= target.take(8));
    }
    if mode & 0o002 != 0 {
        s.append("w");
    } else {
        s.append("-");
    }
    proof {
        assert(s@ =~= target.take(9));
    }
    if mode & 0o001 != 0 {
        s.append("x");
    } else {
        s.append("-");
    }
    proof {
        assert(s@ =~= target);
    }
    s
}

} // verus!
