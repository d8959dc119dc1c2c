use spaceman::entry::FsNode;
use spaceman::scanner::Scanner;

fn node(
    path: &str,
    name: &str,
    depth: usize,
    is_dir: bool,
    blocks: u64,
    mode: u32,
    modified: u64,
) -> FsNode {
    FsNode {
        path: path.to_string(),
        name: name.to_string(),
        depth,
        is_dir,
        blocks,
        mode,
        modified,
    }
}

/// A three-level tree scanned with depth limit 1: only nodes within the
/// limit are listed, but the listed directories' sizes cover descendants
/// at every depth.
#[test]
fn depth_limit_bounds_listing_not_sizing() {
    let nodes = vec![
        node("/r", "r", 0, true, 8, 0o755, 10),
        node("/r/a.txt", "a.txt", 1, false, 2, 0o644, 11),
        node("/r/sub", "sub", 1, true, 8, 0o755, 12),
        node("/r/sub/deep", "deep", 2, true, 8, 0o755, 13),
        node("/r/sub/deep/big.bin", "big.bin", 3, false, 100, 0o644, 14),
        node("/r/sub/c.txt", "c.txt", 2, false, 4, 0o644, 15),
        node("/r/z.log", "z.log", 1, false, 1, 0o644, 16),
    ];
    let scanner = Scanner::new(1, true);
    let entries = scanner.scan(&nodes);
    let names: Vec<&str> = entries.iter().map(|e| e.name.as_str()).collect();
    assert_eq!(names, vec!["r", "a.txt", "sub", "z.log"]);
    // Every listed path lies at most one component below the root.
    for e in &entries {
        let below = e.path.strip_prefix("/r").unwrap();
        assert!(below.matches('/').count() <= 1);
    }
    // sub is sized over big.bin (depth 3) and c.txt (depth 2).
    let sub = entries.iter().find(|e| e.name == "sub").unwrap();
    assert_eq!(sub.size, (100 + 4) * 512);
    // The root is sized over every descendant file.
    let root = entries.iter().find(|e| e.name == "r").unwrap();
    assert_eq!(root.size, (2 + 100 + 4 + 1) * 512);
}

/// A file's size is its block count times 512; no logical byte length is
/// ever consulted (none is even handed to the engine).
#[test]
fn file_size_is_blocks_times_512() {
    let nodes = vec![
        node("/r", "r", 0, true, 8, 0o755, 1),
        node("/r/sparse.img", "sparse.img", 1, false, 3, 0o644, 2),
    ];
    let entries = Scanner::new(2, true).scan(&nodes);
    let f = entries.iter().find(|e| e.name == "sparse.img").unwrap();
    assert_eq!(f.size, 3 * 512);
}

/// `.secret` is absent without show-hidden and present with it, and its
/// parent's size is the same either way.
#[test]
fn hidden_filter_hides_listing_not_sizes() {
    let nodes = vec![
        node("/r", "r", 0, true, 8, 0o755, 1),
        node("/r/.secret", ".secret", 1, false, 2, 0o600, 2),
        node("/r/a.txt", "a.txt", 1, false, 1, 0o644, 3),
    ];
    let hiding = Scanner::new(2, false).scan(&nodes);
    assert!(hiding.iter().all(|e| e.name != ".secret"));
    let showing = Scanner::new(2, true).scan(&nodes);
    assert!(showing.iter().any(|e| e.name == ".secret"));
    // The root is hidden-independent in size; it is listed only when
    // hidden files are shown ("r" is not hidden, so it is listed both
    // times).
    let root_hiding = hiding.iter().find(|e| e.name == "r").unwrap();
    let root_showing = showing.iter().find(|e| e.name == "r").unwrap();
    assert_eq!(root_hiding.size, (2 + 1) * 512);
    assert_eq!(root_showing.size, root_hiding.size);
}

/// The extension filter is a literal per-node test: `sub` is excluded
/// even though `sub/c.txt` would match, and only `a.txt` is listed.
#[test]
fn extension_filter_is_per_node() {
    let nodes = vec![
        node("/r", "r", 0, true, 8, 0o755, 1),
        node("/r/a.txt", "a.txt", 1, false, 1, 0o644, 2),
        node("/r/b.log", "b.log", 1, false, 1, 0o644, 3),
        node("/r/sub", "sub", 1, true, 8, 0o755, 4),
        node("/r/sub/c.txt", "c.txt", 2, false, 1, 0o644, 5),
    ];
    let scanner = Scanner::new(1, false).with_extension_filter(Some("txt".to_string()));
    let entries = scanner.scan(&nodes);
    let names: Vec<&str> = entries.iter().map(|e| e.name.as_str()).collect();
    assert_eq!(names, vec!["a.txt"]);
}

/// A directory whose own name carries the matching extension stays
/// listed under the extension filter.
#[test]
fn extension_filter_keeps_matching_directory() {
    let nodes = vec![
        node("/r", "r", 0, true, 8, 0o755, 1),
        node("/r/notes.txt", "notes.txt", 1, true, 8, 0o755, 2),
        node("/r/notes.txt/c.txt", "c.txt", 2, false, 6, 0o644, 3),
    ];
    let scanner = Scanner::new(1, false).with_extension_filter(Some("txt".to_string()));
    let entries = scanner.scan(&nodes);
    assert_eq!(entries.len(), 1);
    assert_eq!(entries[0].name, "notes.txt");
    assert!(entries[0].is_dir);
    assert_eq!(entries[0].size, 6 * 512);
}

/// Two scans of the same unchanged node list agree entry by entry.
#[test]
fn scan_is_deterministic() {
    let nodes = vec![
        node("/r", "r", 0, true, 8, 0o755, 1),
        node("/r/a.txt", "a.txt", 1, false, 2, 0o644, 2),
        node("/r/sub", "sub", 1, true, 8, 0o755, 3),
        node("/r/sub/d.bin", "d.bin", 2, false, 9, 0o600, 4),
    ];
    let scanner = Scanner::new(2, true);
    let first = scanner.scan(&nodes);
    let second = scanner.scan(&nodes);
    assert_eq!(first.len(), second.len());
    for (a, b) in first.iter().zip(second.iter()) {
        assert_eq!(a.path, b.path);
        assert_eq!(a.name, b.name);
        assert_eq!(a.size, b.size);
        assert_eq!(a.is_dir, b.is_dir);
        assert_eq!(a.modified, b.modified);
        assert_eq!(a.permissions, b.permissions);
    }
}

/// Saturation: a block count too large for `blocks * 512` to fit reports
/// the largest representable size instead of wrapping.
#[test]
fn oversized_allocation_saturates() {
    let nodes = vec![
        node("/r", "r", 0, true, 8, 0o755, 1),
        node("/r/huge", "huge", 1, false, u64::MAX / 4, 0o644, 2),
    ];
    let entries = Scanner::new(1, true).scan(&nodes);
    let huge = entries.iter().find(|e| e.name == "huge").unwrap();
    assert_eq!(huge.size, u64::MAX);
}

/// An empty node list scans to an empty entry list.
#[test]
fn empty_node_list_scans_empty() {
    let nodes: Vec<FsNode> = Vec::new();
    let entries = Scanner::new(2, true).scan(&nodes);
    assert!(entries.is_empty());
}

/// A lone empty directory is listed with size zero and its permissions
/// rendered.
#[test]
fn lone_directory_has_zero_size() {
    let nodes = vec![node("/r", "r", 0, true, 8, 0o755, 1)];
    let entries = Scanner::new(1, true).scan(&nodes);
    assert_eq!(entries.len(), 1);
    assert_eq!(entries[0].size, 0);
    assert_eq!(entries[0].permissions, "drwxr-xr-x");
    assert!(entries[0].is_dir);
}

/// Sibling directories are sized over their own subtrees only.
#[test]
fn sibling_directories_do_not_share_sizes() {
    let nodes = vec![
        node("/r", "r", 0, true, 8, 0o755, 1),
        node("/r/one", "one", 1, true, 8, 0o755, 2),
        node("/r/one/a", "a", 2, false, 3, 0o644, 3),
        node("/r/two", "two", 1, true, 8, 0o755, 4),
        node("/r/two/b", "b", 2, false, 5, 0o644, 5),
    ];
    let entries = Scanner::new(1, true).scan(&nodes);
    let one = entries.iter().find(|e| e.name == "one").unwrap();
    let two = entries.iter().find(|e| e.name == "two").unwrap();
    assert_eq!(one.size, 3 * 512);
    assert_eq!(two.size, 5 * 512);
}
