use spaceman::args::sort_selection_of;
use spaceman::entry::FileEntry;
use spaceman::sort::{sort_entries, SortDirection, SortKey};

fn entry(name: &str, size: u64, is_dir: bool, modified: u64) -> FileEntry {
    FileEntry {
        path: format!("/r/{}", name),
        size,
        is_dir,
        modified,
        permissions: "----------".to_string(),
        name: name.to_string(),
    }
}

fn names(v: &Vec<FileEntry>) -> Vec<&str> {
    v.iter().map(|e| e.name.as_str()).collect()
}

/// Under the default key a directory comes first even when the file's
/// name sorts earlier; turning the direction around reorders only entries
/// of the same kind.
#[test]
fn default_sort_puts_directories_first() {
    let mut v = vec![entry("aaa", 1, false, 0), entry("zzz", 1, true, 0)];
    sort_entries(&mut v, SortKey::Default, SortDirection::Asc);
    assert_eq!(names(&v), vec!["zzz", "aaa"]);

    let mut v = vec![
        entry("a-file", 1, false, 0),
        entry("z-dir", 1, true, 0),
        entry("b-file", 1, false, 0),
        entry("a-dir", 1, true, 0),
    ];
    sort_entries(&mut v, SortKey::Default, SortDirection::Asc);
    assert_eq!(names(&v), vec!["a-dir", "z-dir", "a-file", "b-file"]);
    let mut v2 = vec![
        entry("a-file", 1, false, 0),
        entry("z-dir", 1, true, 0),
        entry("b-file", 1, false, 0),
        entry("a-dir", 1, true, 0),
    ];
    sort_entries(&mut v2, SortKey::Default, SortDirection::Desc);
    // Directories still first; only the order within each kind turned.
    assert_eq!(names(&v2), vec!["z-dir", "a-dir", "b-file", "a-file"]);
}

#[test]
fn size_sort_both_directions() {
    let mut v = vec![
        entry("mid", 200, false, 0),
        entry("big", 3000, false, 0),
        entry("tiny", 1, false, 0),
    ];
    sort_entries(&mut v, SortKey::Size, SortDirection::Asc);
    assert_eq!(names(&v), vec!["tiny", "mid", "big"]);
    sort_entries(&mut v, SortKey::Size, SortDirection::Desc);
    assert_eq!(names(&v), vec!["big", "mid", "tiny"]);
}

#[test]
fn name_sort_both_directions() {
    let mut v = vec![
        entry("pear", 1, false, 0),
        entry("apple", 1, false, 0),
        entry("quince", 1, false, 0),
    ];
    sort_entries(&mut v, SortKey::Name, SortDirection::Asc);
    assert_eq!(names(&v), vec!["apple", "pear", "quince"]);
    sort_entries(&mut v, SortKey::Name, SortDirection::Desc);
    assert_eq!(names(&v), vec!["quince", "pear", "apple"]);
}

#[test]
fn modified_sort_both_directions() {
    let mut v = vec![
        entry("old", 1, false, 100),
        entry("new", 1, false, 900),
        entry("mid", 1, false, 500),
    ];
    sort_entries(&mut v, SortKey::Modified, SortDirection::Asc);
    assert_eq!(names(&v), vec!["old", "mid", "new"]);
    sort_entries(&mut v, SortKey::Modified, SortDirection::Desc);
    assert_eq!(names(&v), vec!["new", "mid", "old"]);
}

/// Entries that compare equal under the key keep their source order: the
/// sort is stable.
#[test]
fn equal_keys_keep_source_order() {
    let mut v = vec![
        entry("first", 7, false, 0),
        entry("second", 7, false, 0),
        entry("third", 7, false, 0),
    ];
    sort_entries(&mut v, SortKey::Size, SortDirection::Asc);
    assert_eq!(names(&v), vec!["first", "second", "third"]);
    sort_entries(&mut v, SortKey::Size, SortDirection::Desc);
    assert_eq!(names(&v), vec!["first", "second", "third"]);
}

/// Sorting permutes: nothing appears or disappears.
#[test]
fn sorting_is_a_permutation() {
    let mut v = vec![
        entry("c", 3, true, 30),
        entry("a", 1, false, 10),
        entry("b", 2, true, 20),
    ];
    sort_entries(&mut v, SortKey::Default, SortDirection::Asc);
    let mut seen = names(&v);
    seen.sort();
    assert_eq!(seen, vec!["a", "b", "c"]);
    assert_eq!(v.len(), 3);
}

/// An unknown sort word, even beside `desc`, falls back to
/// directories-first then ascending name: the direction word is ignored.
#[test]
fn unknown_sort_word_orders_ascending_despite_desc() {
    let (key, dir) = sort_selection_of("bogus", "desc");
    assert_eq!((key, dir), (SortKey::Default, SortDirection::Asc));
    let mut v = vec![
        entry("pear", 1, false, 0),
        entry("apple", 1, false, 0),
        entry("zeta-dir", 1, true, 0),
    ];
    sort_entries(&mut v, key, dir);
    assert_eq!(names(&v), vec!["zeta-dir", "apple", "pear"]);
}
