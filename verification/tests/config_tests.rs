use spaceman::args::{
    sort_direction_of, sort_key_of, sort_selection_of, validate_sort_direction,
    validate_sort_order, Args,
};
use spaceman::chars::extension_of;
use spaceman::entry::{format_permissions, FileEntry};
use spaceman::error::SpacemanError;
use spaceman::sort::{SortDirection, SortKey};
use spaceman::view::{
    available_extensions, cycle_extension_index, filter_entries, next_sort_key, selection_down,
    selection_up, sort_key_label,
};

fn args() -> Args {
    Args {
        path: ".".to_string(),
        depth: 2,
        sort: "size".to_string(),
        order: "desc".to_string(),
        all: false,
        no_permissions: false,
        no_modified: false,
        ext: None,
    }
}

fn entry(name: &str, is_dir: bool) -> FileEntry {
    FileEntry {
        path: format!("/r/{}", name),
        size: 512,
        is_dir,
        modified: 0,
        permissions: "----------".to_string(),
        name: name.to_string(),
    }
}

#[test]
fn validate_accepts_a_good_configuration() {
    assert!(args().validate(true).is_ok());
}

#[test]
fn validate_rejects_a_missing_root() {
    let r = args().validate(false);
    assert!(matches!(r, Err(SpacemanError::InvalidPath(_))));
}

#[test]
fn validate_rejects_zero_depth() {
    let mut a = args();
    a.depth = 0;
    assert!(matches!(a.validate(true), Err(SpacemanError::InvalidPath(_))));
}

#[test]
fn validate_rejects_unknown_sort_key() {
    let mut a = args();
    a.sort = "bogus".to_string();
    assert!(matches!(
        a.validate(true),
        Err(SpacemanError::InvalidSortOrder(_))
    ));
}

#[test]
fn validate_rejects_unknown_sort_direction() {
    let mut a = args();
    a.order = "sideways".to_string();
    assert!(matches!(
        a.validate(true),
        Err(SpacemanError::InvalidSortDirection(_))
    ));
}

#[test]
fn sort_words_are_validated() {
    assert_eq!(validate_sort_order("size").unwrap(), "size");
    assert_eq!(validate_sort_order("name").unwrap(), "name");
    assert_eq!(validate_sort_order("modified").unwrap(), "modified");
    assert!(validate_sort_order("default").is_err());
    assert!(validate_sort_order("").is_err());
    assert_eq!(validate_sort_direction("asc").unwrap(), "asc");
    assert_eq!(validate_sort_direction("desc").unwrap(), "desc");
    assert!(validate_sort_direction("down").is_err());
}

#[test]
fn sort_words_map_to_keys_and_directions() {
    assert_eq!(sort_key_of("size"), SortKey::Size);
    assert_eq!(sort_key_of("name"), SortKey::Name);
    assert_eq!(sort_key_of("modified"), SortKey::Modified);
    assert_eq!(sort_key_of("anything-else"), SortKey::Default);
    assert_eq!(sort_direction_of("asc"), SortDirection::Asc);
    assert_eq!(sort_direction_of("desc"), SortDirection::Desc);
    assert_eq!(sort_direction_of("other"), SortDirection::Desc);
}

/// A recognized pair of words selects the key and the direction; an
/// unknown sort word falls back to the default key with the ascending
/// direction, whatever direction word stands beside it.
#[test]
fn sort_selection_falls_back_to_ascending_default() {
    assert_eq!(
        sort_selection_of("size", "asc"),
        (SortKey::Size, SortDirection::Asc)
    );
    assert_eq!(
        sort_selection_of("default", "desc"),
        (SortKey::Default, SortDirection::Desc)
    );
    assert_eq!(
        sort_selection_of("bogus", "desc"),
        (SortKey::Default, SortDirection::Asc)
    );
    assert_eq!(
        sort_selection_of("", "asc"),
        (SortKey::Default, SortDirection::Asc)
    );
}

#[test]
fn extensions_follow_the_final_component() {
    assert_eq!(extension_of("a.txt").as_deref(), Some("txt"));
    assert_eq!(extension_of("archive.tar.gz").as_deref(), Some("gz"));
    assert_eq!(extension_of("trailing."), Some(String::new()));
    assert_eq!(extension_of(".secret"), None);
    assert_eq!(extension_of("noext"), None);
    assert_eq!(extension_of(".."), None);
    assert_eq!(extension_of(""), None);
}

#[test]
fn permissions_render_fixed_width() {
    assert_eq!(format_permissions(0o755, true), "drwxr-xr-x");
    assert_eq!(format_permissions(0o644, false), "-rw-r--r--");
    assert_eq!(format_permissions(0, false), "----------");
    assert_eq!(format_permissions(0o777, false), "-rwxrwxrwx");
}

#[test]
fn display_filter_keeps_only_matching_entries() {
    let entries = vec![entry("a.txt", false), entry("b.log", false), entry("c.txt", false)];
    let filtered = filter_entries(&entries, &Some("txt".to_string()));
    let names: Vec<&str> = filtered.iter().map(|e| e.name.as_str()).collect();
    assert_eq!(names, vec!["a.txt", "c.txt"]);
    let unfiltered = filter_entries(&entries, &None);
    assert_eq!(unfiltered.len(), 3);
}

#[test]
fn available_extensions_are_sorted_and_unique() {
    let entries = vec![
        entry("a.txt", false),
        entry("b.log", false),
        entry("c.txt", false),
        entry("plain", false),
        entry(".hidden", false),
    ];
    let exts = available_extensions(&entries);
    assert_eq!(exts, vec!["log".to_string(), "txt".to_string()]);
}

#[test]
fn sort_keys_cycle_in_display_order() {
    assert_eq!(next_sort_key(SortKey::Default), SortKey::Size);
    assert_eq!(next_sort_key(SortKey::Size), SortKey::Name);
    assert_eq!(next_sort_key(SortKey::Name), SortKey::Modified);
    assert_eq!(next_sort_key(SortKey::Modified), SortKey::Default);
    assert_eq!(sort_key_label(SortKey::Default), "default");
    assert_eq!(sort_key_label(SortKey::Size), "size");
}

#[test]
fn selection_moves_stay_in_bounds() {
    assert_eq!(selection_up(None), Some(0));
    assert_eq!(selection_up(Some(0)), Some(0));
    assert_eq!(selection_up(Some(3)), Some(2));
    assert_eq!(selection_down(None, 5), Some(0));
    assert_eq!(selection_down(Some(0), 5), Some(1));
    assert_eq!(selection_down(Some(4), 5), Some(4));
    assert_eq!(selection_down(Some(0), 0), Some(0));
}

#[test]
fn extension_cycle_wraps_after_the_last() {
    assert_eq!(cycle_extension_index(0, 2), 1);
    assert_eq!(cycle_extension_index(1, 2), 2);
    assert_eq!(cycle_extension_index(2, 2), 0);
    assert_eq!(cycle_extension_index(0, 0), 0);
    // A position beyond the list (the list shrank) still cycles.
    assert_eq!(cycle_extension_index(7, 2), 2);
    assert_eq!(cycle_extension_index(usize::MAX, usize::MAX), 0);
}

#[test]
fn error_messages_are_readable() {
    let e = SpacemanError::InvalidSortOrder("Invalid sort order: bogus".to_string());
    assert_eq!(e.message(), "Invalid sort order: bogus");
}
