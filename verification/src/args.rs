//! Session configuration and its validation: the scan root, depth bound,
//! visibility filters, and sort selection, validated once at the
//! configuration boundary.
//!
//! Argument parsing happens outside the library; it hands in the plain
//! values and reports whether the root path exists.

use vstd::prelude::*;
use vstd::string::StringExecFns;
use crate::chars::str_eq;
use crate::error::SpacemanError;
use crate::sort::{SortDirection, SortKey};

verus! {

/// The configuration a session starts from.
#[derive(Debug)]
pub struct Args {
    /// Path to scan.
    pub path: String,
    /// Maximum depth to scan; must be at least 1.
    pub depth: usize,
    /// Sort key: `size`, `name` or `modified`.
    pub sort: String,
    /// Sort direction: `asc` or `desc`.
    pub order: String,
    /// Show hidden files.
    pub all: bool,
    /// Hide file permissions in the display.
    pub no_permissions: bool,
    /// Hide the last-modified time in the display.
    pub no_modified: bool,
    /// Filter by file extension, matched exactly and without a leading
    /// dot.
    pub ext: Option<String>,
}

impl Clone for Args {
    /// A copy of the configuration, equal to it field by field.
    fn clone(&self) -> (res: Self)
        ensures
            res == *self,
    {
        Args {
            path: self.path.clone(),
            depth: self.depth,
            sort: self.sort.clone(),
            order: self.order.clone(),
            all: self.all,
            no_permissions: self.no_permissions,
            no_modified: self.no_modified,
            ext: match &self.ext {
                Some(e) => Some(e.clone()),
                None => None,
            },
        }
    }
}

/// Whether a sort key names one of the accepted orders.
pub open spec fn is_valid_sort_key(s: Seq<char>) -> bool {
    s == "size"@ || s == "name"@ || s == "modified"@
}

/// Whether a sort direction names one of the accepted directions.
pub open spec fn is_valid_sort_direction(s: Seq<char>) -> bool {
    s == "asc"@ || s == "desc"@
}

/// Accepts a sort-order word: `size`, `name` or `modified` pass through
/// unchanged; anything else is rejected with a fixed message.
pub fn validate_sort_order(s: &str) -> (r: Result<String, String>)
    ensures
        match r {
            Ok(v) => is_valid_sort_key(s@) && v@ == s@,
            Err(m) => !is_valid_sort_key(s@),
        },
{
    if str_eq(s, "size") || str_eq(s, "name") || str_eq(s, "modified") {
        Ok(s.to_owned())
    } else {
        Err("Sort order must be one of: size, name, modified".to_owned())
    }
}

/// Accepts a sort-direction word: `asc` and `desc` pass through
/// unchanged; anything else is rejected with a fixed message.
pub fn validate_sort_direction(s: &str) -> (r: Result<String, String>)
    ensures
        match r {
            Ok(v) => is_valid_sort_direction(s@) && v@ == s@,
            Err(m) => !is_valid_sort_direction(s@),
        },
{
    if str_eq(s, "asc") || str_eq(s, "desc") {
        Ok(s.to_owned())
    } else {
        Err("Sort direction must be one of: asc, desc".to_owned())
    }
}

/// The sort key a configuration word names; an unrecognized word names
/// the default key. On its own this fixes no direction: the configuration
/// boundary uses `sort_selection_of`, which for an unrecognized word also
/// forces the ascending direction.
pub open spec fn spec_sort_key_of(s: Seq<char>) -> SortKey {
    if s == "size"@ {
        SortKey::Size
    } else if s == "name"@ {
        SortKey::Name
    } else if s == "modified"@ {
        SortKey::Modified
    } else {
        SortKey::Default
    }
}

/// The sort key the given configuration word names.
pub fn sort_key_of(s: &str) -> (k: SortKey)
    ensures
        k == spec_sort_key_of(s@),
{
    if str_eq(s, "size") {
        SortKey::Size
    } else if str_eq(s, "name") {
        SortKey::Name
    } else if str_eq(s, "modified") {
        SortKey::Modified
    } else {
        SortKey::Default
    }
}

/// The sort direction a configuration word selects: `asc` ascends,
/// anything else descends.
pub open spec fn spec_sort_direction_of(s: Seq<char>) -> SortDirection {
    if s == "asc"@ {
        SortDirection::Asc
    } else {
        SortDirection::Desc
    }
}

/// The sort direction the given configuration word selects.
pub fn sort_direction_of(s: &str) -> (d: SortDirection)
    ensures
        d == spec_sort_direction_of(s@),
{
    if str_eq(s, "asc") {
        SortDirection::Asc
    } else {
        SortDirection::Desc
    }
}

/// The sort key and direction a pair of configuration words selects. The
/// recognized key words are `default`, `size`, `name` and `modified`; an
/// unrecognized word falls back to the default order with the ascending
/// direction -- directories first, then ascending name, whatever
/// direction was asked for. Validation rejects such a word before a
/// session starts, so the fallback is defensive, not user-selectable.
pub open spec fn spec_sort_selection_of(s: Seq<char>, o: Seq<char>) -> (SortKey, SortDirection) {
    if is_valid_sort_key(s) || s == "default"@ {
        (spec_sort_key_of(s), spec_sort_direction_of(o))
    } else {
        (SortKey::Default, SortDirection::Asc)
    }
}

/// The sort key and direction the given pair of configuration words
/// selects.
pub fn sort_selection_of(sort: &str, order: &str) -> (r: (SortKey, SortDirection))
    ensures
        r == spec_sort_selection_of(sort@, order@),
{
    if str_eq(sort, "size") || str_eq(sort, "name") || str_eq(sort, "modified") || str_eq(
        sort,
        "default",
    ) {
        (sort_key_of(sort), sort_direction_of(order))
    } else {
        (SortKey::Default, SortDirection::Asc)
    }
}

/// Law: an unknown or invalid sort word falls back to the default key
/// with the ascending direction, whatever direction word stands beside
/// it: the resulting order is directories first, then ascending name
/// (see `le_key` under `SortKey::Default` with `SortDirection::Asc`).
pub proof fn lemma_unknown_sort_word_falls_back(s: Seq<char>, o: Seq<char>)
    requires
        !is_valid_sort_key(s),
        s != "default"@,
    ensures
        spec_sort_selection_of(s, o) == (SortKey::Default, SortDirection::Asc),
{
}

impl Args {
    /// Validates the configuration before a session starts. The caller
    /// reports whether the root path exists; the checks run in a fixed
    /// order and the first failure names the error: a missing root or a
    /// zero depth is an invalid path, then the sort key and the sort
    /// direction must be among the accepted words.
    pub fn validate(&self, path_exists: bool) -> (r: Result<(), SpacemanError>)
        ensures
            r is Ok <==> path_exists && self.depth != 0 && is_valid_sort_key(self.sort@)
                && is_valid_sort_direction(self.order@),
            !path_exists ==> r->Err_0 is InvalidPath,
            path_exists && self.depth == 0 ==> r->Err_0 is InvalidPath,
            path_exists && self.depth != 0 && !is_valid_sort_key(self.sort@)
                ==> r->Err_0 is InvalidSortOrder,
            path_exists && self.depth != 0 && is_valid_sort_key(self.sort@)
                && !is_valid_sort_direction(self.order@) ==> r->Err_0 is InvalidSortDirection,
    {
        if !path_exists {
            let mut msg = String::new();
            msg.append("Path does not exist: ");
            msg.append(self.path.as_str());
            return Err(SpacemanError::InvalidPath(msg));
        }
        if self.depth == 0 {
            return Err(
                SpacemanError::InvalidPath("Depth must be greater than 0".to_owned()),
            );
        }
        if !(str_eq(self.sort.as_str(), "size") || str_eq(self.sort.as_str(), "name") || str_eq(
            self.sort.as_str(),
            "modified",
        )) {
            let mut msg = String::new();
            msg.append("Invalid sort order: ");
            msg.append(self.sort.as_str());
            msg.append(". Must be one of: size, name, modified");
            return Err(SpacemanError::InvalidSortOrder(msg));
        }
        if !(str_eq(self.order.as_str(), "asc") || str_eq(self.order.as_str(), "desc")) {
            let mut msg = String::new();
            msg.append("Invalid sort direction: ");
            msg.append(self.order.as_str());
            msg.append(". Must be one of: asc, desc");
            return Err(SpacemanError::InvalidSortDirection(msg));
        }
        Ok(())
    }
}

} // verus!
