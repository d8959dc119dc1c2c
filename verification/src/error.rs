//! Error taxonomy of the explorer core.
//!
//! Recoverable navigation and configuration failures carry a message
//! string; the callers decide whether the session keeps running.

use vstd::prelude::*;

verus! {

/// One error of the explorer core. I/O and walk failures that reach the
/// library are carried as their rendered messages; the library itself
/// raises the path, sort-order and sort-direction variants.
#[derive(Debug)]
pub enum SpacemanError {
    /// An I/O failure, rendered to text by the caller that saw it.
    Io(String),
    /// A directory-walk failure, rendered to text by the caller that saw it.
    WalkDir(String),
    /// A terminal/UI failure, rendered to text by the caller that saw it.
    Ui(String),
    /// A path that does not exist or cannot be resolved.
    InvalidPath(String),
    /// A sort key outside the accepted set.
    InvalidSortOrder(String),
    /// A sort direction outside the accepted set.
    InvalidSortDirection(String),
    /// Filesystem metadata that could not be read or interpreted.
    MetadataError(String),
}

impl SpacemanError {
    /// The message carried by this error.
    pub fn message(&self) -> (m: &String)
        ensures
            m@ == self.spec_message(),
    {
        match self {
            SpacemanError::Io(s) => s,
            SpacemanError::WalkDir(s) => s,
            SpacemanError::Ui(s) => s,
            SpacemanError::InvalidPath(s) => s,
            SpacemanError::InvalidSortOrder(s) => s,
            SpacemanError::InvalidSortDirection(s) => s,
            SpacemanError::MetadataError(s) => s,
        }
    }

    /// The message carried by this error, as a sequence of characters.
    pub open spec fn spec_message(&self) -> Seq<char> {
        match self {
            SpacemanError::Io(s) => s@,
            SpacemanError::WalkDir(s) => s@,
            SpacemanError::Ui(s) => s@,
            SpacemanError::InvalidPath(s) => s@,
            SpacemanError::InvalidSortOrder(s) => s@,
            SpacemanError::InvalidSortDirection(s) => s@,
            SpacemanError::MetadataError(s) => s@,
        }
    }
}

} // verus!
