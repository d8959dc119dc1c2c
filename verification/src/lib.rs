//! Verified core of a disk-usage file explorer.
//!
//! The library holds the traversal-and-aggregation engine (filtering a
//! depth-bounded enumeration of filesystem nodes and computing on-disk
//! sizes), the sort engine, and the navigation state machine. Filesystem
//! reads and terminal rendering live outside the library; they hand it
//! plain node records and take entry lists and locations back.

pub mod args;
pub mod chars;
pub mod entry;
pub mod error;
pub mod nav;
pub mod scanner;
pub mod sort;
pub mod view;
