//! Filesystem utility library with a verified core.
//!
//! The verified core works over in-memory snapshots of directory trees:
//! filtering, wildcard name matching, recursive traversal, aggregation of
//! statistics, and human-readable byte formatting. Reading a snapshot from
//! a live filesystem is left to unverified glue around this crate.

use vstd::prelude::*;

pub mod assoc;
pub mod filter;
pub mod format;
pub mod info;
pub mod pattern;
pub mod query;
pub mod search;
pub mod stats;
pub mod text;
pub mod traverse;

pub use filter::FileFilter;
pub use format::format_bytes;
pub use info::FileInfo;
pub use stats::DirectoryStats;
pub use traverse::Entry;

verus! {

/// The error taxonomy of the library. I/O failures at the boundary are
/// translated into one of these kinds before they reach a caller.
#[derive(Debug, Clone)]
pub enum FileUtilsError {
    /// The target path is absent.
    NotFound(String),
    /// The operating system refused access.
    PermissionDenied(String),
    /// Any other I/O failure.
    IoError(String),
    /// Reserved for input validation of extensions; no operation raises it.
    InvalidExtension(String),
    /// Reserved for input validation of paths; no operation raises it.
    InvalidPath(String),
}

/// Stateless facade owning the snapshot operations of the library.
pub struct FileUtils;

impl FileUtils {
    /// Creates a new instance of the facade.
    pub fn new() -> (r: FileUtils)
        ensures
            r == (FileUtils {}),
    {
        FileUtils {}
    }
}

impl Default for FileUtils {
    fn default() -> (r: FileUtils)
        ensures
            r == (FileUtils {}),
    {
        FileUtils {}
    }
}

} // verus!
