//! Existence checks over a snapshot: whether a path is present as a
//! file, as a directory, or at all.

use vstd::prelude::*;
use crate::FileUtils;
use crate::text::str_eq;
use crate::traverse::{Entry, accept_kind};

verus! {

/// Whether the tree rooted at `e` holds an entry with the given path of
/// an accepted kind, at any depth.
pub open spec fn tree_has(e: Entry, path: Seq<char>, want_file: bool, want_directory: bool) -> bool
    decreases e,
{
    proof {
        assert(decreases_to!(e => e.children));
        assert(decreases_to!(e.children => e.children@));
        assert forall|i: int| 0 <= i < e.children@.len() implies decreases_to!(
            e => e.children@[i],
        ) by {
            assert(decreases_to!(e.children@ => e.children@[i]));
        }
    }
    ||| (e.info.path@ == path && accept_kind(e.info, want_file, want_directory))
    ||| exists|i: int|
        0 <= i < e.children@.len() && tree_has(
            #[trigger] e.children@[i],
            path,
            want_file,
            want_directory,
        )
}

/// Whether any tree of the forest holds such an entry.
pub open spec fn forest_has(
    entries: Seq<Entry>,
    path: Seq<char>,
    want_file: bool,
    want_directory: bool,
) -> bool {
    exists|i: int|
        0 <= i < entries.len() && tree_has(#[trigger] entries[i], path, want_file, want_directory)
}

/// Searches the tree rooted at `e` for an entry with the given path of an
/// accepted kind.
fn tree_lookup(e: &Entry, path: &str, want_file: bool, want_directory: bool) -> (r: bool)
    ensures
        r == tree_has(*e, path@, want_file, want_directory),
    decreases *e,
{
    let self_kind: bool = if want_file && want_directory {
        true
    } else if want_file {
        e.info.is_file
    } else if want_directory {
        e.info.is_directory
    } else {
        false
    };
    if self_kind && str_eq(e.info.path.as_str(), path) {
        return true;
    }
    let mut i: usize = 0;
    while i < e.children.len()
        invariant
            i <= e.children@.len(),
            !(e.info.path@ == path@ && accept_kind(e.info, want_file, want_directory)),
            forall|k: int|
                0 <= k < i ==> !tree_has(#[trigger] e.children@[k], path@, want_file, want_directory),
        decreases e.children@.len() - i,
    {
        proof {
            assert(decreases_to!(*e => e.children));
            assert(decreases_to!(e.children => e.children@));
            assert(decreases_to!(e.children@ => e.children@[i as int]));
            assert(decreases_to!(*e => e.children@[i as int]));
        }
        if tree_lookup(&e.children[i], path, want_file, want_directory) {
            return true;
        }
        i = i + 1;
    }
    false
}

impl FileUtils {
    /// Whether the snapshot holds a file with exactly this path, at any
    /// depth.
    pub fn file_exists(&self, entries: &Vec<Entry>, path: &str) -> (r: bool)
        ensures
            r == forest_has(entries@, path@, true, false),
    {
        self.lookup(entries, path, true, false)
    }

    /// Whether the snapshot holds a directory with exactly this path, at
    /// any depth.
    pub fn directory_exists(&self, entries: &Vec<Entry>, path: &str) -> (r: bool)
        ensures
            r == forest_has(entries@, path@, false, true),
    {
        self.lookup(entries, path, false, true)
    }

    /// Whether the snapshot holds any entry with exactly this path, at
    /// any depth, of whatever kind.
    pub fn path_exists(&self, entries: &Vec<Entry>, path: &str) -> (r: bool)
        ensures
            r == forest_has(entries@, path@, true, true),
    {
        self.lookup(entries, path, true, true)
    }

    fn lookup(&self, entries: &Vec<Entry>, path: &str, want_file: bool, want_directory: bool) -> (r:
        bool)
        ensures
            r == forest_has(entries@, path@, want_file, want_directory),
    {
        let mut i: usize = 0;
        while i < entries.len()
            invariant
                i <= entries@.len(),
                forall|k: int|
                    0 <= k < i ==> !tree_has(#[trigger] entries@[k], path@, want_file, want_directory),
            decreases entries@.len() - i,
        {
            if tree_lookup(&entries[i], path, want_file, want_directory) {
                return true;
            }
            i = i + 1;
        }
        false
    }
}

} // verus!
