//! The traversal engine: walking a snapshot of a directory tree, applying
//! the filter predicate, and collecting matches in pre-order.
//!
//! A listing yields entries in the order the snapshot holds them: an entry
//! stands before its descendants, siblings keep their order. A recursive
//! listing descends into every subdirectory, whether or not the directory
//! itself passed the filter: filtering a directory out of the result never
//! prunes the walk into its contents.

use vstd::prelude::*;
use crate::FileUtils;
use crate::filter::{FileFilter, FilterV, spec_matches_filter};
use crate::info::FileInfo;

verus! {

/// A snapshot of one filesystem entry: its metadata record, and for a
/// directory the snapshots of its immediate children. A snapshot of a
/// whole directory is the vector of its children's entries.
pub struct Entry {
    /// Metadata of the entry itself.
    pub info: FileInfo,
    /// Snapshots of the immediate children; empty for anything that is
    /// not a directory.
    pub children: Vec<Entry>,
}

/// Number of entries in the tree rooted at `e`, the root included.
pub open spec fn tree_size(e: Entry) -> nat
    decreases e,
{
    proof {
        assert(decreases_to!(e => e.children));
        assert(decreases_to!(e.children => e.children@));
        assert(decreases_to!(e => e.children@));
    }
    1 + forest_size(e.children@)
}

/// Number of entries in all the trees of a forest.
pub open spec fn forest_size(entries: Seq<Entry>) -> nat
    decreases entries,
{
    if entries.len() == 0 {
        0
    } else {
        tree_size(entries[0]) + forest_size(entries.drop_first())
    }
}

/// What one entry contributes to a recursive listing: its own record when
/// it passes the filter, followed by the filtered listing of its subtree
/// when it is a directory — whether or not the entry itself passed.
pub open spec fn entry_results(e: Entry, filter: FilterV) -> Seq<FileInfo>
    decreases e,
{
    proof {
        assert(decreases_to!(e => e.children));
        assert(decreases_to!(e.children => e.children@));
        assert(decreases_to!(e => e.children@));
    }
    (if spec_matches_filter(e.info, filter) {
        seq![e.info]
    } else {
        Seq::<FileInfo>::empty()
    }) + (if e.info.is_directory {
        traverse_rec(e.children@, filter)
    } else {
        Seq::<FileInfo>::empty()
    })
}

/// The recursive filtered listing of a forest, in pre-order.
pub open spec fn traverse_rec(entries: Seq<Entry>, filter: FilterV) -> Seq<FileInfo>
    decreases entries,
{
    if entries.len() == 0 {
        Seq::empty()
    } else {
        entry_results(entries[0], filter) + traverse_rec(entries.drop_first(), filter)
    }
}

/// The non-recursive filtered listing of a forest: each entry's record
/// when it passes the filter, in order, without descending anywhere.
pub open spec fn traverse_simple(entries: Seq<Entry>, filter: FilterV) -> Seq<FileInfo>
    decreases entries.len(),
{
    if entries.len() == 0 {
        Seq::empty()
    } else {
        (if spec_matches_filter(entries[0].info, filter) {
            seq![entries[0].info]
        } else {
            Seq::<FileInfo>::empty()
        }) + traverse_simple(entries.drop_first(), filter)
    }
}

/// The filtered listing of a forest: recursive or not, as the criteria
/// ask.
pub open spec fn spec_list_with_filter(entries: Seq<Entry>, filter: FilterV) -> Seq<FileInfo> {
    if filter.recursive {
        traverse_rec(entries, filter)
    } else {
        traverse_simple(entries, filter)
    }
}

/// Whether a listing restricted by kind keeps `info`: files when
/// `want_files`, directories when `want_directories`, and everything —
/// entries of other kinds included — when both are wanted.
pub open spec fn accept_kind(info: FileInfo, want_files: bool, want_directories: bool) -> bool {
    ||| (want_files && info.is_file)
    ||| (want_directories && info.is_directory)
    ||| (want_files && want_directories)
}

/// The non-recursive listing of a forest restricted by entry kind.
pub open spec fn spec_kind_listing(
    entries: Seq<Entry>,
    want_files: bool,
    want_directories: bool,
) -> Seq<FileInfo>
    decreases entries.len(),
{
    if entries.len() == 0 {
        Seq::empty()
    } else {
        (if accept_kind(entries[0].info, want_files, want_directories) {
            seq![entries[0].info]
        } else {
            Seq::<FileInfo>::empty()
        }) + spec_kind_listing(entries.drop_first(), want_files, want_directories)
    }
}

/// A recursive listing distributes over concatenation of forests.
pub proof fn lemma_traverse_rec_concat(a: Seq<Entry>, b: Seq<Entry>, filter: FilterV)
    ensures
        traverse_rec(a + b, filter) == traverse_rec(a, filter) + traverse_rec(b, filter),
    decreases a.len(),
{
    if a.len() == 0 {
        assert(a + b =~= b);
        assert(traverse_rec(a, filter) + traverse_rec(b, filter) =~= traverse_rec(b, filter));
    } else {
        assert((a + b).len() > 0);
        assert((a + b)[0] == a[0]);
        assert((a + b).drop_first() =~= a.drop_first() + b);
        lemma_traverse_rec_concat(a.drop_first(), b, filter);
        assert(traverse_rec(a + b, filter) =~= traverse_rec(a, filter) + traverse_rec(b, filter));
    }
}

/// The size of a forest splits over concatenation.
pub proof fn lemma_forest_size_concat(a: Seq<Entry>, b: Seq<Entry>)
    ensures
        forest_size(a + b) == forest_size(a) + forest_size(b),
    decreases a.len(),
{
    if a.len() == 0 {
        assert(a + b =~= b);
    } else {
        assert((a + b).len() > 0);
        assert((a + b)[0] == a[0]);
        assert((a + b).drop_first() =~= a.drop_first() + b);
        lemma_forest_size_concat(a.drop_first(), b);
    }
}

/// Whatever a non-recursive listing of a forest yields, a recursive
/// listing of the same forest yields too.
pub proof fn lemma_simple_subset_of_rec(entries: Seq<Entry>, filter: FilterV, x: FileInfo)
    requires
        traverse_simple(entries, filter).contains(x),
    ensures
        traverse_rec(entries, filter).contains(x),
    decreases entries.len(),
{
    let own = if spec_matches_filter(entries[0].info, filter) {
        seq![entries[0].info]
    } else {
        Seq::<FileInfo>::empty()
    };
    let i = choose|i: int|
        0 <= i < traverse_simple(entries, filter).len() && traverse_simple(entries, filter)[i] == x;
    if i < own.len() {
        assert(traverse_rec(entries, filter)[i] == x);
    } else {
        assert(traverse_simple(entries.drop_first(), filter)[i - own.len()] == x);
        lemma_simple_subset_of_rec(entries.drop_first(), filter, x);
        let j = choose|j: int|
            0 <= j < traverse_rec(entries.drop_first(), filter).len() && traverse_rec(
                entries.drop_first(),
                filter,
            )[j] == x;
        assert(traverse_rec(entries, filter)[entry_results(entries[0], filter).len() + j] == x);
    }
}

/// The invariant of recursive traversal: every entry that a non-recursive
/// listing of a directory's children yields also stands in the recursive
/// listing of any forest holding that directory — whether or not the
/// directory itself passed the filter, since descent is never pruned.
pub proof fn lemma_recursive_listing_covers_children(
    entries: Seq<Entry>,
    k: int,
    filter: FilterV,
    x: FileInfo,
)
    requires
        0 <= k < entries.len(),
        entries[k].info.is_directory,
        traverse_simple(entries[k].children@, filter).contains(x),
    ensures
        traverse_rec(entries, filter).contains(x),
    decreases k,
{
    if k == 0 {
        lemma_simple_subset_of_rec(entries[0].children@, filter, x);
        let own = if spec_matches_filter(entries[0].info, filter) {
            seq![entries[0].info]
        } else {
            Seq::<FileInfo>::empty()
        };
        let j = choose|j: int|
            0 <= j < traverse_rec(entries[0].children@, filter).len() && traverse_rec(
                entries[0].children@,
                filter,
            )[j] == x;
        assert(entry_results(entries[0], filter)[own.len() + j] == x);
        assert(traverse_rec(entries, filter)[own.len() + j] == x);
    } else {
        assert(entries.drop_first()[k - 1] == entries[k]);
        lemma_recursive_listing_covers_children(entries.drop_first(), k - 1, filter, x);
        let j = choose|j: int|
            0 <= j < traverse_rec(entries.drop_first(), filter).len() && traverse_rec(
                entries.drop_first(),
                filter,
            )[j] == x;
        assert(traverse_rec(entries, filter)[entry_results(entries[0], filter).len() + j] == x);
    }
}

impl FileUtils {
    /// The filtered listing of a snapshot, as [`spec_list_with_filter`]
    /// says: entries passing the criteria, in pre-order, descending into
    /// subdirectories exactly when the criteria are recursive.
    pub fn list_with_filter(&self, entries: Vec<Entry>, filter: &FileFilter) -> (r: Vec<FileInfo>)
        ensures
            r@ == spec_list_with_filter(entries@, filter@),
    {
        if filter.recursive {
            self.list_with_filter_recursive(entries, filter)
        } else {
            self.list_with_filter_simple(entries, filter)
        }
    }

    fn list_with_filter_simple(&self, entries: Vec<Entry>, filter: &FileFilter) -> (r: Vec<FileInfo>)
        ensures
            r@ == traverse_simple(entries@, filter@),
    {
        let ghost orig = entries@;
        let mut work = entries;
        let mut out: Vec<FileInfo> = Vec::new();
        while work.len() > 0
            invariant
                out@ + traverse_simple(work@, filter@) == traverse_simple(orig, filter@),
            decreases work@.len(),
        {
            let ghost prev = work@;
            let e = work.remove(0);
            proof {
                assert(prev.remove(0) =~= prev.drop_first());
            }
            let Entry { info, children: _ } = e;
            if self.matches_filter(&info, filter) {
                proof {
                    assert(out@ + traverse_simple(prev, filter@) =~= (out@ + seq![info])
                        + traverse_simple(work@, filter@));
                }
                out.push(info);
            } else {
                proof {
                    assert(out@ + traverse_simple(prev, filter@) =~= out@ + traverse_simple(
                        work@,
                        filter@,
                    ));
                }
            }
        }
        proof {
            assert(out@ + traverse_simple(work@, filter@) =~= out@);
        }
        out
    }

    /// The files among the immediate entries of a snapshot, in order.
    pub fn list_files(&self, entries: Vec<Entry>) -> (r: Vec<FileInfo>)
        ensures
            r@ == spec_kind_listing(entries@, true, false),
    {
        self.kind_listing(entries, true, false)
    }

    /// The directories among the immediate entries of a snapshot, in
    /// order.
    pub fn list_directories(&self, entries: Vec<Entry>) -> (r: Vec<FileInfo>)
        ensures
            r@ == spec_kind_listing(entries@, false, true),
    {
        self.kind_listing(entries, false, true)
    }

    /// All immediate entries of a snapshot, in order.
    pub fn list_all(&self, entries: Vec<Entry>) -> (r: Vec<FileInfo>)
        ensures
            r@ == spec_kind_listing(entries@, true, true),
    {
        self.kind_listing(entries, true, true)
    }

    fn kind_listing(&self, entries: Vec<Entry>, want_files: bool, want_directories: bool) -> (r:
        Vec<FileInfo>)
        ensures
            r@ == spec_kind_listing(entries@, want_files, want_directories),
    {
        let ghost orig = entries@;
        let mut work = entries;
        let mut out: Vec<FileInfo> = Vec::new();
        while work.len() > 0
            invariant
                out@ + spec_kind_listing(work@, want_files, want_directories) == spec_kind_listing(
                    orig,
                    want_files,
                    want_directories,
                ),
            decreases work@.len(),
        {
            let ghost prev = work@;
            let e = work.remove(0);
            proof {
                assert(prev.remove(0) =~= prev.drop_first());
            }
            let Entry { info, children: _ } = e;
            let keep = if want_files && want_directories {
                true
            } else if want_files {
                info.is_file
            } else if want_directories {
                info.is_directory
            } else {
                false
            };
            if keep {
                proof {
                    assert(out@ + spec_kind_listing(prev, want_files, want_directories) =~= (out@
                        + seq![info]) + spec_kind_listing(work@, want_files, want_directories));
                }
                out.push(info);
            } else {
                proof {
                    assert(out@ + spec_kind_listing(prev, want_files, want_directories) =~= out@
                        + spec_kind_listing(work@, want_files, want_directories));
                }
            }
        }
        proof {
            assert(out@ + spec_kind_listing(work@, want_files, want_directories) =~= out@);
        }
        out
    }

    fn list_with_filter_recursive(&self, entries: Vec<Entry>, filter: &FileFilter) -> (r: Vec<
        FileInfo,
    >)
        ensures
            r@ == traverse_rec(entries@, filter@),
    {
        let ghost orig = entries@;
        let mut work = entries;
        let mut out: Vec<FileInfo> = Vec::new();
        while work.len() > 0
            invariant
                out@ + traverse_rec(work@, filter@) == traverse_rec(orig, filter@),
            decreases forest_size(work@),
        {
            let ghost f = filter@;
            let ghost prev = work@;
            let ghost out_prev = out@;
            let e = work.remove(0);
            let ghost ge = e;
            proof {
                assert(prev.remove(0) =~= prev.drop_first());
                assert(traverse_rec(prev, f) == entry_results(ge, f) + traverse_rec(
                    prev.drop_first(),
                    f,
                ));
            }
            let Entry { info, children } = e;
            let is_dir = info.is_directory;
            let ghost kept = spec_matches_filter(info, f);
            proof {
                assert(ge.info == info && ge.children == children);
                assert(entry_results(ge, f) == (if kept {
                    seq![info]
                } else {
                    Seq::<FileInfo>::empty()
                }) + (if is_dir {
                    traverse_rec(children@, f)
                } else {
                    Seq::<FileInfo>::empty()
                }));
            }
            if self.matches_filter(&info, filter) {
                out.push(info);
            }
            if is_dir {
                let mut rest = work;
                work = children;
                work.append(&mut rest);
                proof {
                    lemma_traverse_rec_concat(ge.children@, prev.drop_first(), f);
                    lemma_forest_size_concat(ge.children@, prev.drop_first());
                    assert(work@ == ge.children@ + prev.drop_first());
                    assert(tree_size(ge) == 1 + forest_size(ge.children@));
                    assert(forest_size(prev) == tree_size(ge) + forest_size(prev.drop_first()));
                    assert(forest_size(work@) < forest_size(prev));
                    assert(out@ + traverse_rec(work@, f) =~= out_prev + traverse_rec(prev, f));
                }
            } else {
                proof {
                    assert(forest_size(prev) == tree_size(ge) + forest_size(prev.drop_first()));
                    assert(tree_size(ge) >= 1);
                    assert(forest_size(work@) < forest_size(prev));
                    assert(out@ + traverse_rec(work@, f) =~= out_prev + traverse_rec(prev, f));
                }
            }
        }
        proof {
            assert(out@ + traverse_rec(work@, filter@) =~= out@);
        }
        out
    }
}

} // verus!
