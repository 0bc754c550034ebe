//! Name, extension and size search: thin specializations of the
//! traversal engine.

use vstd::prelude::*;
use crate::FileUtils;
use crate::filter::{FileFilter, FilterV, spec_default_filter};
use crate::info::FileInfo;
use crate::pattern::spec_matches_pattern;
use crate::traverse::{Entry, spec_kind_listing, spec_list_with_filter, traverse_rec};

verus! {

/// The records among `items` whose name matches the wildcard pattern.
pub open spec fn spec_name_filter(items: Seq<FileInfo>, pattern: Seq<char>) -> Seq<FileInfo>
    decreases items.len(),
{
    if items.len() == 0 {
        Seq::empty()
    } else {
        (if spec_matches_pattern(items[0].name@, pattern) {
            seq![items[0]]
        } else {
            Seq::<FileInfo>::empty()
        }) + spec_name_filter(items.drop_first(), pattern)
    }
}

/// The criteria a recursive name search lists with: the default criteria
/// with recursion switched on.
pub open spec fn spec_recursive_default() -> FilterV {
    FilterV { recursive: true, ..spec_default_filter() }
}

/// What a name search returns: the full listing — recursive under the
/// default criteria, or all immediate entries — narrowed to the names the
/// pattern matches.
pub open spec fn spec_find_by_name(entries: Seq<Entry>, pattern: Seq<char>, recursive: bool) -> Seq<
    FileInfo,
> {
    if recursive {
        spec_name_filter(traverse_rec(entries, spec_recursive_default()), pattern)
    } else {
        spec_name_filter(spec_kind_listing(entries, true, true), pattern)
    }
}

/// The criteria an extension search lists with: files only, restricted to
/// the one extension.
pub open spec fn spec_extension_filter(extension: Seq<char>, recursive: bool) -> FilterV {
    FilterV {
        extensions: Some(seq![extension]),
        min_size: None,
        max_size: None,
        include_directories: false,
        include_files: true,
        recursive,
    }
}

/// The criteria a size search lists with: files only, within the given
/// inclusive bounds.
pub open spec fn spec_size_filter(
    min_size: Option<u64>,
    max_size: Option<u64>,
    recursive: bool,
) -> FilterV {
    FilterV {
        extensions: None,
        min_size,
        max_size,
        include_directories: false,
        include_files: true,
        recursive,
    }
}

impl FileUtils {
    /// Searches a snapshot for entries whose name matches the wildcard
    /// pattern, as [`spec_find_by_name`] says: the listing is taken first
    /// — recursive or not — and the pattern applied to each name.
    pub fn find_by_name(&self, entries: Vec<Entry>, pattern: &str, recursive: bool) -> (r: Vec<
        FileInfo,
    >)
        ensures
            r@ == spec_find_by_name(entries@, pattern@, recursive),
    {
        let items: Vec<FileInfo> = if recursive {
            let mut f = FileFilter::default();
            f.recursive = true;
            proof {
                assert(f@ == spec_recursive_default());
            }
            self.list_with_filter(entries, &f)
        } else {
            self.list_all(entries)
        };
        let ghost base = items@;
        let mut work = items;
        let mut out: Vec<FileInfo> = Vec::new();
        while work.len() > 0
            invariant
                out@ + spec_name_filter(work@, pattern@) == spec_name_filter(base, pattern@),
            decreases work@.len(),
        {
            let ghost prev = work@;
            let item = work.remove(0);
            proof {
                assert(prev.remove(0) =~= prev.drop_first());
            }
            if self.matches_pattern(item.name.as_str(), pattern) {
                proof {
                    assert(out@ + spec_name_filter(prev, pattern@) =~= (out@ + seq![item])
                        + spec_name_filter(work@, pattern@));
                }
                out.push(item);
            } else {
                proof {
                    assert(out@ + spec_name_filter(prev, pattern@) =~= out@ + spec_name_filter(
                        work@,
                        pattern@,
                    ));
                }
            }
        }
        proof {
            assert(out@ + spec_name_filter(work@, pattern@) =~= out@);
        }
        out
    }

    /// Searches a snapshot for files carrying the given extension,
    /// compared case-insensitively, listing recursively when asked.
    pub fn find_by_extension(&self, entries: Vec<Entry>, extension: &str, recursive: bool) -> (r:
        Vec<FileInfo>)
        ensures
            r@ == spec_list_with_filter(entries@, spec_extension_filter(extension@, recursive)),
    {
        let mut exts: Vec<String> = Vec::new();
        exts.push(extension.to_owned());
        let filter = FileFilter {
            extensions: Some(exts),
            min_size: None,
            max_size: None,
            include_directories: false,
            include_files: true,
            recursive,
        };
        proof {
            assert(filter@.extensions->0 =~= seq![extension@]);
            assert(filter@ == spec_extension_filter(extension@, recursive));
        }
        self.list_with_filter(entries, &filter)
    }

    /// Searches a snapshot for files within the given inclusive size
    /// bounds, listing recursively when asked.
    pub fn find_by_size(
        &self,
        entries: Vec<Entry>,
        min_size: Option<u64>,
        max_size: Option<u64>,
        recursive: bool,
    ) -> (r: Vec<FileInfo>)
        ensures
            r@ == spec_list_with_filter(entries@, spec_size_filter(min_size, max_size, recursive)),
    {
        let filter = FileFilter {
            extensions: None,
            min_size,
            max_size,
            include_directories: false,
            include_files: true,
            recursive,
        };
        self.list_with_filter(entries, &filter)
    }
}

} // verus!
