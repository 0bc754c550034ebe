//! The filter criteria for listings, and the pure predicate that decides
//! whether an entry satisfies them.

use vstd::prelude::*;
use crate::FileUtils;
use crate::info::FileInfo;
use crate::text::{lower_of, to_lowercase, str_eq};

verus! {

/// Criteria narrowing which entries a traversal yields. The default keeps
/// every entry and stays in the root directory.
#[derive(Debug, Clone)]
pub struct FileFilter {
    /// Allowed extensions, compared case-insensitively; `None` places no
    /// restriction. Only files are held to it: directories pass untouched.
    pub extensions: Option<Vec<String>>,
    /// Minimum size in bytes, inclusive.
    pub min_size: Option<u64>,
    /// Maximum size in bytes, inclusive.
    pub max_size: Option<u64>,
    /// Whether directories are kept.
    pub include_directories: bool,
    /// Whether files are kept.
    pub include_files: bool,
    /// Whether a listing descends into subdirectories.
    pub recursive: bool,
}

/// The mathematical value of a [`FileFilter`]: the same criteria with the
/// allowed extensions as character sequences.
pub struct FilterV {
    /// Allowed extensions as character sequences; `None` places no
    /// restriction.
    pub extensions: Option<Seq<Seq<char>>>,
    /// Minimum size in bytes, inclusive.
    pub min_size: Option<u64>,
    /// Maximum size in bytes, inclusive.
    pub max_size: Option<u64>,
    /// Whether directories are kept.
    pub include_directories: bool,
    /// Whether files are kept.
    pub include_files: bool,
    /// Whether a listing descends into subdirectories.
    pub recursive: bool,
}

impl View for FileFilter {
    type V = FilterV;

    open spec fn view(&self) -> FilterV {
        FilterV {
            extensions: match self.extensions {
                Some(v) => Some(v@.map_values(|s: String| s@)),
                None => None,
            },
            min_size: self.min_size,
            max_size: self.max_size,
            include_directories: self.include_directories,
            include_files: self.include_files,
            recursive: self.recursive,
        }
    }
}

/// The criteria that [`FileFilter::default`] yields: both kinds kept, no
/// extension or size restriction, non-recursive.
pub open spec fn spec_default_filter() -> FilterV {
    FilterV {
        extensions: None,
        min_size: None,
        max_size: None,
        include_directories: true,
        include_files: true,
        recursive: false,
    }
}

impl Default for FileFilter {
    fn default() -> (r: FileFilter)
        ensures
            r@ == spec_default_filter(),
    {
        FileFilter {
            extensions: None,
            min_size: None,
            max_size: None,
            include_directories: true,
            include_files: true,
            recursive: false,
        }
    }
}

/// The type clause: a file needs `include_files`, a directory needs
/// `include_directories`.
pub open spec fn clause_type(info: FileInfo, filter: FilterV) -> bool {
    &&& (info.is_file ==> filter.include_files)
    &&& (info.is_directory ==> filter.include_directories)
}

/// The extension clause: when an extension set is given, a file must carry
/// an extension that is a case-insensitive member of it. Directories are
/// never extension-filtered; neither is anything when no set is given.
pub open spec fn clause_extension(info: FileInfo, filter: FilterV) -> bool {
    filter.extensions matches Some(allowed) ==> info.is_file ==> {
        info.extension matches Some(e) && (exists|i: int|
            0 <= i < allowed.len() && lower_of(allowed[i]) == lower_of(e@))
    }
}

/// The minimum-size clause, inclusive: a size equal to the bound passes.
pub open spec fn clause_min_size(info: FileInfo, filter: FilterV) -> bool {
    filter.min_size matches Some(min) ==> info.size >= min
}

/// The maximum-size clause, inclusive: a size equal to the bound passes.
pub open spec fn clause_max_size(info: FileInfo, filter: FilterV) -> bool {
    filter.max_size matches Some(max) ==> info.size <= max
}

/// Whether an entry satisfies the criteria: the conjunction of the type,
/// extension, minimum-size and maximum-size clauses.
pub open spec fn spec_matches_filter(info: FileInfo, filter: FilterV) -> bool {
    &&& clause_type(info, filter)
    &&& clause_extension(info, filter)
    &&& clause_min_size(info, filter)
    &&& clause_max_size(info, filter)
}

/// The filter predicate is a pure conjunction of independent clauses: an
/// entry is kept exactly when every clause accepts it, so toggling a
/// single clause flips inclusion only for entries that clause rejects.
pub proof fn lemma_filter_is_conjunction(info: FileInfo, filter: FilterV)
    ensures
        spec_matches_filter(info, filter) == (clause_type(info, filter) && clause_extension(
            info,
            filter,
        ) && clause_min_size(info, filter) && clause_max_size(info, filter)),
{
}

/// The size bounds are inclusive: an entry whose size stands exactly on
/// the minimum or on the maximum passes that clause.
pub proof fn lemma_size_bounds_inclusive(info: FileInfo, filter: FilterV)
    ensures
        filter.min_size == Some(info.size) ==> clause_min_size(info, filter),
        filter.max_size == Some(info.size) ==> clause_max_size(info, filter),
{
}

impl FileUtils {
    /// Whether `info` satisfies `filter`, as [`spec_matches_filter`] says:
    /// the type, extension and size clauses must all accept it.
    pub fn matches_filter(&self, info: &FileInfo, filter: &FileFilter) -> (r: bool)
        ensures
            r == spec_matches_filter(*info, filter@),
    {
        if info.is_file && !filter.include_files {
            return false;
        }
        if info.is_directory && !filter.include_directories {
            return false;
        }
        if let Some(allowed) = &filter.extensions {
            if info.is_file {
                match &info.extension {
                    Some(ext) => {
                        let ghost aseq = allowed@.map_values(|s: String| s@);
                        proof {
                            assert(filter@.extensions == Some(aseq));
                        }
                        let ext_lower = to_lowercase(ext.as_str());
                        let mut found = false;
                        let mut i: usize = 0;
                        while i < allowed.len()
                            invariant
                                i <= allowed@.len(),
                                aseq == allowed@.map_values(|s: String| s@),
                                ext_lower@ == lower_of(ext@),
                                found == exists|k: int|
                                    0 <= k < i && lower_of(aseq[k]) == lower_of(ext@),
                            decreases allowed@.len() - i,
                        {
                            let a_lower = to_lowercase(allowed[i].as_str());
                            proof {
                                assert(aseq[i as int] == allowed@[i as int]@);
                            }
                            if str_eq(a_lower.as_str(), ext_lower.as_str()) {
                                found = true;
                            }
                            i = i + 1;
                        }
                        if !found {
                            return false;
                        }
                    },
                    None => {
                        return false;
                    },
                }
            }
        }
        if let Some(min) = filter.min_size {
            if info.size < min {
                return false;
            }
        }
        if let Some(max) = filter.max_size {
            if info.size > max {
                return false;
            }
        }
        true
    }
}

} // verus!
