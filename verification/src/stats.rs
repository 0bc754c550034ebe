//! The aggregation layer: folding a traversal result into directory
//! statistics, counting, sizing, and grouping.

use vstd::prelude::*;
use crate::FileUtils;
use crate::assoc::{
    assoc_view, assoc_keys_unique, lemma_assoc_absent, lemma_assoc_lookup, lemma_assoc_push,
    lemma_assoc_update,
};
use crate::filter::{FileFilter, FilterV};
use crate::format::{format_bytes, spec_format_bytes};
use crate::info::FileInfo;
use crate::search::spec_recursive_default;
use crate::text::str_eq;
use crate::traverse::{Entry, spec_list_with_filter, traverse_rec};

verus! {

/// Statistics of a directory tree, folded from a recursive listing.
///
/// The per-extension counts hold only files that carry an extension:
/// extensionless files are counted in `file_count` and nowhere else.
#[derive(Debug)]
pub struct DirectoryStats {
    /// Number of files.
    pub file_count: usize,
    /// Number of entries that are not files.
    pub directory_count: usize,
    /// Total size of the files, in bytes.
    pub total_size: u64,
    /// Count of files per extension, keys unique, in first-seen order.
    pub extensions: Vec<(String, usize)>,
    /// Size of the largest file, zero when no file is larger than zero.
    pub largest_file_size: u64,
    /// Name of the largest file; absent until some file exceeds zero.
    pub largest_file_name: Option<String>,
}

impl Default for DirectoryStats {
    fn default() -> (r: DirectoryStats)
        ensures
            r.file_count == 0,
            r.directory_count == 0,
            r.total_size == 0,
            r.extensions@ =~= Seq::<(String, usize)>::empty(),
            r.largest_file_size == 0,
            r.largest_file_name is None,
    {
        DirectoryStats {
            file_count: 0,
            directory_count: 0,
            total_size: 0,
            extensions: Vec::new(),
            largest_file_size: 0,
            largest_file_name: None,
        }
    }
}

impl DirectoryStats {
    /// The total size rendered as a human-readable string.
    pub fn formatted_size(&self) -> (r: String)
        ensures
            r@ == spec_format_bytes(self.total_size as nat),
    {
        format_bytes(self.total_size)
    }

    /// The largest file's size rendered as a human-readable string.
    pub fn formatted_largest_file_size(&self) -> (r: String)
        ensures
            r@ == spec_format_bytes(self.largest_file_size as nat),
    {
        format_bytes(self.largest_file_size)
    }
}

/// The criteria that listings restricted to files use: files only, no
/// other restriction.
pub open spec fn spec_files_filter(recursive: bool) -> FilterV {
    FilterV {
        extensions: None,
        min_size: None,
        max_size: None,
        include_directories: false,
        include_files: true,
        recursive,
    }
}

/// The criteria that listings restricted to directories use.
pub open spec fn spec_directories_filter(recursive: bool) -> FilterV {
    FilterV {
        extensions: None,
        min_size: None,
        max_size: None,
        include_directories: true,
        include_files: false,
        recursive,
    }
}

/// The number of files among the records.
pub open spec fn spec_file_count(items: Seq<FileInfo>) -> nat
    decreases items.len(),
{
    if items.len() == 0 {
        0
    } else {
        spec_file_count(items.drop_last()) + (if items.last().is_file {
            1nat
        } else {
            0nat
        })
    }
}

/// The number of records that are not files.
pub open spec fn spec_directory_count(items: Seq<FileInfo>) -> nat
    decreases items.len(),
{
    if items.len() == 0 {
        0
    } else {
        spec_directory_count(items.drop_last()) + (if items.last().is_file {
            0nat
        } else {
            1nat
        })
    }
}

/// The sum of the sizes of the files among the records.
pub open spec fn spec_total_size(items: Seq<FileInfo>) -> nat
    decreases items.len(),
{
    if items.len() == 0 {
        0
    } else {
        spec_total_size(items.drop_last()) + (if items.last().is_file {
            items.last().size as nat
        } else {
            0nat
        })
    }
}

/// The sum of the sizes of all the records, whatever their kind.
pub open spec fn spec_size_sum(items: Seq<FileInfo>) -> nat
    decreases items.len(),
{
    if items.len() == 0 {
        0
    } else {
        spec_size_sum(items.drop_last()) + items.last().size as nat
    }
}

/// The largest file and its name: a later file takes over only when its
/// size strictly exceeds the best so far, so the first file of the
/// maximal size wins ties, and nothing is named until a file exceeds
/// zero.
pub open spec fn spec_largest(items: Seq<FileInfo>) -> (u64, Option<String>)
    decreases items.len(),
{
    if items.len() == 0 {
        (0u64, None)
    } else {
        let prev = spec_largest(items.drop_last());
        let it = items.last();
        if it.is_file && it.size > prev.0 {
            (it.size, Some(it.name))
        } else {
            prev
        }
    }
}

/// The count of files per extension: only files carrying an extension
/// are counted.
pub open spec fn spec_ext_counts(items: Seq<FileInfo>) -> Map<Seq<char>, nat>
    decreases items.len(),
{
    if items.len() == 0 {
        Map::empty()
    } else {
        let m = spec_ext_counts(items.drop_last());
        let it = items.last();
        if it.is_file && it.extension is Some {
            let k = it.extension->0@;
            m.insert(
                k,
                if m.contains_key(k) {
                    m[k] + 1
                } else {
                    1nat
                },
            )
        } else {
            m
        }
    }
}

/// The file-size sum splits over concatenation.
pub proof fn lemma_total_size_concat(a: Seq<FileInfo>, b: Seq<FileInfo>)
    ensures
        spec_total_size(a + b) == spec_total_size(a) + spec_total_size(b),
    decreases b.len(),
{
    if b.len() == 0 {
        assert(a + b =~= a);
    } else {
        assert((a + b).drop_last() =~= a + b.drop_last());
        assert((a + b).last() == b.last());
        lemma_total_size_concat(a, b.drop_last());
    }
}

/// The plain size sum splits over concatenation.
pub proof fn lemma_size_sum_concat(a: Seq<FileInfo>, b: Seq<FileInfo>)
    ensures
        spec_size_sum(a + b) == spec_size_sum(a) + spec_size_sum(b),
    decreases b.len(),
{
    if b.len() == 0 {
        assert(a + b =~= a);
    } else {
        assert((a + b).drop_last() =~= a + b.drop_last());
        assert((a + b).last() == b.last());
        lemma_size_sum_concat(a, b.drop_last());
    }
}

impl FileUtils {
    /// The total size in bytes of all entries that a recursive files-only
    /// listing of the snapshot yields.
    pub fn directory_size(&self, entries: Vec<Entry>) -> (r: u64)
        requires
            spec_size_sum(spec_list_with_filter(entries@, spec_files_filter(true))) <= u64::MAX,
        ensures
            r == spec_size_sum(spec_list_with_filter(entries@, spec_files_filter(true))),
    {
        let filter = FileFilter {
            extensions: None,
            min_size: None,
            max_size: None,
            include_directories: false,
            include_files: true,
            recursive: true,
        };
        proof {
            assert(filter@ == spec_files_filter(true));
        }
        let files = self.list_with_filter(entries, &filter);
        let ghost items = files@;
        let mut work = files;
        let mut total: u64 = 0;
        while work.len() > 0
            invariant
                total + spec_size_sum(work@) == spec_size_sum(items),
                spec_size_sum(items) <= u64::MAX,
            decreases work@.len(),
        {
            let ghost prev = work@;
            let it = work.remove(0);
            proof {
                assert(prev.remove(0) =~= prev.drop_first());
                assert(seq![it] + work@ =~= prev);
                lemma_size_sum_concat(seq![it], work@);
                assert(seq![it].drop_last() =~= Seq::<FileInfo>::empty());
                assert(spec_size_sum(Seq::<FileInfo>::empty()) == 0);
                assert(spec_size_sum(seq![it]) == it.size);
            }
            total = total + it.size;
        }
        total
    }

    /// The number of entries that a files-only listing of the snapshot
    /// yields, recursive when asked.
    pub fn count_files(&self, entries: Vec<Entry>, recursive: bool) -> (r: usize)
        ensures
            r == spec_list_with_filter(entries@, spec_files_filter(recursive)).len(),
    {
        let filter = FileFilter {
            extensions: None,
            min_size: None,
            max_size: None,
            include_directories: false,
            include_files: true,
            recursive,
        };
        proof {
            assert(filter@ == spec_files_filter(recursive));
        }
        let files = self.list_with_filter(entries, &filter);
        files.len()
    }

    /// The number of entries that a directories-only listing of the
    /// snapshot yields, recursive when asked.
    pub fn count_directories(&self, entries: Vec<Entry>, recursive: bool) -> (r: usize)
        ensures
            r == spec_list_with_filter(entries@, spec_directories_filter(recursive)).len(),
    {
        let filter = FileFilter {
            extensions: None,
            min_size: None,
            max_size: None,
            include_directories: true,
            include_files: false,
            recursive,
        };
        proof {
            assert(filter@ == spec_directories_filter(recursive));
        }
        let directories = self.list_with_filter(entries, &filter);
        directories.len()
    }

    /// Folds the recursive listing of the snapshot, under the default
    /// criteria, into directory statistics: file and non-file counts, the
    /// total and largest file sizes, the largest file's name, and the
    /// per-extension file counts.
    pub fn directory_stats(&self, entries: Vec<Entry>) -> (r: DirectoryStats)
        requires
            spec_total_size(traverse_rec(entries@, spec_recursive_default())) <= u64::MAX,
        ensures
            ({
                let items = traverse_rec(entries@, spec_recursive_default());
                &&& r.file_count == spec_file_count(items)
                &&& r.directory_count == spec_directory_count(items)
                &&& r.total_size == spec_total_size(items)
                &&& r.largest_file_size == spec_largest(items).0
                &&& r.largest_file_name == spec_largest(items).1
                &&& assoc_keys_unique(r.extensions@)
                &&& assoc_view(r.extensions@).map_values(|v: usize| v as nat) == spec_ext_counts(
                    items,
                )
            }),
    {
        let mut f = FileFilter::default();
        f.recursive = true;
        proof {
            assert(f@ == spec_recursive_default());
        }
        let all = self.list_with_filter(entries, &f);
        let ghost items = all@;
        let total_len = all.len();
        let mut work = all;
        let ghost mut done: Seq<FileInfo> = Seq::empty();
        let mut file_count: usize = 0;
        let mut directory_count: usize = 0;
        let mut total_size: u64 = 0;
        let mut extensions: Vec<(String, usize)> = Vec::new();
        let mut largest_file_size: u64 = 0;
        let mut largest_file_name: Option<String> = None;
        proof {
            assert(done + work@ =~= items);
            assert(assoc_view(extensions@).map_values(|v: usize| v as nat) =~= spec_ext_counts(
                done,
            ));
        }
        while work.len() > 0
            invariant
                done + work@ == items,
                done.len() + work@.len() == total_len,
                total_len == items.len(),
                spec_total_size(items) <= u64::MAX,
                file_count == spec_file_count(done),
                directory_count == spec_directory_count(done),
                file_count <= done.len(),
                directory_count <= done.len(),
                total_size == spec_total_size(done),
                largest_file_size == spec_largest(done).0,
                largest_file_name == spec_largest(done).1,
                assoc_keys_unique(extensions@),
                assoc_view(extensions@).map_values(|v: usize| v as nat) == spec_ext_counts(done),
                forall|i: int|
                    0 <= i < extensions@.len() ==> (#[trigger] extensions@[i]).1 <= file_count,
            decreases work@.len(),
        {
            let ghost prev_work = work@;
            let ghost done_prev = done;
            let it = work.remove(0);
            let ghost git = it;
            proof {
                assert(prev_work.remove(0) =~= prev_work.drop_first());
                done = done.push(git);
                assert(done.drop_last() =~= done_prev);
                assert(done + work@ =~= items);
                lemma_total_size_concat(done, work@);
                assert(spec_total_size(done) <= spec_total_size(items));
            }
            let FileInfo { path: _, name, extension, size, is_directory: _, is_file, modified: _ } =
                it;
            if is_file {
                file_count = file_count + 1;
                total_size = total_size + size;
                if let Some(ext) = extension {
                    let ext_count = extensions.len();
                    let mut pos: usize = ext_count;
                    let mut i2: usize = 0;
                    while i2 < ext_count
                        invariant
                            ext_count == extensions@.len(),
                            i2 <= ext_count,
                            ext@ == git.extension->0@,
                            pos == ext_count || (pos < i2 && extensions@[pos as int].0@ == ext@),
                            pos == ext_count ==> forall|k: int|
                                0 <= k < i2 ==> (#[trigger] extensions@[k]).0@ != ext@,
                        decreases ext_count - i2,
                    {
                        if pos == ext_count && str_eq(extensions[i2].0.as_str(), ext.as_str()) {
                            pos = i2;
                        }
                        i2 = i2 + 1;
                    }
                    if pos < ext_count {
                        proof {
                            lemma_assoc_lookup(extensions@, pos as int);
                        }
                        let cur: usize = extensions[pos].1;
                        let key = extensions[pos].0.clone();
                        let ghost before = extensions@;
                        let ghost m_prev = spec_ext_counts(done.drop_last());
                        proof {
                            assert(assoc_view(before).contains_key(ext@) && assoc_view(
                                before,
                            )[ext@] == cur);
                            assert(m_prev.contains_key(ext@) && m_prev[ext@] == cur as nat);
                            assert(spec_ext_counts(done) == m_prev.insert(ext@, m_prev[ext@] + 1));
                        }
                        extensions.set(pos, (key, cur + 1));
                        proof {
                            lemma_assoc_update(
                                before,
                                pos as int,
                                (extensions@[pos as int].0, (cur + 1) as usize),
                            );
                            assert(assoc_view(extensions@) == assoc_view(before).insert(
                                ext@,
                                (cur + 1) as usize,
                            ));
                            assert(assoc_view(extensions@).map_values(|v: usize| v as nat)
                                =~= spec_ext_counts(done));
                        }
                    } else {
                        let ghost before = extensions@;
                        let ghost m_prev = spec_ext_counts(done.drop_last());
                        proof {
                            lemma_assoc_absent(before, ext@);
                            assert(!m_prev.contains_key(ext@));
                            assert(spec_ext_counts(done) == m_prev.insert(ext@, 1nat));
                            lemma_assoc_push(before, (ext, 1));
                        }
                        extensions.push((ext, 1));
                        proof {
                            assert(assoc_view(extensions@) == assoc_view(before).insert(
                                ext@,
                                1usize,
                            ));
                            assert(assoc_view(extensions@).map_values(|v: usize| v as nat)
                                =~= spec_ext_counts(done));
                        }
                    }
                } else {
                    proof {
                        assert(assoc_view(extensions@).map_values(|v: usize| v as nat)
                            =~= spec_ext_counts(done));
                    }
                }
                if size > largest_file_size {
                    largest_file_size = size;
                    largest_file_name = Some(name);
                }
            } else {
                directory_count = directory_count + 1;
                proof {
                    assert(assoc_view(extensions@).map_values(|v: usize| v as nat)
                        =~= spec_ext_counts(done));
                }
            }
        }
        proof {
            assert(done =~= items);
            assert(assoc_view(extensions@).map_values(|v: usize| v as nat) =~= spec_ext_counts(
                items,
            ));
        }
        DirectoryStats {
            file_count,
            directory_count,
            total_size,
            extensions,
            largest_file_size,
            largest_file_name,
        }
    }
}

/// The name-keyed map of a listing: a later record with the same name
/// replaces an earlier one.
pub open spec fn spec_files_map(files: Seq<FileInfo>) -> Map<Seq<char>, FileInfo>
    decreases files.len(),
{
    if files.len() == 0 {
        Map::empty()
    } else {
        spec_files_map(files.drop_last()).insert(files.last().name@, files.last())
    }
}

/// The grouping key of a record: its extension, or the sentinel for
/// records without one.
pub open spec fn spec_group_key(f: FileInfo) -> Seq<char> {
    match f.extension {
        Some(e) => e@,
        None => "sem_extensao"@,
    }
}

/// The files grouped by extension: each key maps to its files in input
/// order, extensionless files under the sentinel key. Records that are
/// not files are left out of the grouping.
pub open spec fn spec_groups(files: Seq<FileInfo>) -> Map<Seq<char>, Seq<FileInfo>>
    decreases files.len(),
{
    if files.len() == 0 {
        Map::empty()
    } else {
        let m = spec_groups(files.drop_last());
        let f = files.last();
        let k = spec_group_key(f);
        if f.is_file {
            m.insert(
                k,
                (if m.contains_key(k) {
                    m[k]
                } else {
                    Seq::empty()
                }).push(f),
            )
        } else {
            m
        }
    }
}

impl FileUtils {
    /// Turns a listing into an association list keyed by name for quick
    /// lookup, as [`spec_files_map`] says: keys unique, a later record
    /// replacing an earlier one of the same name.
    pub fn files_to_hashmap(&self, files: Vec<FileInfo>) -> (r: Vec<(String, FileInfo)>)
        ensures
            assoc_keys_unique(r@),
            assoc_view(r@) == spec_files_map(files@),
    {
        let ghost items = files@;
        let ghost mut done: Seq<FileInfo> = Seq::empty();
        let mut work = files;
        let mut out: Vec<(String, FileInfo)> = Vec::new();
        proof {
            assert(done + work@ =~= items);
            assert(assoc_view(out@) =~= spec_files_map(done));
        }
        while work.len() > 0
            invariant
                done + work@ == items,
                assoc_keys_unique(out@),
                assoc_view(out@) == spec_files_map(done),
            decreases work@.len(),
        {
            let ghost prev_work = work@;
            let ghost done_prev = done;
            let it = work.remove(0);
            let ghost git = it;
            proof {
                assert(prev_work.remove(0) =~= prev_work.drop_first());
                done = done.push(git);
                assert(done.drop_last() =~= done_prev);
                assert(done + work@ =~= items);
            }
            let key = it.name.clone();
            let len0 = out.len();
            let mut pos: usize = len0;
            let mut i: usize = 0;
            while i < len0
                invariant
                    len0 == out@.len(),
                    i <= len0,
                    key@ == git.name@,
                    pos == len0 || (pos < i && out@[pos as int].0@ == key@),
                    pos == len0 ==> forall|k: int| 0 <= k < i ==> (#[trigger] out@[k]).0@ != key@,
                decreases len0 - i,
            {
                if pos == len0 && str_eq(out[i].0.as_str(), key.as_str()) {
                    pos = i;
                }
                i = i + 1;
            }
            if pos < len0 {
                let ghost before = out@;
                out.set(pos, (key, it));
                proof {
                    lemma_assoc_update(before, pos as int, out@[pos as int]);
                    assert(assoc_view(out@) =~= spec_files_map(done));
                }
            } else {
                let ghost before = out@;
                proof {
                    lemma_assoc_push(before, (key, git));
                }
                out.push((key, it));
                proof {
                    assert(assoc_view(out@) =~= spec_files_map(done));
                }
            }
        }
        proof {
            assert(done =~= items);
        }
        out
    }

    /// Groups the files of a listing by extension, as [`spec_groups`]
    /// says: each key holds its files in input order, files without an
    /// extension gather under the sentinel key `sem_extensao`, and
    /// records that are not files are left out.
    pub fn group_by_extension(&self, files: Vec<FileInfo>) -> (r: Vec<(String, Vec<FileInfo>)>)
        ensures
            assoc_keys_unique(r@),
            assoc_view(r@).map_values(|v: Vec<FileInfo>| v@) == spec_groups(files@),
    {
        let ghost items = files@;
        let ghost mut done: Seq<FileInfo> = Seq::empty();
        let mut work = files;
        let mut out: Vec<(String, Vec<FileInfo>)> = Vec::new();
        proof {
            assert(done + work@ =~= items);
            assert(assoc_view(out@).map_values(|v: Vec<FileInfo>| v@) =~= spec_groups(done));
        }
        while work.len() > 0
            invariant
                done + work@ == items,
                assoc_keys_unique(out@),
                assoc_view(out@).map_values(|v: Vec<FileInfo>| v@) == spec_groups(done),
            decreases work@.len(),
        {
            let ghost prev_work = work@;
            let ghost done_prev = done;
            let it = work.remove(0);
            let ghost git = it;
            proof {
                assert(prev_work.remove(0) =~= prev_work.drop_first());
                done = done.push(git);
                assert(done.drop_last() =~= done_prev);
                assert(done + work@ =~= items);
            }
            if !it.is_file {
                proof {
                    assert(assoc_view(out@).map_values(|v: Vec<FileInfo>| v@) =~= spec_groups(
                        done,
                    ));
                }
                continue;
            }
            let key: String = match &it.extension {
                Some(e) => e.clone(),
                None => String::from_str("sem_extensao"),
            };
            proof {
                assert(key@ == spec_group_key(git));
            }
            let len0 = out.len();
            let mut pos: usize = len0;
            let mut i: usize = 0;
            while i < len0
                invariant
                    len0 == out@.len(),
                    i <= len0,
                    key@ == spec_group_key(git),
                    pos == len0 || (pos < i && out@[pos as int].0@ == key@),
                    pos == len0 ==> forall|k: int| 0 <= k < i ==> (#[trigger] out@[k]).0@ != key@,
                decreases len0 - i,
            {
                if pos == len0 && str_eq(out[i].0.as_str(), key.as_str()) {
                    pos = i;
                }
                i = i + 1;
            }
            if pos < len0 {
                let ghost before = out@;
                let ghost m_prev = spec_groups(done.drop_last());
                proof {
                    lemma_assoc_lookup(before, pos as int);
                    assert(m_prev.contains_key(key@) && m_prev[key@] == before[pos as int].1@);
                }
                let pair = out.remove(pos);
                let (k2, mut group) = pair;
                group.push(it);
                out.insert(pos, (k2, group));
                proof {
                    assert(out@ =~= before.update(pos as int, out@[pos as int]));
                    lemma_assoc_update(before, pos as int, out@[pos as int]);
                    assert(assoc_view(out@).map_values(|v: Vec<FileInfo>| v@) =~= spec_groups(
                        done,
                    ));
                }
            } else {
                let ghost before = out@;
                let ghost m_prev = spec_groups(done.drop_last());
                let mut group: Vec<FileInfo> = Vec::new();
                group.push(it);
                proof {
                    lemma_assoc_absent(before, key@);
                    assert(!m_prev.contains_key(key@));
                    assert(group@ =~= Seq::<FileInfo>::empty().push(git));
                    lemma_assoc_push(before, (key, group));
                }
                out.push((key, group));
                proof {
                    assert(assoc_view(out@).map_values(|v: Vec<FileInfo>| v@) =~= spec_groups(
                        done,
                    ));
                }
            }
        }
        proof {
            assert(done =~= items);
        }
        out
    }
}

} // verus!
