//! The metadata record of a single filesystem entry, and the pure parsing
//! that derives its name and extension from a path.

use vstd::prelude::*;
use crate::FileUtils;
use crate::text::{lower_of, to_lowercase, str_chars, str_eq};

verus! {

/// Detailed information about a single filesystem entry.
///
/// An entry produced from a successful stat has exactly one of
/// `is_directory` / `is_file` set; the record itself places no such
/// restriction, so that callers can also describe other entry kinds.
#[derive(Debug, Clone)]
pub struct FileInfo {
    /// Full path of the entry, with `/` separating components.
    pub path: String,
    /// Final path component.
    pub name: String,
    /// Extension of the name, lowercased, without the leading dot;
    /// absent when the name holds no dot past its first character.
    pub extension: Option<String>,
    /// Size in bytes.
    pub size: u64,
    /// Whether the entry is a directory.
    pub is_directory: bool,
    /// Whether the entry is a regular file.
    pub is_file: bool,
    /// Last modification as seconds since the Unix epoch, when known.
    pub modified: Option<u64>,
}

/// The index of the last occurrence of `c` in `s`, or `-1` when `c` does
/// not occur.
pub open spec fn spec_last_index_of(s: Seq<char>, c: char) -> int
    decreases s.len(),
{
    if s.len() == 0 {
        -1
    } else if s.last() == c {
        s.len() - 1
    } else {
        spec_last_index_of(s.drop_last(), c)
    }
}

/// The final component of a path: everything after the last `/`.
pub open spec fn spec_name_of(path: Seq<char>) -> Seq<char> {
    path.subrange(spec_last_index_of(path, '/') + 1, path.len() as int)
}

/// The extension of a name: everything after the last dot, provided that
/// dot stands past the first character. Names without a dot, and names
/// whose only dot leads them (hidden files), have none.
pub open spec fn spec_extension_of(name: Seq<char>) -> Option<Seq<char>> {
    let d = spec_last_index_of(name, '.');
    if d > 0 {
        Some(name.subrange(d + 1, name.len() as int))
    } else {
        None
    }
}

proof fn lemma_last_index_of_bounds(s: Seq<char>, c: char)
    ensures
        -1 <= spec_last_index_of(s, c) < s.len(),
        spec_last_index_of(s, c) >= 0 ==> s[spec_last_index_of(s, c)] == c,
        forall|j: int| spec_last_index_of(s, c) < j < s.len() ==> s[j] != c,
    decreases s.len(),
{
    if s.len() > 0 && s.last() != c {
        lemma_last_index_of_bounds(s.drop_last(), c);
        assert forall|j: int| spec_last_index_of(s, c) < j < s.len() implies s[j] != c by {
            if j < s.len() - 1 {
                assert(s.drop_last()[j] == s[j]);
            }
        }
    }
}

/// Finds the index of the last occurrence of `c` in the characters `s`.
pub(crate) fn last_index_of(s: &Vec<char>, c: char) -> (r: Option<usize>)
    ensures
        r matches Some(i) ==> i == spec_last_index_of(s@, c),
        r is None <==> spec_last_index_of(s@, c) == -1,
{
    let mut i: usize = s.len();
    proof {
        assert(s@.take(s@.len() as int) =~= s@);
    }
    while i > 0
        invariant
            i <= s@.len(),
            spec_last_index_of(s@, c) == spec_last_index_of(s@.take(i as int), c),
        decreases i,
    {
        i = i - 1;
        if s[i] == c {
            proof {
                assert(s@.take(i + 1).last() == s@[i as int]);
            }
            return Some(i);
        }
        proof {
            assert(s@.take(i + 1).drop_last() =~= s@.take(i as int));
            assert(s@.take(i + 1).last() == s@[i as int]);
        }
    }
    proof {
        assert(s@.take(0) =~= Seq::<char>::empty());
    }
    None
}

impl FileInfo {
    /// Builds the record for an entry from its path and stat data. The
    /// name is the final path component; the extension is parsed from the
    /// path and lowercased.
    pub fn new(path: String, size: u64, is_directory: bool, is_file: bool, modified: Option<u64>) -> (r: FileInfo)
        ensures
            r.path == path,
            r.name@ == spec_name_of(path@),
            r.extension matches Some(e) ==> spec_extension_of(spec_name_of(path@)) matches Some(raw) && e@ == lower_of(raw),
            r.extension is None <==> spec_extension_of(spec_name_of(path@)) is None,
            r.size == size,
            r.is_directory == is_directory,
            r.is_file == is_file,
            r.modified == modified,
    {
        let chars = str_chars(path.as_str());
        let n = chars.len();
        let sep = last_index_of(&chars, '/');
        proof {
            lemma_last_index_of_bounds(path@, '/');
        }
        let start: usize = match sep {
            Some(i) => i + 1,
            None => 0,
        };
        let name_str = path.as_str().substring_char(start, n);
        let name = name_str.to_owned();
        let name_chars = str_chars(name_str);
        let name_len = name_chars.len();
        let dot = last_index_of(&name_chars, '.');
        proof {
            lemma_last_index_of_bounds(name_str@, '.');
        }
        let extension: Option<String> = match dot {
            Some(d) => if d > 0 {
                let raw = name_str.substring_char(d + 1, name_len);
                Some(to_lowercase(raw))
            } else {
                None
            },
            None => None,
        };
        FileInfo { path, name, extension, size, is_directory, is_file, modified }
    }
}

impl FileUtils {
    /// Whether the final component of `path` carries exactly the given
    /// extension, compared case-insensitively. A path without an
    /// extension matches nothing.
    pub fn has_extension(&self, path: &str, extension: &str) -> (r: bool)
        ensures
            r == match spec_extension_of(spec_name_of(path@)) {
                Some(e) => lower_of(e) == lower_of(extension@),
                None => false,
            },
    {
        let chars = str_chars(path);
        let n = chars.len();
        let sep = last_index_of(&chars, '/');
        proof {
            lemma_last_index_of_bounds(path@, '/');
        }
        let start: usize = match sep {
            Some(i) => i + 1,
            None => 0,
        };
        let name_str = path.substring_char(start, n);
        let name_chars = str_chars(name_str);
        let name_len = name_chars.len();
        let dot = last_index_of(&name_chars, '.');
        proof {
            lemma_last_index_of_bounds(name_str@, '.');
        }
        match dot {
            Some(d) => if d > 0 {
                let raw = name_str.substring_char(d + 1, name_len);
                let raw_lower = to_lowercase(raw);
                let ext_lower = to_lowercase(extension);
                str_eq(raw_lower.as_str(), ext_lower.as_str())
            } else {
                false
            },
            None => false,
        }
    }
}

} // verus!
