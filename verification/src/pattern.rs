//! Wildcard name matching: `*` matches any run of characters, `?` matches
//! exactly one character, everything else matches itself. Matching is
//! case-insensitive and must consume the entire name against the entire
//! pattern.

use vstd::prelude::*;
use crate::FileUtils;
use crate::text::{lower_of, to_lowercase, str_chars, str_eq};

verus! {

/// Whether `pattern` matches the whole of `text` under classic wildcard
/// semantics: `*` matches zero or more characters, `?` matches exactly
/// one, and any other character matches only itself.
pub open spec fn wild_match(text: Seq<char>, pattern: Seq<char>) -> bool
    decreases pattern.len(), text.len(),
{
    if pattern.len() == 0 {
        text.len() == 0
    } else if pattern[0] == '*' {
        wild_match(text, pattern.drop_first()) || (text.len() > 0 && wild_match(text.drop_first(), pattern))
    } else {
        text.len() > 0 && (pattern[0] == '?' || pattern[0] == text[0]) && wild_match(
            text.drop_first(),
            pattern.drop_first(),
        )
    }
}

/// Whether the pattern holds a wildcard character at all.
pub open spec fn has_wildcard(pattern: Seq<char>) -> bool {
    exists|i: int| 0 <= i < pattern.len() && (pattern[i] == '*' || pattern[i] == '?')
}

/// What a name match means: the pattern `*` accepts every name; a pattern
/// without wildcards is compared for case-insensitive equality; any other
/// pattern is matched with wildcard semantics, case-insensitively.
pub open spec fn spec_matches_pattern(name: Seq<char>, pattern: Seq<char>) -> bool {
    if pattern == seq!['*'] {
        true
    } else if !has_wildcard(pattern) {
        lower_of(name) == lower_of(pattern)
    } else {
        wild_match(lower_of(name), lower_of(pattern))
    }
}

/// Every text matches itself as a pattern: literal positions agree, a `?`
/// consumes the `?` of the text, and a `*` can consume the `*` of the text
/// and then everything the rest of the pattern leaves.
pub proof fn lemma_wild_match_refl(t: Seq<char>)
    ensures
        wild_match(t, t),
    decreases t.len(),
{
    if t.len() > 0 {
        lemma_wild_match_refl(t.drop_first());
        if t[0] == '*' {
            // One unfolding: the leading `*` consumes the first character,
            // a second unfolding lets it consume nothing further.
            assert(wild_match(t.drop_first(), t) == (wild_match(t.drop_first(), t.drop_first())
                || (t.drop_first().len() > 0 && wild_match(t.drop_first().drop_first(), t))));
        }
    }
}

/// The pattern `*` matches every name.
pub proof fn lemma_star_matches_all(name: Seq<char>)
    ensures
        spec_matches_pattern(name, seq!['*']),
{
}

/// Every name matches itself taken as a pattern, case-insensitively: the
/// literal pattern compares equal, and a pattern with wildcards matches
/// its own text.
pub proof fn lemma_matches_pattern_refl(x: Seq<char>)
    ensures
        spec_matches_pattern(x, x),
{
    lemma_wild_match_refl(lower_of(x));
}

impl FileUtils {
    /// Whether `name` matches `pattern` under the rules of
    /// [`spec_matches_pattern`]: `*` accepts everything, a literal pattern
    /// is compared case-insensitively, and wildcard patterns get full
    /// wildcard matching.
    pub fn matches_pattern(&self, name: &str, pattern: &str) -> (r: bool)
        ensures
            r == spec_matches_pattern(name@, pattern@),
    {
        let p_chars = str_chars(pattern);
        if p_chars.len() == 1 && p_chars[0] == '*' {
            proof {
                assert(pattern@ =~= seq!['*']);
            }
            return true;
        }
        proof {
            if pattern@ == seq!['*'] {
                assert(p_chars@.len() == 1 && p_chars@[0] == '*');
            }
        }
        let mut has_wild = false;
        let mut i: usize = 0;
        while i < p_chars.len()
            invariant
                i <= p_chars@.len(),
                p_chars@ == pattern@,
                has_wild == exists|j: int| 0 <= j < i && (pattern@[j] == '*' || pattern@[j] == '?'),
            decreases p_chars@.len() - i,
        {
            if p_chars[i] == '*' || p_chars[i] == '?' {
                has_wild = true;
            }
            i = i + 1;
        }
        if !has_wild {
            let name_lower = to_lowercase(name);
            let pattern_lower = to_lowercase(pattern);
            str_eq(name_lower.as_str(), pattern_lower.as_str())
        } else {
            self.wildcard_match(name, pattern)
        }
    }

    /// Whether `text` matches the wildcard `pattern` case-insensitively:
    /// both are case-folded and then matched in full.
    pub fn wildcard_match(&self, text: &str, pattern: &str) -> (r: bool)
        ensures
            r == wild_match(lower_of(text@), lower_of(pattern@)),
    {
        let text_lower = to_lowercase(text);
        let pattern_lower = to_lowercase(pattern);
        let t = str_chars(text_lower.as_str());
        let p = str_chars(pattern_lower.as_str());
        wildcard_match_chars(&t, &p)
    }
}

/// Whether `pattern` matches the whole of `text`, computed with a dynamic
/// programming table over (text position, pattern position) so that the
/// running time stays polynomial and the stack depth bounded whatever the
/// pattern looks like.
pub fn wildcard_match_chars(text: &Vec<char>, pattern: &Vec<char>) -> (r: bool)
    ensures
        r == wild_match(text@, pattern@),
{
    let n = text.len();
    let m = pattern.len();
    // row[i] holds wild_match(text[i..], pattern[j..]) for the current j;
    // only position n survives an empty pattern.
    let mut row: Vec<bool> = vec![false; n];
    row.push(true);
    proof {
        assert forall|k: int| 0 <= k <= n implies row@[k] == wild_match(
            text@.skip(k),
            pattern@.skip(m as int),
        ) by {
            assert(pattern@.skip(m as int).len() == 0);
            assert(text@.skip(k).len() == n - k);
        }
    }
    let mut j: usize = m;
    while j > 0
        invariant
            j <= m,
            n == text@.len(),
            m == pattern@.len(),
            row@.len() == n + 1,
            forall|k: int| 0 <= k <= n ==> row@[k] == wild_match(text@.skip(k), pattern@.skip(j as int)),
        decreases j,
    {
        j = j - 1;
        let pc = pattern[j];
        let mut new_row: Vec<bool> = vec![false; n];
        // Position n first: only a star row can keep an exhausted text.
        new_row.push(if pc == '*' { row[n] } else { false });
        proof {
            let ps = pattern@.skip(j as int);
            assert(ps[0] == pattern@[j as int]);
            assert(ps.drop_first() =~= pattern@.skip(j + 1));
            assert(text@.skip(n as int).len() == 0);
            assert(new_row@[n as int] == wild_match(text@.skip(n as int), pattern@.skip(j as int)));
        }
        let mut i: usize = n;
        while i > 0
            invariant
                i <= n,
                j < m,
                n == text@.len(),
                m == pattern@.len(),
                pc == pattern@[j as int],
                row@.len() == n + 1,
                new_row@.len() == n + 1,
                forall|k: int| 0 <= k <= n ==> row@[k] == wild_match(text@.skip(k), pattern@.skip(j + 1)),
                forall|k: int| i <= k <= n ==> new_row@[k] == wild_match(text@.skip(k), pattern@.skip(j as int)),
            decreases i,
        {
            i = i - 1;
            let value: bool = if pc == '*' {
                row[i] || new_row[i + 1]
            } else {
                (pc == '?' || pc == text[i]) && row[i + 1]
            };
            new_row.set(i, value);
            proof {
                let ts = text@.skip(i as int);
                let ps = pattern@.skip(j as int);
                assert(ps[0] == pattern@[j as int]);
                assert(ps.drop_first() =~= pattern@.skip(j + 1));
                assert(ts.len() == n - i);
                assert(ts.drop_first() =~= text@.skip(i + 1));
                assert(ts[0] == text@[i as int]);
                assert(new_row@[i as int] == wild_match(text@.skip(i as int), pattern@.skip(j as int)));
            }
        }
        row = new_row;
    }
    proof {
        assert(text@.skip(0) =~= text@);
        assert(pattern@.skip(0) =~= pattern@);
    }
    row[0]
}

} // verus!
