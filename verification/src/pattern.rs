//! Regular-expression matching through the `regex` crate, and the
//! byte-to-character bookkeeping that turns its byte spans into character
//! ranges.
//!
//! A match is reported as the spans of its capture groups: entry `g` is the
//! byte range `(start, end)` of group `g` in the haystack, `None` where the
//! group took no part; entry 0 is the whole match.

use vstd::prelude::*;
use crate::text::utf8_len;

verus! {

/// What `Regex::new(pattern)` followed by `captures(haystack)` yields: the
/// group spans of the leftmost-first match, `None` when nothing matches or
/// the pattern does not compile. Regex semantics are not restated here.
pub uninterp spec fn regex_first_captures(pattern: Seq<char>, haystack: Seq<char>) -> Option<
    Seq<Option<(usize, usize)>>,
>;

/// What `Regex::new(pattern)` followed by `captures_iter(haystack)` yields:
/// the group spans of each successive non-overlapping match, none when the
/// pattern does not compile.
pub uninterp spec fn regex_all_captures(pattern: Seq<char>, haystack: Seq<char>) -> Seq<
    Seq<Option<(usize, usize)>>,
>;

/// What `Regex::new(pattern)` followed by `replace_all(haystack,
/// replacement)` yields: every non-overlapping match replaced (with `$`
/// group references in the replacement expanded); the haystack itself when
/// the pattern does not compile.
pub uninterp spec fn regex_replace_all(
    pattern: Seq<char>,
    haystack: Seq<char>,
    replacement: Seq<char>,
) -> Seq<char>;

/// Calls `regex::Regex::new` and `Regex::captures`. Claimed: the result is
/// `regex_first_captures` of the pattern and haystack, spans taken from
/// `Match::start` and `Match::end`; a pattern that does not compile gives
/// `None`. Nothing is stated of what the regex matches.
#[verifier::external_body]
pub(crate) fn first_captures(pattern: &str, haystack: &str) -> (r: Option<Vec<Option<(usize, usize)>>>)
    ensures
        r.deep_view() == regex_first_captures(pattern@, haystack@),
{
    match regex::Regex::new(pattern) {
        Ok(re) => re.captures(haystack).map(
            |c| c.iter().map(|g| g.map(|m| (m.start(), m.end()))).collect(),
        ),
        Err(_) => None,
    }
}

/// Calls `regex::Regex::new` and `Regex::captures_iter`. Claimed: the
/// result is `regex_all_captures` of the pattern and haystack, one entry per
/// match in order; a pattern that does not compile gives no entries.
#[verifier::external_body]
pub(crate) fn all_captures(pattern: &str, haystack: &str) -> (r: Vec<Vec<Option<(usize, usize)>>>)
    ensures
        r.deep_view() == regex_all_captures(pattern@, haystack@),
{
    match regex::Regex::new(pattern) {
        Ok(re) => re.captures_iter(haystack).map(
            |c| c.iter().map(|g| g.map(|m| (m.start(), m.end()))).collect(),
        ).collect(),
        Err(_) => Vec::new(),
    }
}

/// Calls `regex::Regex::new` and `Regex::replace_all`. Claimed: the result
/// is `regex_replace_all` of the three arguments; a pattern that does not
/// compile leaves the haystack as it is.
#[verifier::external_body]
pub(crate) fn replace_all(pattern: &str, haystack: &str, replacement: &str) -> (r: String)
    ensures
        r@ == regex_replace_all(pattern@, haystack@, replacement@),
{
    match regex::Regex::new(pattern) {
        Ok(re) => re.replace_all(haystack, replacement).into_owned(),
        Err(_) => haystack.to_string(),
    }
}

// ---------------------------------------------------------------------
// byte offsets and character indices
// ---------------------------------------------------------------------

/// The character index `k` at which the UTF-8 encoding of `s.take(k)` is
/// exactly `b` bytes long, scanning from index `k` whose prefix is `acc`
/// bytes long; `None` when `b` falls inside a character or past the end.
pub open spec fn index_from(s: Seq<char>, k: int, acc: int, b: int) -> Option<int>
    decreases s.len() - k,
{
    if acc == b {
        Some(k)
    } else if acc > b || k < 0 || k >= s.len() {
        None
    } else {
        index_from(s, k + 1, acc + utf8_len(s[k]), b)
    }
}

/// The character index of byte offset `b` of `s`.
pub open spec fn index_at_byte(s: Seq<char>, b: int) -> Option<int> {
    index_from(s, 0, 0, b)
}

pub proof fn lemma_index_from_bounds(s: Seq<char>, k: int, acc: int, b: int)
    requires
        0 <= k <= s.len(),
    ensures
        index_from(s, k, acc, b) matches Some(i) ==> k <= i <= s.len(),
    decreases s.len() - k,
{
    if acc != b && !(acc > b || k >= s.len()) {
        lemma_index_from_bounds(s, k + 1, acc + utf8_len(s[k]), b);
    }
}

/// The character range of group `g` of match `m` in `s`.
pub open spec fn group_range(s: Seq<char>, m: Seq<Option<(usize, usize)>>, g: int) -> Option<
    (int, int),
> {
    if 0 <= g < m.len() && m[g] is Some {
        let (a, b) = m[g]->0;
        match (index_at_byte(s, a as int), index_at_byte(s, b as int)) {
            (Some(i), Some(j)) => if i <= j {
                Some((i, j))
            } else {
                None
            },
            _ => None,
        }
    } else {
        None
    }
}

/// The text of group `g` of match `m` in `s`.
pub open spec fn group_text(s: Seq<char>, m: Seq<Option<(usize, usize)>>, g: int) -> Option<
    Seq<char>,
> {
    match group_range(s, m, g) {
        Some((i, j)) => Some(s.subrange(i, j)),
        None => None,
    }
}

pub proof fn lemma_group_range_bounds(s: Seq<char>, m: Seq<Option<(usize, usize)>>, g: int)
    ensures
        group_range(s, m, g) matches Some((i, j)) ==> 0 <= i <= j <= s.len(),
{
    if 0 <= g < m.len() && m[g] is Some {
        let (a, b) = m[g]->0;
        lemma_index_from_bounds(s, 0, 0, a as int);
        lemma_index_from_bounds(s, 0, 0, b as int);
    }
}

/// The character index of byte offset `b` of `s`.
pub fn index_of_byte(s: &Vec<char>, b: usize) -> (r: Option<usize>)
    ensures
        r matches Some(i) ==> index_at_byte(s@, b as int) == Some(i as int),
        r is None ==> index_at_byte(s@, b as int) is None,
{
    let mut k: usize = 0;
    let mut acc: usize = 0;
    while k < s.len()
        invariant
            k <= s.len(),
            acc <= b,
            index_from(s@, k as int, acc as int, b as int) == index_at_byte(s@, b as int),
        decreases s.len() - k,
    {
        if acc == b {
            return Some(k);
        }
        let l = crate::text::char_utf8_len(s[k]);
        if l > b - acc {
            assert(index_from(s@, k + 1, acc + l, b as int) == None::<int>);
            return None;
        }
        acc = acc + l;
        k += 1;
    }
    if acc == b {
        Some(k)
    } else {
        None
    }
}

/// The character range of group `g` of `m` in `s` (see `group_range`).
pub fn group_range_of(s: &Vec<char>, m: &Vec<Option<(usize, usize)>>, g: usize) -> (r: Option<
    (usize, usize),
>)
    ensures
        r matches Some((i, j)) ==> group_range(s@, m.deep_view(), g as int) == Some(
            (i as int, j as int),
        ) && i <= j <= s.len(),
        r is None ==> group_range(s@, m.deep_view(), g as int) is None,
{
    proof {
        lemma_group_range_bounds(s@, m.deep_view(), g as int);
    }
    if g >= m.len() {
        return None;
    }
    assert(m.deep_view()[g as int] == m@[g as int].deep_view());
    match m[g] {
        Some((a, b)) => match (index_of_byte(s, a), index_of_byte(s, b)) {
            (Some(i), Some(j)) => if i <= j {
                Some((i, j))
            } else {
                None
            },
            _ => None,
        },
        None => None,
    }
}

/// The text of group `g` of `m` in `s` (see `group_text`).
pub fn group_text_of(s: &Vec<char>, m: &Vec<Option<(usize, usize)>>, g: usize) -> (r: Option<
    Vec<char>,
>)
    ensures
        r matches Some(t) ==> group_text(s@, m.deep_view(), g as int) == Some(t@),
        r is None ==> group_text(s@, m.deep_view(), g as int) is None,
{
    match group_range_of(s, m, g) {
        Some((i, j)) => Some(crate::text::slice_of(s, i, j)),
        None => None,
    }
}

} // verus!
