//! The rules of the search overlay (Quick Open and Find in Files): its two
//! modes, how the selection moves, which results are shown, and how a
//! matched line is split around its match for highlighting.

use vstd::prelude::*;
use crate::text::{chars_of, slice_of, string_of, utf8_bytes, utf8_len};
use crate::pattern::{index_at_byte, index_of_byte};
use crate::search::{candidate_scores, fuzzy_rank, is_ranking};

verus! {

/// Most file-name results shown.
pub const MAX_FILENAME_RESULTS: usize = 100;

/// Most content matches collected for one query.
pub const MAX_CONTENT_RESULTS: usize = 300;

/// Pause after the last keystroke before a content search starts.
pub const CONTENT_DEBOUNCE_MS: u64 = 250;

/// What the overlay searches.
#[derive(Debug, Clone, Copy, PartialEq, Eq)]
pub enum Mode {
    Filename,
    Content,
}

impl Mode {
    /// The other mode (what Tab switches to).
    pub fn toggled(self) -> (r: Mode)
        ensures
            r == (match self {
                Mode::Filename => Mode::Content,
                Mode::Content => Mode::Filename,
            }),
    {
        match self {
            Mode::Filename => Mode::Content,
            Mode::Content => Mode::Filename,
        }
    }

    /// The label shown for the mode.
    pub fn label(self) -> (r: &'static str)
        ensures
            r@ == (match self {
                Mode::Filename => "Files"@,
                Mode::Content => "Text"@,
            }),
    {
        match self {
            Mode::Filename => "Files",
            Mode::Content => "Text",
        }
    }
}

/// `v` clamped to `lo..=hi`.
pub open spec fn clamp(v: int, lo: int, hi: int) -> int {
    if v < lo {
        lo
    } else if v > hi {
        hi
    } else {
        v
    }
}

/// The selection after moving `delta` rows from `current` in a list of
/// `n_items` rows, held at the first and last row; `None` for an empty
/// list, where nothing moves.
pub fn moved_selection(current: u32, n_items: u32, delta: i64) -> (r: Option<u32>)
    ensures
        n_items == 0 ==> r is None,
        n_items > 0 ==> r == Some(clamp(current + delta, 0, n_items - 1) as u32),
{
    if n_items == 0 {
        return None;
    }
    let next: i128 = current as i128 + delta as i128;
    let last: i128 = n_items as i128 - 1;
    let c = if next < 0 {
        0
    } else if next > last {
        last
    } else {
        next
    };
    Some(c as u32)
}

/// Number of UTF-8 bytes of `s`, counted up to `cap` at most.
fn byte_len_capped(s: &str, cap: usize) -> (r: usize)
    requires
        cap > 0,
    ensures
        r == if utf8_bytes(s@) < cap {
            utf8_bytes(s@) as int
        } else {
            cap as int
        },
{
    let v = chars_of(s);
    let mut n: usize = 0;
    let mut i: usize = 0;
    while i < v.len()
        invariant
            i <= v.len(),
            n == utf8_bytes(v@.take(i as int)),
            n < cap,
            v@ == s@,
        decreases v.len() - i,
    {
        assert(v@.take(i + 1).drop_last() == v@.take(i as int));
        assert(v@.take(i + 1).last() == v@[i as int]);
        let l = crate::text::char_utf8_len(v[i]);
        if l >= cap - n {
            proof {
                lemma_utf8_bytes_prefix(v@, i + 1);
            }
            return cap;
        }
        n = n + l;
        i += 1;
    }
    assert(v@.take(v.len() as int) == v@);
    n
}

proof fn lemma_utf8_bytes_prefix(s: Seq<char>, k: int)
    requires
        0 <= k <= s.len(),
    ensures
        utf8_bytes(s.take(k)) <= utf8_bytes(s),
    decreases s.len() - k,
{
    if k < s.len() {
        lemma_utf8_bytes_prefix(s, k + 1);
        assert(s.take(k + 1).drop_last() == s.take(k));
    } else {
        assert(s.take(k) == s);
    }
}

/// A content search starts only for a query of at least two bytes.
pub fn content_query_wanted(query: &str) -> (r: bool)
    ensures
        r == (utf8_bytes(query@) >= 2),
{
    byte_len_capped(query, 2) >= 2
}

/// The file-name results for `query` over the relative paths `rels`: the
/// best-ranked `MAX_FILENAME_RESULTS` (every path, in order, for an empty
/// query).
pub fn filename_results(rels: &Vec<String>, query: &str) -> (r: Vec<usize>)
    ensures
        query@.len() == 0 ==> r@ == Seq::new(
            if rels.len() < MAX_FILENAME_RESULTS {
                rels.len() as nat
            } else {
                MAX_FILENAME_RESULTS as nat
            },
            |i: int| i as usize,
        ),
        query@.len() > 0 ==> exists|full: Seq<usize>|
            is_ranking(candidate_scores(rels@, query@), full) && r@ == full.take(
                if full.len() < MAX_FILENAME_RESULTS {
                    full.len() as int
                } else {
                    MAX_FILENAME_RESULTS as int
                },
            ),
{
    let ranked = fuzzy_rank(rels, query);
    let mut r: Vec<usize> = Vec::new();
    let mut i: usize = 0;
    while i < ranked.len() && i < MAX_FILENAME_RESULTS
        invariant
            i <= ranked.len(),
            i <= MAX_FILENAME_RESULTS,
            r@ == ranked@.take(i as int),
        decreases ranked.len() - i,
    {
        r.push(ranked[i]);
        i += 1;
        assert(r@ =~= ranked@.take(i as int));
    }
    proof {
    if query@.len() == 0 {
        assert(r@ =~= Seq::new(
            if rels.len() < MAX_FILENAME_RESULTS {
                rels.len() as nat
            } else {
                MAX_FILENAME_RESULTS as nat
            },
            |i: int| i as usize,
        ));
    } else {
        assert(is_ranking(candidate_scores(rels@, query@), ranked@));
    }
    }
    r
}

// ---------------------------------------------------------------------
// highlighting a matched line
// ---------------------------------------------------------------------

/// A matched line split around its match: the text before, the match and
/// the text after, when the byte span `start..end` is non-empty and both
/// ends fall on character boundaries within the line; `None` otherwise
/// (the line is then shown without a highlight).
pub open spec fn highlight_parts_spec(line: Seq<char>, start: usize, end: usize) -> Option<
    (Seq<char>, Seq<char>, Seq<char>),
> {
    if start >= end {
        None
    } else {
        match (index_at_byte(line, start as int), index_at_byte(line, end as int)) {
            (Some(i), Some(j)) => if i <= j {
                Some((line.take(i), line.subrange(i, j), line.skip(j)))
            } else {
                None
            },
            _ => None,
        }
    }
}

/// The parts of a matched line (see `highlight_parts_spec`).
pub fn highlight_parts(line: &str, span: (usize, usize)) -> (r: Option<(String, String, String)>)
    ensures
        match (r, highlight_parts_spec(line@, span.0, span.1)) {
            (Some((a, b, c)), Some((x, y, z))) => a@ == x && b@ == y && c@ == z,
            (None, None) => true,
            _ => false,
        },
{
    let (start, end) = span;
    if start >= end {
        return None;
    }
    let v = chars_of(line);
    let i = match index_of_byte(&v, start) {
        Some(i) => i,
        None => {
            return None;
        },
    };
    let j = match index_of_byte(&v, end) {
        Some(j) => j,
        None => {
            return None;
        },
    };
    if i > j {
        return None;
    }
    proof {
        crate::pattern::lemma_index_from_bounds(v@, 0, 0, end as int);
    }
    let a = slice_of(&v, 0, i);
    let b = slice_of(&v, i, j);
    let c = slice_of(&v, j, v.len());
    assert(a@ == v@.take(i as int));
    assert(c@ == v@.skip(j as int));
    Some((string_of(&a), string_of(&b), string_of(&c)))
}

/// Pango markup for a matched line from its escaped parts: the match bold
/// in the accent colour.
pub fn markup_with_span(before: &str, accent: &str, matched: &str, after: &str) -> (r: String)
    ensures
        r@ == before@ + "<span foreground=\""@ + accent@ + "\" weight=\"bold\">"@ + matched@
            + "</span>"@ + after@,
{
    let mut out: Vec<char> = chars_of(before);
    crate::text::push_str_chars(&mut out, "<span foreground=\"");
    crate::text::push_str_chars(&mut out, accent);
    crate::text::push_str_chars(&mut out, "\" weight=\"bold\">");
    crate::text::push_str_chars(&mut out, matched);
    crate::text::push_str_chars(&mut out, "</span>");
    crate::text::push_str_chars(&mut out, after);
    string_of(&out)
}

/// The title of a content match: its relative path and line number.
pub fn match_title(rel: &str, line_number: u64) -> (r: String)
    ensures
        r@ == rel@ + ":"@ + crate::text::decimal(line_number as nat),
{
    let mut out = chars_of(rel);
    crate::text::push_str_chars(&mut out, ":");
    crate::text::push_decimal(&mut out, line_number);
    string_of(&out)
}

/// After the `n`-th content match was handed on (`delivered` says whether
/// the receiver took it), whether the search goes on: not once the
/// receiver is gone, and not once `MAX_CONTENT_RESULTS` matches were
/// collected.
pub fn search_goes_on(delivered: bool, n: usize) -> (r: bool)
    ensures
        r == (delivered && n < MAX_CONTENT_RESULTS),
{
    delivered && n < MAX_CONTENT_RESULTS
}

} // verus!
