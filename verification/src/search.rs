//! Finding things: the literal query escaped for the full-text search, and
//! the fuzzy ranking of file paths for Quick Open (scores from
//! nucleo-matcher, ranked best first).

use vstd::prelude::*;
use std::path::PathBuf;
use crate::text::{
    chars_of, code_of, string_of, is_ascii_alnum, is_ascii_punct, find, find_char, lemma_find_char_bounds,
    slice_of, trim_end, trim_ws_end, utf8_bytes, utf8_len, char_utf8_len,
    lemma_utf8_bytes_prefix_mono,
};

verus! {

#[verifier::external_type_specification]
#[verifier::external_body]
pub struct ExPathBuf(std::path::PathBuf);

/// One matching line of a full-text search.
#[derive(Debug, PartialEq)]
pub struct SearchMatch {
    pub path: PathBuf,
    pub line_number: u64,
    pub line: String,
    /// byte span of the first query occurrence within `line`
    pub span: (usize, usize),
}

// ---------------------------------------------------------------------
// literal queries
// ---------------------------------------------------------------------

/// Whether a backslash before `c` makes the regex engine read `c` itself:
/// every ASCII character but letters, digits, space, `<` and `>` (a
/// backslash before `<` or `>` is a word-boundary assertion, and those two
/// mean themselves unescaped).
pub open spec fn needs_escape(c: char) -> bool {
    (c as int) < 0x80 && !is_ascii_alnum(c) && c != ' ' && c != '<' && c != '>'
}

/// The regex text for one query character: a backslash before the
/// characters of `needs_escape`, the character alone otherwise.
pub open spec fn regex_escape_char(c: char) -> Seq<char> {
    if needs_escape(c) {
        seq!['\\', c]
    } else {
        seq![c]
    }
}

pub open spec fn spec_escape_literal(s: Seq<char>) -> Seq<char>
    decreases s.len(),
{
    if s.len() == 0 {
        Seq::empty()
    } else {
        spec_escape_literal(s.drop_last()) + regex_escape_char(s.last())
    }
}

/// Escape a literal query for the regex engine, so that the pattern stands
/// for the query's text and nothing else: "a+b" searches for a plus sign,
/// "<a>" for angle brackets.
pub fn escape_literal(query: &str) -> (r: String)
    ensures
        r@ == spec_escape_literal(query@),
{
    let v = chars_of(query);
    let mut out: Vec<char> = Vec::new();
    let mut i: usize = 0;
    while i < v.len()
        invariant
            i <= v.len(),
            out@ == spec_escape_literal(v@.take(i as int)),
        decreases v.len() - i,
    {
        let c = v[i];
        assert(v@.take(i + 1).drop_last() == v@.take(i as int));
        let alnum = ('a' <= c && c <= 'z') || ('A' <= c && c <= 'Z') || ('0' <= c && c <= '9');
        if code_of(c) < 0x80 && !alnum && c != ' ' && c != '<' && c != '>' {
            out.push('\\');
        }
        out.push(c);
        assert(out@ =~= spec_escape_literal(v@.take(i + 1)));
        i += 1;
    }
    assert(v@.take(v.len() as int) == v@);
    string_of(&out)
}

/// The search is literal: a query character that the regex engine would
/// read as syntax (ASCII punctuation other than `<` and `>`, or an ASCII
/// control character) goes into the pattern behind a backslash, wherever it
/// stands in the query.
pub proof fn lemma_escape_syntax_char(q: Seq<char>, c: char)
    requires
        (is_ascii_punct(c) && c != '<' && c != '>') || (c as int) < 0x20 || (c as int) == 0x7F,
    ensures
        spec_escape_literal(q.push(c)) == spec_escape_literal(q) + seq!['\\', c],
{
    assert(q.push(c).drop_last() == q);
}

/// Letters, digits, spaces, `<`, `>` and non-ASCII characters of the query
/// stand for themselves in the pattern.
pub proof fn lemma_escape_plain_char(q: Seq<char>, c: char)
    requires
        is_ascii_alnum(c) || c == ' ' || c == '<' || c == '>' || (c as int) >= 0x80,
    ensures
        spec_escape_literal(q.push(c)) == spec_escape_literal(q) + seq![c],
{
    assert(q.push(c).drop_last() == q);
}

// ---------------------------------------------------------------------
// full-text search of one text
// ---------------------------------------------------------------------

#[verifier::external_type_specification]
#[verifier::external_body]
pub struct ExRegexMatcher(grep_regex::RegexMatcher);

/// A case-insensitive grep-regex matcher, with the pattern it was built
/// from.
pub struct LiteralMatcher {
    matcher: grep_regex::RegexMatcher,
    pattern: String,
}

/// Whether grep-regex builds a case-insensitive matcher from `pattern`.
pub uninterp spec fn ci_matcher_builds(pattern: Seq<char>) -> bool;

/// The byte span of the first match in `line` of the case-insensitive
/// grep-regex matcher built from `pattern`; `None` when it does not match.
pub uninterp spec fn ci_literal_find(pattern: Seq<char>, line: Seq<char>) -> Option<(usize, usize)>;

/// Calls `RegexMatcherBuilder::new().case_insensitive(true).build(pattern)`.
/// Claimed: a matcher comes back exactly when `ci_matcher_builds(pattern)`,
/// and it keeps the pattern; which patterns build (syntax, size limits) is
/// not stated.
#[verifier::external_body]
fn build_ci_matcher(pattern: &str) -> (r: Option<LiteralMatcher>)
    ensures
        r is Some <==> ci_matcher_builds(pattern@),
        r matches Some(m) ==> m.pattern@ == pattern@,
{
    match grep_regex::RegexMatcherBuilder::new().case_insensitive(true).build(pattern) {
        Ok(matcher) => Some(LiteralMatcher { matcher, pattern: pattern.to_string() }),
        Err(_) => None,
    }
}

/// Calls `grep_matcher::Matcher::find` on the line's bytes (this matcher's
/// error type has no values). Claimed: the span is `ci_literal_find` of the
/// matcher's pattern and the line, and it lies within the line (start at
/// most end, end at most the line's byte length); the regex semantics are
/// not stated.
#[verifier::external_body]
fn ci_find(m: &LiteralMatcher, line: &str) -> (r: Option<(usize, usize)>)
    ensures
        r == ci_literal_find(m.pattern@, line@),
        r matches Some(sp) ==> sp.0 <= sp.1 && sp.1 <= utf8_bytes(line@),
{
    grep_matcher::Matcher::find(&m.matcher, line.as_bytes()).ok().flatten().map(
        |x: grep_matcher::Match| (x.start(), x.end()),
    )
}

/// The lines of `text` from `start` on, as the searcher hands them out:
/// each runs up to and including a `\n`; a last piece without one counts
/// when it is not empty.
pub open spec fn lines_from(text: Seq<char>, start: int) -> Seq<Seq<char>>
    decreases text.len() - start,
{
    if start < 0 || start >= text.len() {
        Seq::empty()
    } else {
        match find_char(text, start, '\n') {
            Some(k) => {
                proof {
                    lemma_find_char_bounds(text, start, '\n');
                }
                seq![text.subrange(start, k + 1)] + lines_from(text, k + 1)
            },
            None => seq![text.subrange(start, text.len() as int)],
        }
    }
}

/// `x`, but at most `b`.
pub open spec fn clamp_to(x: int, b: int) -> int {
    if x < b {
        x
    } else {
        b
    }
}

/// What the search reports of line number `number`: nothing when the
/// pattern does not match it; else the number, the line without trailing
/// whitespace, and the first match's byte span cut to that text.
pub open spec fn line_hit(pattern: Seq<char>, number: int, line: Seq<char>) -> Seq<
    (int, Seq<char>, (int, int)),
> {
    match ci_literal_find(pattern, line) {
        Some(sp) => {
            let t = trim_end(line);
            let b = utf8_bytes(t) as int;
            seq![(number, t, (clamp_to(sp.0 as int, b), clamp_to(sp.1 as int, b)))]
        },
        None => Seq::empty(),
    }
}

/// The reports for `lines`, numbered from 1, in order.
pub open spec fn hits_of(pattern: Seq<char>, lines: Seq<Seq<char>>) -> Seq<
    (int, Seq<char>, (int, int)),
>
    decreases lines.len(),
{
    if lines.len() == 0 {
        Seq::empty()
    } else {
        hits_of(pattern, lines.drop_last()) + line_hit(pattern, lines.len() as int, lines.last())
    }
}

/// What a literal, case-insensitive search for `query` reports of `text`:
/// nothing for an empty query or a pattern the matcher refuses; else the
/// matching lines in order, at most `cap` of them.
pub open spec fn spec_matching_lines(text: Seq<char>, query: Seq<char>, cap: int) -> Seq<
    (int, Seq<char>, (int, int)),
> {
    let p = spec_escape_literal(query);
    if query.len() == 0 || !ci_matcher_builds(p) {
        Seq::empty()
    } else {
        let all = hits_of(p, lines_from(text, 0));
        if all.len() <= cap {
            all
        } else {
            all.take(cap)
        }
    }
}

/// A report as plain values: line number, text, byte span.
pub open spec fn hits_view(v: Seq<(u64, String, (usize, usize))>) -> Seq<
    (int, Seq<char>, (int, int)),
> {
    v.map_values(|h: (u64, String, (usize, usize))| (h.0 as int, h.1@, (h.2.0 as int, h.2.1 as int)))
}

/// The reports of the first lines come first, whatever follows them.
proof fn lemma_hits_prefix(p: Seq<char>, a: Seq<Seq<char>>, b: Seq<Seq<char>>)
    ensures
        hits_of(p, a).len() <= hits_of(p, a + b).len(),
        hits_of(p, a + b).take(hits_of(p, a).len() as int) == hits_of(p, a),
    decreases b.len(),
{
    if b.len() == 0 {
        assert(a + b == a);
    } else {
        lemma_hits_prefix(p, a, b.drop_last());
        assert((a + b).drop_last() == a + b.drop_last());
    }
}

/// The byte length of `v[0..hi]`, but at most `cap`.
fn utf8_len_capped(v: &Vec<char>, hi: usize, cap: usize) -> (r: usize)
    requires
        hi <= v.len(),
    ensures
        r as int == clamp_to(utf8_bytes(v@.subrange(0, hi as int)) as int, cap as int),
{
    let mut i: usize = 0;
    let mut bytes: usize = 0;
    while i < hi && bytes < cap
        invariant
            i <= hi <= v.len(),
            bytes as int == clamp_to(utf8_bytes(v@.take(i as int)) as int, cap as int),
        decreases hi - i,
    {
        let w = char_utf8_len(v[i]);
        assert(v@.take(i + 1).drop_last() == v@.take(i as int));
        if w >= cap - bytes {
            bytes = cap;
        } else {
            bytes = bytes + w;
        }
        i += 1;
    }
    assert(v@.subrange(0, hi as int) == v@.take(hi as int));
    if i < hi {
        proof {
            lemma_utf8_bytes_prefix_mono(v@, i as int, hi as int);
        }
    }
    bytes
}

/// Searches `text` for `query` taken literally and without regard to case,
/// as the full-text search does each file: the matching lines in order,
/// each with its number (from 1), its text without trailing whitespace and
/// the byte span of the first match within that text; at most `cap` of
/// them, and none for an empty query.
pub fn matching_lines(text: &str, query: &str, cap: usize) -> (r: Vec<(u64, String, (usize, usize))>)
    ensures
        hits_view(r@) == spec_matching_lines(text@, query@, cap as int),
{
    let mut out: Vec<(u64, String, (usize, usize))> = Vec::new();
    if query.is_empty() {
        return out;
    }
    let pattern = escape_literal(query);
    let m = match build_ci_matcher(pattern.as_str()) {
        Some(m) => m,
        None => {
            return out;
        },
    };
    let v = chars_of(text);
    let ghost p = pattern@;
    let ghost mut done: Seq<Seq<char>> = Seq::empty();
    let mut i: usize = 0;
    let mut number: u64 = 0;
    assert(done + lines_from(v@, 0) == lines_from(v@, 0));
    while i < v.len() && out.len() < cap
        invariant
            i <= v.len(),
            lines_from(v@, 0) == done + lines_from(v@, i as int),
            number == done.len(),
            number <= i,
            hits_view(out@) == hits_of(p, done),
            out.len() <= cap,
            m.pattern@ == p,
        decreases v.len() - i,
    {
        let end = match find(&v, i, '\n') {
            Some(k) => {
                proof {
                    lemma_find_char_bounds(v@, i as int, '\n');
                }
                k + 1
            },
            None => v.len(),
        };
        let line = slice_of(&v, i, end);
        let line_s = string_of(&line);
        assert(lines_from(v@, i as int) == seq![line@] + lines_from(v@, end as int));
        assert(done + lines_from(v@, i as int) == done.push(line@) + lines_from(v@, end as int));
        number = number + 1;
        let ghost before = done;
        proof {
            done = done.push(line@);
        }
        assert(done.drop_last() == before);
        match ci_find(&m, line_s.as_str()) {
            Some(sp) => {
                assert(line@.subrange(0, line.len() as int) == line@);
                let te = trim_ws_end(&line, 0, line.len());
                let b = utf8_len_capped(&line, te, sp.1);
                let s0 = if sp.0 < b {
                    sp.0
                } else {
                    b
                };
                let t = string_of(&slice_of(&line, 0, te));
                let ghost out0 = out@;
                out.push((number, t, (s0, b)));
                assert(hits_view(out@) =~= hits_view(out0).push(
                    (number as int, t@, (s0 as int, b as int)),
                ));
            },
            None => {
                assert(line_hit(p, done.len() as int, line@) =~= Seq::empty());
                assert(hits_of(p, done) =~= hits_of(p, before));
            },
        }
        i = end;
    }
    proof {
        let all = lines_from(v@, 0);
        if i >= v.len() {
            assert(all =~= done);
        } else {
            lemma_hits_prefix(p, done, lines_from(v@, i as int));
        }
    }
    out
}

// ---------------------------------------------------------------------
// fuzzy ranking
// ---------------------------------------------------------------------

#[verifier::external_type_specification]
#[verifier::external_body]
pub struct ExNucleoMatcher(nucleo_matcher::Matcher);

/// A nucleo matcher configured for file paths (the only way to make one).
pub struct PathMatcher {
    matcher: nucleo_matcher::Matcher,
}

/// The score nucleo-matcher gives `candidate` for the fuzzy `query`
/// (case-insensitive, smart normalization, path bonuses); `None` when it
/// does not match.
pub uninterp spec fn nucleo_path_score(query: Seq<char>, candidate: Seq<char>) -> Option<u32>;

/// Calls `nucleo_matcher::Matcher::new` with `Config::DEFAULT.match_paths()`.
/// Nothing is claimed of the value.
#[verifier::external_body]
fn new_path_matcher() -> PathMatcher {
    PathMatcher { matcher: nucleo_matcher::Matcher::new(nucleo_matcher::Config::DEFAULT.match_paths()) }
}

/// Calls `Pattern::parse(query, CaseMatching::Ignore, Normalization::Smart)`
/// and `Pattern::score` on the candidate. Claimed: the score is
/// `nucleo_path_score` of the query and the candidate; the scoring itself
/// is not stated.
#[verifier::external_body]
fn path_score(m: &mut PathMatcher, query: &str, candidate: &str) -> (r: Option<u32>)
    ensures
        r == nucleo_path_score(query@, candidate@),
{
    let pattern = nucleo_matcher::pattern::Pattern::parse(
        query,
        nucleo_matcher::pattern::CaseMatching::Ignore,
        nucleo_matcher::pattern::Normalization::Smart,
    );
    let haystack = nucleo_matcher::Utf32String::from(candidate);
    pattern.score(haystack.slice(..), &mut m.matcher)
}

/// Candidate `a` ranks before `b`: a higher score, or the same score and an
/// earlier position.
pub open spec fn ranks_before(scores: Seq<Option<u32>>, a: int, b: int) -> bool {
    scores[a].unwrap() > scores[b].unwrap() || (scores[a].unwrap() == scores[b].unwrap() && a
        < b)
}

/// `r` lists every scored candidate (and only those), best first.
pub open spec fn is_ranking(scores: Seq<Option<u32>>, r: Seq<usize>) -> bool {
    &&& forall|k: int| 0 <= k < r.len() ==> #[trigger] r[k] < scores.len() && scores[r[k] as int] is Some
    &&& forall|i: int| 0 <= i < scores.len() && #[trigger] scores[i] is Some ==> r.contains(i as usize)
    &&& forall|j: int, k: int|
        0 <= j < k < r.len() ==> ranks_before(scores, #[trigger] r[j] as int, #[trigger] r[k] as int)
}

/// `r` ranks the scored candidates among the first `n`.
pub open spec fn ranks_prefix(sc: Seq<Option<u32>>, r: Seq<usize>, n: int) -> bool {
    &&& forall|k: int| 0 <= k < r.len() ==> #[trigger] r[k] < n && sc[r[k] as int] is Some
    &&& forall|m: int| 0 <= m < n && #[trigger] sc[m] is Some ==> r.contains(m as usize)
    &&& forall|j: int, k: int|
        0 <= j < k < r.len() ==> ranks_before(sc, #[trigger] r[j] as int, #[trigger] r[k] as int)
}

/// Inserts the scored candidate `i` after every better one.
#[verifier::spinoff_prover]
fn insert_ranked(r: &mut Vec<usize>, scores: &Vec<Option<u32>>, i: usize)
    requires
        i < scores.len(),
        scores@[i as int] is Some,
        ranks_prefix(scores@, old(r)@, i as int),
    ensures
        ranks_prefix(scores@, final(r)@, i + 1),
{
    let ghost sc = scores@;
    let s = scores[i].unwrap();
    let mut p: usize = 0;
    while p < r.len() && scores[r[p]].unwrap() >= s
        invariant
            p <= r.len(),
            i < scores.len(),
            sc == scores@,
            sc[i as int] == Some(s),
            ranks_prefix(sc, r@, i as int),
            forall|k: int| 0 <= k < p ==> sc[#[trigger] r[k] as int].unwrap() >= s,
        decreases r.len() - p,
    {
        p += 1;
    }
    proof {
        if p < r.len() {
            assert(sc[r[p as int] as int].unwrap() < s);
            assert forall|k: int| p <= k < r.len() implies sc[#[trigger] r[k] as int].unwrap() < s by {
                if k > p {
                    assert(ranks_before(sc, r[p as int] as int, r[k] as int));
                }
            }
        }
    }
    let ghost old_r = r@;
    r.insert(p, i);
    proof {
        assert forall|k: int| 0 <= k < r.len() implies #[trigger] r[k] < i + 1 && sc[r[k] as int] is Some by {
            if k < p {
                assert(r[k] == old_r[k]);
            } else if k > p {
                assert(r[k] == old_r[k - 1]);
            }
        }
        assert forall|m: int| 0 <= m < i + 1 && #[trigger] sc[m] is Some implies r@.contains(m as usize) by {
            if m == i {
                assert(r@[p as int] == i);
            } else {
                assert(old_r.contains(m as usize));
                let k = choose|k: int| 0 <= k < old_r.len() && old_r[k] == m as usize;
                if k < p {
                    assert(r@[k] == m as usize);
                } else {
                    assert(r@[k + 1] == m as usize);
                }
            }
        }
        assert forall|j: int, k: int| 0 <= j < k < r.len() implies ranks_before(sc, #[trigger] r[j] as int, #[trigger] r[k] as int) by {
            if j < p && k < p {
                assert(r[j] == old_r[j] && r[k] == old_r[k]);
            } else if j < p && k == p {
                assert(r[j] == old_r[j]);
            } else if j < p && k > p {
                assert(r[j] == old_r[j] && r[k] == old_r[k - 1]);
                assert(ranks_before(sc, old_r[j] as int, old_r[k - 1] as int));
            } else if j == p {
                assert(r[k] == old_r[k - 1]);
            } else {
                assert(r[j] == old_r[j - 1] && r[k] == old_r[k - 1]);
                assert(ranks_before(sc, old_r[j - 1] as int, old_r[k - 1] as int));
            }
        }
    }
}

/// The indices of the scored candidates, best score first, ties in their
/// original order.
pub fn rank_by_scores(scores: &Vec<Option<u32>>) -> (r: Vec<usize>)
    ensures
        is_ranking(scores@, r@),
{
    let mut r: Vec<usize> = Vec::new();
    let mut i: usize = 0;
    while i < scores.len()
        invariant
            i <= scores.len(),
            ranks_prefix(scores@, r@, i as int),
        decreases scores.len() - i,
    {
        if scores[i].is_some() {
            insert_ranked(&mut r, scores, i);
        } else {
            assert(ranks_prefix(scores@, r@, i + 1));
        }
        i += 1;
    }
    r
}

/// The score of every candidate for `query`.
pub open spec fn candidate_scores(candidates: Seq<String>, query: Seq<char>) -> Seq<Option<u32>> {
    Seq::new(candidates.len(), |i: int| nucleo_path_score(query, candidates[i]@))
}

/// Rank candidate paths against a fuzzy query: indices into `candidates`,
/// best match first; every candidate, in order, for an empty query.
pub fn fuzzy_rank(candidates: &Vec<String>, query: &str) -> (r: Vec<usize>)
    ensures
        query@.len() == 0 ==> r@ == Seq::new(candidates.len() as nat, |i: int| i as usize),
        query@.len() > 0 ==> is_ranking(candidate_scores(candidates@, query@), r@),
{
    if query.is_empty() {
        let mut all: Vec<usize> = Vec::new();
        let mut i: usize = 0;
        while i < candidates.len()
            invariant
                i <= candidates.len(),
                all@ == Seq::new(i as nat, |k: int| k as usize),
            decreases candidates.len() - i,
        {
            all.push(i);
            i += 1;
            assert(all@ =~= Seq::new(i as nat, |k: int| k as usize));
        }
        return all;
    }
    let mut m = new_path_matcher();
    let mut scores: Vec<Option<u32>> = Vec::new();
    let mut i: usize = 0;
    while i < candidates.len()
        invariant
            i <= candidates.len(),
            scores@ == candidate_scores(candidates@, query@).take(i as int),
        decreases candidates.len() - i,
    {
        let s = path_score(&mut m, query, candidates[i].as_str());
        scores.push(s);
        i += 1;
        assert(scores@ =~= candidate_scores(candidates@, query@).take(i as int));
    }
    assert(scores@ =~= candidate_scores(candidates@, query@));
    rank_by_scores(&scores)
}

} // verus!
