//! Heading extraction for the Navigator. ATX headings outside fenced code
//! blocks, with inline markdown resolved the way markdown-it's token content
//! resolves it, and ids that follow the slug-and-dedup rule of the page
//! script: the first occurrence of a slug keeps it bare, later ones get
//! `-1`, `-2`, ...

use vstd::prelude::*;
use crate::pattern::{
    regex_first_captures, regex_all_captures, regex_replace_all, group_text, index_at_byte,
    first_captures, all_captures, replace_all, group_text_of, index_of_byte,
};
use crate::text::{
    all_ws, char_utf8_len, collapse, count_run, find, find_char, lemma_find_char_bounds,
    lowercase_chars, replace_ws, trim_c, collapse_c, trim_start_c, push_decimal, decimal, string_of, to_lowercase, run_len, seqs_of, skip_ws, slice_of, squash_ws, str_lowercase,
    trim, trim_char, trim_end, trim_end_c, trim_range, trim_start, trim_ws_end, utf8_bytes, is_ws,
    lemma_utf8_bytes_prefix_mono,
    is_ascii_punct, is_scalar_value, char_alphanumeric, chars_eq, chars_of, contains_seq,
    is_whitespace, is_alphanumeric, eq_lit, is_ascii_punctuation, char_from_u32, push_all, ws_to,
    ascii_lower, ascii_lower_char,
};

verus! {

/// One heading of a document.
#[derive(Debug, Clone, PartialEq, Eq)]
pub struct Heading {
    pub level: u8,
    pub text: String,
    pub id: String,
}

impl View for Heading {
    type V = (nat, Seq<char>, Seq<char>);

    open spec fn view(&self) -> (nat, Seq<char>, Seq<char>) {
        (self.level as nat, self.text@, self.id@)
    }
}

// ---------------------------------------------------------------------
// lines
// ---------------------------------------------------------------------

/// `str::split('\n')`: the pieces between newlines, empty ones included.
pub open spec fn split_lines(s: Seq<char>) -> Seq<Seq<char>>
    decreases s.len(),
{
    if s.len() == 0 {
        seq![Seq::<char>::empty()]
    } else {
        let p = split_lines(s.drop_last());
        if s.last() == '\n' {
            p.push(Seq::<char>::empty())
        } else {
            p.update(p.len() - 1, p.last().push(s.last()))
        }
    }
}

pub proof fn lemma_split_lines_nonempty(s: Seq<char>)
    ensures
        split_lines(s).len() >= 1,
    decreases s.len(),
{
    if s.len() > 0 {
        lemma_split_lines_nonempty(s.drop_last());
    }
}

pub fn lines_of(s: &Vec<char>) -> (lines: Vec<Vec<char>>)
    ensures
        seqs_of(lines@) == split_lines(s@),
{
    let mut done: Vec<Vec<char>> = Vec::new();
    let mut cur: Vec<char> = Vec::new();
    let mut i: usize = 0;
    while i < s.len()
        invariant
            i <= s.len(),
            seqs_of(done@).push(cur@) == split_lines(s@.take(i as int)),
        decreases s.len() - i,
    {
        let c = s[i];
        assert(s@.take(i + 1).drop_last() == s@.take(i as int));
        let ghost before = seqs_of(done@).push(cur@);
        if c == '\n' {
            let finished = cur;
            done.push(finished);
            cur = Vec::new();
            assert(seqs_of(done@).push(cur@) =~= before.push(Seq::<char>::empty()));
        } else {
            cur.push(c);
            assert(seqs_of(done@).push(cur@) =~= before.update(
                before.len() - 1,
                before.last().push(c),
            ));
        }
        i += 1;
    }
    assert(s@.take(s.len() as int) == s@);
    done.push(cur);
    assert(seqs_of(done@) =~= split_lines(s@));
    done
}

// ---------------------------------------------------------------------
// fences
// ---------------------------------------------------------------------

/// `(marker, run length, has info string)` when the line opens or closes a
/// fence: at most 3 leading spaces, then a run of at least three backticks
/// or tildes.
pub open spec fn spec_match_fence(line: Seq<char>) -> Option<(char, nat, bool)> {
    let sp = run_len(line, 0, ' ');
    if sp > 3 || sp >= line.len() {
        None
    } else {
        let first = line[sp as int];
        if first != '`' && first != '~' {
            None
        } else {
            let n = run_len(line, sp as int, first);
            if n < 3 {
                None
            } else {
                Some((first, n, !all_ws(line.subrange((sp + n) as int, line.len() as int))))
            }
        }
    }
}

fn match_fence(line: &Vec<char>) -> (r: Option<(char, usize, bool)>)
    ensures
        r matches Some(t) ==> spec_match_fence(line@) == Some((t.0, t.1 as nat, t.2)),
        r is None ==> spec_match_fence(line@) is None,
{
    let sp = count_run(line, 0, ' ');
    if sp > 3 || sp >= line.len() {
        return None;
    }
    let first = line[sp];
    if first != '`' && first != '~' {
        return None;
    }
    let n = count_run(line, sp, first);
    if n < 3 {
        return None;
    }
    let k = skip_ws(line, sp + n);
    proof {
        let rest = line@.subrange(sp + n, line.len() as int);
        if k < line.len() {
            assert(rest[k - (sp + n)] == line@[k as int]);
        } else {
            assert forall|j: int| 0 <= j < rest.len() implies is_ws(#[trigger] rest[j]) by {
                assert(rest[j] == line@[sp + n + j]);
            }
        }
    }
    Some((first, n, k < line.len()))
}

/// Where a fence stands before a line: inside one (with its marker and run
/// length) or not.
pub type FenceView = (bool, char, nat);

pub open spec fn fence_start() -> FenceView {
    (false, '`', 0)
}

/// The fence after `line`, and whether `line` is fence or fenced content.
pub open spec fn fence_step(st: FenceView, line: Seq<char>) -> (FenceView, bool) {
    match spec_match_fence(line) {
        Some((m, n, info)) => if !st.0 {
            ((true, m, n), true)
        } else if m == st.1 && n >= st.2 && !info {
            ((false, st.1, st.2), true)
        } else {
            (st, true)
        },
        None => (st, st.0),
    }
}

struct Fence {
    in_fence: bool,
    marker: char,
    count: usize,
}

impl Fence {
    spec fn view(&self) -> FenceView {
        (self.in_fence, self.marker, self.count as nat)
    }
}

/// Advances the fence over one line; true when the line is to be skipped.
fn fence_advance(f: &mut Fence, line: &Vec<char>) -> (skip: bool)
    ensures
        fence_step(old(f).view(), line@) == (final(f).view(), skip),
{
    match match_fence(line) {
        Some((m, n, info)) => {
            if !f.in_fence {
                f.in_fence = true;
                f.marker = m;
                f.count = n;
            } else if m == f.marker && n >= f.count && !info {
                f.in_fence = false;
            }
            true
        },
        None => f.in_fence,
    }
}

// ---------------------------------------------------------------------
// headings
// ---------------------------------------------------------------------

pub open spec fn min_nat(a: nat, b: nat) -> nat {
    if a < b {
        a
    } else {
        b
    }
}

/// An ATX heading line: `(level, raw text)`. Up to three leading spaces,
/// one to six `#`, then a space, a tab or the end; the text is trimmed and
/// a closing run of `#` goes when whitespace precedes it or it is the whole
/// text ("C#" keeps its hash).
pub open spec fn spec_parse_heading(l: Seq<char>) -> Option<(nat, Seq<char>)> {
    let i = min_nat(run_len(l, 0, ' '), 3);
    if i < l.len() && l[i as int] == ' ' {
        None
    } else {
        let h = min_nat(run_len(l, i as int, '#'), 6);
        if h == 0 {
            None
        } else {
            let j = i + h;
            if j < l.len() && l[j as int] != ' ' && l[j as int] != '\t' {
                None
            } else {
                let text = trim(l.subrange(j as int, l.len() as int));
                let t2 = trim_end_c(text, '#');
                if t2.len() != text.len() && (t2.len() == 0 || t2.last() == ' ' || t2.last()
                    == '\t') {
                    Some((h, trim_end(t2)))
                } else {
                    Some((h, text))
                }
            }
        }
    }
}

fn parse_heading(line: &Vec<char>) -> (r: Option<(u8, Vec<char>)>)
    ensures
        r matches Some(t) ==> spec_parse_heading(line@) == Some((t.0 as nat, t.1@)),
        r is None ==> spec_parse_heading(line@) is None,
{
    let sp = count_run(line, 0, ' ');
    let i = if sp < 3 {
        sp
    } else {
        3
    };
    if i < line.len() && line[i] == ' ' {
        return None;
    }
    let hashes = count_run(line, i, '#');
    let h = if hashes < 6 {
        hashes
    } else {
        6
    };
    if h == 0 {
        return None;
    }
    let j = i + h;
    if j < line.len() && line[j] != ' ' && line[j] != '\t' {
        return None;
    }
    let text = trim_range(line, j, line.len());
    let mut e = text.len();
    assert(text@.subrange(0, text.len() as int) == text@);
    while e > 0 && text[e - 1] == '#'
        invariant
            e <= text.len(),
            trim_end_c(text@, '#') == trim_end_c(text@.subrange(0, e as int), '#'),
        decreases e,
    {
        assert(text@.subrange(0, e as int).drop_last() == text@.subrange(0, e - 1));
        e -= 1;
    }
    proof {
        assert(text@.subrange(0, text.len() as int) == text@);
        assert(trim_end_c(text@.subrange(0, e as int), '#') == text@.subrange(0, e as int));
    }
    if e != text.len() && (e == 0 || text[e - 1] == ' ' || text[e - 1] == '\t') {
        let b = trim_ws_end(&text, 0, e);
        let t = slice_of(&text, 0, b);
        Some((h as u8, t))
    } else {
        Some((h as u8, text))
    }
}

// ---------------------------------------------------------------------
// link reference definitions
// ---------------------------------------------------------------------

/// A reference label as CommonMark matches it: lowercased, whitespace runs
/// squeezed to one space, ends trimmed.
pub open spec fn normalize_ref(label: Seq<char>) -> Seq<char> {
    squash_ws(str_lowercase(label))
}

fn normalize_label(label: &Vec<char>) -> (r: Vec<char>)
    ensures
        r@ == normalize_ref(label@),
{
    let lower = lowercase_chars(label);
    let spaced = replace_ws(&lower, ' ');
    let squeezed = collapse(&spaced, ' ');
    trim_char(&squeezed, ' ')
}

/// The normalized label when `l` is a link reference definition
/// (`[label]: dest`) indented by at most three bytes of whitespace.
pub open spec fn spec_ref_of_line(l: Seq<char>) -> Option<Seq<char>> {
    let t = trim_start(l);
    let k = l.len() - t.len();
    if utf8_bytes(l.take(k)) > 3 || t.len() == 0 || t[0] != '[' {
        None
    } else {
        match find_char(t, 0, ']') {
            None => None,
            Some(c) => if c + 1 < t.len() && t[c + 1] == ':' {
                Some(normalize_ref(t.subrange(1, c)))
            } else {
                None
            },
        }
    }
}

/// Whether the first `k` characters of `l` take more than three bytes.
fn prefix_over_three_bytes(l: &Vec<char>, k: usize) -> (r: bool)
    requires
        k <= l.len(),
    ensures
        r == (utf8_bytes(l@.take(k as int)) > 3),
{
    let mut bytes: usize = 0;
    let mut i: usize = 0;
    while i < k
        invariant
            i <= k <= l.len(),
            bytes == utf8_bytes(l@.take(i as int)),
            bytes <= 3,
        decreases k - i,
    {
        assert(l@.take(i + 1).drop_last() == l@.take(i as int));
        bytes = bytes + char_utf8_len(l[i]);
        i += 1;
        if bytes > 3 {
            proof {
                lemma_utf8_bytes_prefix_mono(l@, i as int, k as int);
            }
            return true;
        }
    }
    false
}

fn ref_of_line(l: &Vec<char>) -> (r: Option<Vec<char>>)
    ensures
        r matches Some(v) ==> spec_ref_of_line(l@) == Some(v@),
        r is None ==> spec_ref_of_line(l@) is None,
{
    let k = skip_ws(l, 0);
    assert(l@.subrange(0, l.len() as int) == l@);
    let ghost t = trim_start(l@);
    assert(t == l@.subrange(k as int, l.len() as int));
    if prefix_over_three_bytes(l, k) || k >= l.len() || l[k] != '[' {
        return None;
    }
    let t = slice_of(l, k, l.len());
    match find(&t, 0, ']') {
        None => None,
        Some(c) => {
            proof {
                lemma_find_char_bounds(t@, 0, ']');
            }
            if c + 1 < t.len() && t[c + 1] == ':' {
                let label = slice_of(&t, 1, c);
                Some(normalize_label(&label))
            } else {
                None
            }
        },
    }
}

} // verus!

verus! {

// ---------------------------------------------------------------------
// inline markdown
// ---------------------------------------------------------------------

/// Index of the `close` that brings the nesting opened at or after `j`
/// (starting from `depth`) back to zero.
pub open spec fn bracket_close(s: Seq<char>, j: int, depth: int, open: char, close: char) -> Option<
    int,
>
    decreases s.len() - j,
{
    if j < 0 || j >= s.len() {
        None
    } else if s[j] == open {
        bracket_close(s, j + 1, depth + 1, open, close)
    } else if s[j] == close {
        if depth - 1 == 0 {
            Some(j)
        } else {
            bracket_close(s, j + 1, depth - 1, open, close)
        }
    } else {
        bracket_close(s, j + 1, depth, open, close)
    }
}

pub proof fn lemma_bracket_close_bounds(s: Seq<char>, j: int, depth: int, open: char, close: char)
    ensures
        bracket_close(s, j, depth, open, close) matches Some(k) ==> j <= k < s.len() && s[k]
            == close,
    decreases s.len() - j,
{
    if 0 <= j < s.len() {
        if s[j] == open {
            lemma_bracket_close_bounds(s, j + 1, depth + 1, open, close);
        } else if s[j] == close {
            lemma_bracket_close_bounds(s, j + 1, depth - 1, open, close);
        } else {
            lemma_bracket_close_bounds(s, j + 1, depth, open, close);
        }
    }
}

/// At `s[start] == '['`: `[label](dest)`, `[label][ref]` with `ref`
/// defined, or `[label][]`. Gives the index of the label's `]` and the
/// index after the link; undefined full references are no link.
pub open spec fn link_at(s: Seq<char>, start: int, refs: Seq<Seq<char>>) -> Option<(int, int)> {
    match bracket_close(s, start, 0, '[', ']') {
        None => None,
        Some(close) => if close + 1 < s.len() && s[close + 1] == '(' {
            match bracket_close(s, close + 1, 0, '(', ')') {
                Some(p) => Some((close, p + 1)),
                None => None,
            }
        } else if close + 1 < s.len() && s[close + 1] == '[' {
            match find_char(s, close + 2, ']') {
                None => None,
                Some(rc) => if rc == close + 2 || refs.contains(
                    normalize_ref(s.subrange(close + 2, rc)),
                ) {
                    Some((close, rc + 1))
                } else {
                    None
                },
            }
        } else {
            None
        },
    }
}

pub proof fn lemma_link_at_bounds(s: Seq<char>, start: int, refs: Seq<Seq<char>>)
    requires
        0 <= start < s.len(),
        s[start] == '[',
    ensures
        link_at(s, start, refs) matches Some((close, next)) ==> start < close < next <= s.len(),
{
    lemma_bracket_close_bounds(s, start, 0, '[', ']');
    if let Some(close) = bracket_close(s, start, 0, '[', ']') {
        if close == start {
            assert(bracket_close(s, start, 0, '[', ']') == bracket_close(
                s,
                start + 1,
                1,
                '[',
                ']',
            ));
            lemma_bracket_close_bounds(s, start + 1, 1, '[', ']');
        }
        lemma_bracket_close_bounds(s, close + 1, 0, '(', ')');
        lemma_find_char_bounds(s, close + 2, ']');
    }
}

/// End index (the `>`) of an autolink body starting at `j`: no whitespace
/// and no `<` before it.
pub open spec fn autolink_end(s: Seq<char>, j: int) -> Option<int>
    decreases s.len() - j,
{
    if j < 0 || j >= s.len() {
        None
    } else if s[j] == '>' {
        Some(j)
    } else if is_ws(s[j]) || s[j] == '<' {
        None
    } else {
        autolink_end(s, j + 1)
    }
}

pub proof fn lemma_autolink_end_bounds(s: Seq<char>, j: int)
    ensures
        autolink_end(s, j) matches Some(e) ==> j <= e < s.len(),
    decreases s.len() - j,
{
    if 0 <= j < s.len() && s[j] != '>' && !is_ws(s[j]) && s[j] != '<' {
        lemma_autolink_end_bounds(s, j + 1);
    }
}

/// At `s[start] == '<'`: `<scheme:...>` or `<user@host>`; the index of `>`.
pub open spec fn autolink_at(s: Seq<char>, start: int) -> Option<int> {
    match autolink_end(s, start + 1) {
        Some(e) => {
            let inner = s.subrange(start + 1, e);
            if inner.contains(':') || inner.contains('@') {
                Some(e)
            } else {
                None
            }
        },
        None => None,
    }
}

/// Value of a digit in `radix` (10 or 16), as `char::to_digit`.
pub open spec fn digit_value(c: char, radix: int) -> Option<int> {
    let v = c as int;
    if 0x30 <= v <= 0x39 && v - 0x30 < radix {
        Some(v - 0x30)
    } else if radix == 16 && 0x61 <= v <= 0x66 {
        Some(v - 0x61 + 10)
    } else if radix == 16 && 0x41 <= v <= 0x46 {
        Some(v - 0x41 + 10)
    } else {
        None
    }
}

/// Value of a string of digits (`Some(0)` for none).
pub open spec fn digits_value(s: Seq<char>, radix: int) -> Option<int>
    decreases s.len(),
{
    if s.len() == 0 {
        Some(0)
    } else {
        match digits_value(s.drop_last(), radix) {
            Some(v) => match digit_value(s.last(), radix) {
                Some(d) => Some(v * radix + d),
                None => None,
            },
            None => None,
        }
    }
}

/// `u32::from_str_radix`: an optional `+`, at least one digit, a value that
/// fits in `u32`.
pub open spec fn parse_u32(s: Seq<char>, radix: int) -> Option<int> {
    let body = if s.len() > 0 && s[0] == '+' {
        s.skip(1)
    } else {
        s
    };
    if body.len() == 0 {
        None
    } else {
        match digits_value(body, radix) {
            Some(v) => if v <= 0xFFFF_FFFF {
                Some(v)
            } else {
                None
            },
            None => None,
        }
    }
}

/// The character an entity name (between `&` and `;`) stands for.
pub open spec fn decode_entity(ent: Seq<char>) -> Option<int> {
    if ent == "amp"@ {
        Some('&' as int)
    } else if ent == "lt"@ {
        Some('<' as int)
    } else if ent == "gt"@ {
        Some('>' as int)
    } else if ent == "quot"@ {
        Some('"' as int)
    } else if ent == "apos"@ {
        Some('\'' as int)
    } else if ent == "nbsp"@ {
        Some(0xA0)
    } else {
        let num = if ent.len() >= 2 && ent[0] == '#' && (ent[1] == 'x' || ent[1] == 'X') {
            parse_u32(ent.skip(2), 16)
        } else if ent.len() >= 1 && ent[0] == '#' {
            parse_u32(ent.skip(1), 10)
        } else {
            None
        };
        match num {
            Some(v) => if is_scalar_value(v) {
                Some(v)
            } else {
                None
            },
            None => None,
        }
    }
}

/// Whether `e` holds a whitespace character.
pub open spec fn has_ws_char(e: Seq<char>) -> bool {
    exists|k: int| 0 <= k < e.len() && is_ws(#[trigger] e[k])
}

/// At `s[start] == '&'`: an entity ended by `;` within the next 32
/// characters, with no whitespace in it. The code point and the index after
/// the `;`.
pub open spec fn entity_at(s: Seq<char>, start: int) -> Option<(int, int)> {
    let avail = s.len() - start - 1;
    let lim = if avail < 32 {
        avail
    } else {
        32
    };
    match find_char(s.subrange(start + 1, start + 1 + lim), 0, ';') {
        None => None,
        Some(semi) => {
            let ent = s.subrange(start + 1, start + 1 + semi);
            if ent.len() == 0 || has_ws_char(ent) {
                None
            } else {
                match decode_entity(ent) {
                    Some(v) => Some((v, start + 1 + semi + 1)),
                    None => None,
                }
            }
        },
    }
}

pub proof fn lemma_entity_at_bounds(s: Seq<char>, start: int)
    requires
        0 <= start < s.len(),
    ensures
        entity_at(s, start) matches Some((v, next)) ==> start < next <= s.len() && is_scalar_value(
            v,
        ),
{
    let avail = s.len() - start - 1;
    let lim = if avail < 32 {
        avail
    } else {
        32
    };
    lemma_find_char_bounds(s.subrange(start + 1, start + 1 + lim), 0, ';');
}

/// Closing `_` run for emphasis, scanning from `j`: preceded by
/// non-whitespace and followed by a non-alphanumeric or the end. Its start
/// and the index after it.
pub open spec fn underscore_close(s: Seq<char>, j: int) -> Option<(int, int)>
    decreases s.len() - j,
{
    if j < 1 || j >= s.len() {
        None
    } else if s[j] == '_' && !is_ws(s[j - 1]) {
        let ac = j + run_len(s, j, '_');
        if ac >= s.len() || !char_alphanumeric(s[ac]) {
            Some((j, ac))
        } else if ac > j {
            underscore_close(s, ac)
        } else {
            None
        }
    } else {
        underscore_close(s, j + 1)
    }
}

pub proof fn lemma_underscore_close_bounds(s: Seq<char>, j: int)
    ensures
        underscore_close(s, j) matches Some((c, ac)) ==> j <= c < ac <= s.len(),
    decreases s.len() - j,
{
    if 1 <= j < s.len() {
        if s[j] == '_' && !is_ws(s[j - 1]) {
            let ac = j + run_len(s, j, '_');
            assert(run_len(s, j, '_') >= 1);
            lemma_run_len_bound(s, j, '_');
            if !(ac >= s.len() || !char_alphanumeric(s[ac])) {
                lemma_underscore_close_bounds(s, ac);
            }
        } else {
            lemma_underscore_close_bounds(s, j + 1);
        }
    }
}

pub proof fn lemma_run_len_bound(s: Seq<char>, i: int, c: char)
    requires
        0 <= i,
    ensures
        i + run_len(s, i, c) <= if i <= s.len() {
            s.len() as int
        } else {
            i
        },
    decreases s.len() - i,
{
    if 0 <= i < s.len() && s[i] == c {
        lemma_run_len_bound(s, i + 1, c);
    }
}

/// At `s[start] == '_'`: a balanced `_..._` / `__...__` at word
/// boundaries. Inner range and the index after the closing run; intraword
/// or unbalanced runs are no emphasis.
pub open spec fn underscore_at(s: Seq<char>, start: int) -> Option<(int, int, int)> {
    if start > 0 && char_alphanumeric(s[start - 1]) {
        None
    } else {
        let ao = start + run_len(s, start, '_');
        if ao >= s.len() || is_ws(s[ao]) || s[ao] == '_' {
            None
        } else {
            match underscore_close(s, ao) {
                Some((j, ac)) => Some((ao, j, ac)),
                None => None,
            }
        }
    }
}

pub proof fn lemma_underscore_at_bounds(s: Seq<char>, start: int)
    requires
        0 <= start < s.len(),
        s[start] == '_',
    ensures
        underscore_at(s, start) matches Some((ao, j, ac)) ==> start < ao <= j < ac <= s.len(),
{
    assert(run_len(s, start, '_') >= 1);
    lemma_run_len_bound(s, start, '_');
    let ao = start + run_len(s, start, '_');
    lemma_underscore_close_bounds(s, ao);
}

/// Inline markdown resolved to text, from index `i` on: `[text](url)` and
/// defined `[text][ref]` give their text, `![alt](url)` its alt text when
/// `alt` is set (nothing otherwise), `<autolink>` its inside, `\X` gives `X`
/// for ASCII punctuation, entities are decoded, `_em_` loses its
/// underscores, and the markers `` ` ``, `*`, `~` are dropped.
pub open spec fn clean(s: Seq<char>, i: int, alt: bool, refs: Seq<Seq<char>>) -> Seq<char>
    decreases s.len(), s.len() - i,
{
    if i < 0 || i >= s.len() {
        Seq::empty()
    } else {
        let c = s[i];
        if c == '\\' && i + 1 < s.len() && is_ascii_punct(s[i + 1]) {
            seq![s[i + 1]] + clean(s, i + 2, alt, refs)
        } else if c == '!' && i + 1 < s.len() && s[i + 1] == '[' {
            match link_at(s, i + 1, refs) {
                Some((close, next)) => {
                    proof {
                        lemma_link_at_bounds(s, i + 1, refs);
                    }
                    (if alt {
                        clean(s.subrange(i + 2, close), 0, alt, refs)
                    } else {
                        Seq::empty()
                    }) + clean(s, next, alt, refs)
                },
                None => seq![c] + clean(s, i + 1, alt, refs),
            }
        } else if c == '[' {
            match link_at(s, i, refs) {
                Some((close, next)) => {
                    proof {
                        lemma_link_at_bounds(s, i, refs);
                    }
                    clean(s.subrange(i + 1, close), 0, alt, refs) + clean(s, next, alt, refs)
                },
                None => seq![c] + clean(s, i + 1, alt, refs),
            }
        } else if c == '<' {
            match autolink_at(s, i) {
                Some(e) => {
                    proof {
                        lemma_autolink_end_bounds(s, i + 1);
                    }
                    s.subrange(i + 1, e) + clean(s, e + 1, alt, refs)
                },
                None => seq![c] + clean(s, i + 1, alt, refs),
            }
        } else if c == '`' || c == '*' || c == '~' {
            clean(s, i + 1, alt, refs)
        } else if c == '&' {
            match entity_at(s, i) {
                Some((v, next)) => {
                    proof {
                        lemma_entity_at_bounds(s, i);
                    }
                    seq![v as char] + clean(s, next, alt, refs)
                },
                None => seq![c] + clean(s, i + 1, alt, refs),
            }
        } else if c == '_' {
            match underscore_at(s, i) {
                Some((ao, j, ac)) => {
                    proof {
                        lemma_underscore_at_bounds(s, i);
                    }
                    clean(s.subrange(ao, j), 0, alt, refs) + clean(s, ac, alt, refs)
                },
                None => seq![c] + clean(s, i + 1, alt, refs),
            }
        } else {
            seq![c] + clean(s, i + 1, alt, refs)
        }
    }
}


/// The emphasis and code markers that inline markdown drops.
pub open spec fn is_emphasis_marker(c: char) -> bool {
    c == '*' || c == '`' || c == '~'
}

/// A character that starts no inline markup: not a marker, an escape, a
/// link, image, autolink, entity or underscore.
pub open spec fn is_plain_char(c: char) -> bool {
    !is_emphasis_marker(c) && c != '\\' && c != '!' && c != '[' && c != '<' && c != '&'
        && c != '_'
}

/// `s` without its emphasis and code markers.
pub open spec fn without_markers(s: Seq<char>) -> Seq<char>
    decreases s.len(),
{
    if s.len() == 0 {
        Seq::empty()
    } else if is_emphasis_marker(s[0]) {
        without_markers(s.drop_first())
    } else {
        seq![s[0]] + without_markers(s.drop_first())
    }
}

/// Inline markdown made of plain characters and emphasis or code markers
/// reads as its characters with the markers dropped: `**Bold** move`
/// reads `Bold move`, and no marker of such a text is left.
pub proof fn lemma_clean_drops_markers(s: Seq<char>, alt: bool, refs: Seq<Seq<char>>)
    requires
        forall|k: int| 0 <= k < s.len() ==> is_plain_char(#[trigger] s[k]) || is_emphasis_marker(s[k]),
    ensures
        clean(s, 0, alt, refs) == without_markers(s),
        forall|k: int| 0 <= k < clean(s, 0, alt, refs).len() ==> !is_emphasis_marker(
            #[trigger] clean(s, 0, alt, refs)[k],
        ),
{
    lemma_clean_drops_markers_from(s, 0, alt, refs);
    assert(s.subrange(0, s.len() as int) == s);
    lemma_without_markers_has_none(s);
}

/// A one-line document `## t`, whose text holds plain characters and
/// emphasis or code markers only (no `#`, no line break, no whitespace at
/// its ends), has one heading, of level 2, and its display text is the text
/// with the markers dropped, trimmed: `## **Bold** move` shows `Bold move`.
pub proof fn lemma_heading_text_drops_markers(t: Seq<char>)
    requires
        forall|k: int|
            0 <= k < t.len() ==> (is_plain_char(#[trigger] t[k]) || is_emphasis_marker(t[k]))
                && t[k] != '#' && t[k] != '\n',
        t.len() > 0 ==> !is_ws(t[0]) && !is_ws(t.last()),
    ensures
        spec_extract_headings(seq!['#', '#', ' '] + t).len() == 1,
        spec_extract_headings(seq!['#', '#', ' '] + t)[0].0 == 2,
        spec_extract_headings(seq!['#', '#', ' '] + t)[0].1 == trim(without_markers(t)),
{
    let md = seq!['#', '#', ' '] + t;
    assert forall|k: int| 0 <= k < md.len() implies #[trigger] md[k] != '\n' by {
        if k >= 3 {
            assert(md[k] == t[k - 3]);
        }
    }
    lemma_split_no_newline(md);
    let lines = split_lines(md);
    assert(lines == seq![md]);
    assert(lines.drop_last() =~= Seq::<Seq<char>>::empty());
    assert(lines.last() == md);
    // no fence
    assert(run_len(md, 0, ' ') == 0);
    assert(spec_match_fence(md) is None);
    // no link reference definition
    assert(trim_start(md) == md);
    assert(md.take(0) =~= Seq::<char>::empty());
    assert(spec_ref_of_line(md) is None);
    assert(fence_step(fence_start(), md) == (fence_start(), false));
    let none = Seq::<Seq<char>>::empty();
    assert(refs_scan(none) == (fence_start(), Seq::<Seq<char>>::empty()));
    assert(heading_scan(none) == (fence_start(), Seq::<(nat, Seq<char>)>::empty()));
    let refs = refs_scan(lines).1;
    assert(refs =~= Seq::<Seq<char>>::empty());
    // the heading line
    assert(run_len(md, 3, '#') == 0);
    assert(run_len(md, 2, '#') == 0);
    assert(run_len(md, 1, '#') == 1);
    assert(run_len(md, 0, '#') == 2);
    let rest = md.subrange(2, md.len() as int);
    assert(rest.drop_first() =~= t);
    assert(rest[0] == ' ');
    assert(trim_start(rest) == trim_start(t));
    assert(trim_start(t) == t);
    assert(trim_end(t) == t);
    assert(trim(rest) == t);
    assert(trim_end_c(t, '#') == t);
    assert(spec_parse_heading(md) == Some((2nat, t)));
    let raws = heading_scan(lines).1;
    assert(raws =~= seq![(2nat, t)]);
    lemma_clean_drops_markers(t, false, refs);
    assert(spec_extract_headings(md)[0] == heading_view_at(raws, refs, 0));
}

/// A text with no line break is one line.
proof fn lemma_split_no_newline(s: Seq<char>)
    requires
        forall|k: int| 0 <= k < s.len() ==> #[trigger] s[k] != '\n',
    ensures
        split_lines(s) == seq![s],
    decreases s.len(),
{
    if s.len() > 0 {
        lemma_split_no_newline(s.drop_last());
        assert(s.drop_last().push(s.last()) == s);
        assert(s[s.len() - 1] != '\n');
    } else {
        assert(s =~= Seq::<char>::empty());
    }
}

proof fn lemma_clean_drops_markers_from(s: Seq<char>, i: int, alt: bool, refs: Seq<Seq<char>>)
    requires
        0 <= i <= s.len(),
        forall|k: int| 0 <= k < s.len() ==> is_plain_char(#[trigger] s[k]) || is_emphasis_marker(s[k]),
    ensures
        clean(s, i, alt, refs) == without_markers(s.subrange(i, s.len() as int)),
    decreases s.len() - i,
{
    let t = s.subrange(i, s.len() as int);
    if i < s.len() {
        lemma_clean_drops_markers_from(s, i + 1, alt, refs);
        assert(t[0] == s[i]);
        assert(t.drop_first() == s.subrange(i + 1, s.len() as int));
    } else {
        assert(t.len() == 0);
    }
}

proof fn lemma_without_markers_has_none(s: Seq<char>)
    ensures
        forall|k: int| 0 <= k < without_markers(s).len() ==> !is_emphasis_marker(
            #[trigger] without_markers(s)[k],
        ),
    decreases s.len(),
{
    if s.len() > 0 {
        lemma_without_markers_has_none(s.drop_first());
        let w = without_markers(s.drop_first());
        if !is_emphasis_marker(s[0]) {
            assert forall|k: int| 0 <= k < without_markers(s).len() implies !is_emphasis_marker(
                #[trigger] without_markers(s)[k],
            ) by {
                if k > 0 {
                    assert(without_markers(s)[k] == w[k - 1]);
                }
            }
        }
    }
}
} // verus!

verus! {

fn find_close(s: &Vec<char>, start: usize, open: char, close: char) -> (r: Option<usize>)
    requires
        start < s.len(),
        s@[start as int] == open,
        open != close,
    ensures
        r matches Some(k) ==> bracket_close(s@, start as int, 0, open, close) == Some(k as int),
        r is None ==> bracket_close(s@, start as int, 0, open, close) is None,
{
    let mut depth: usize = 0;
    let mut j = start;
    while j < s.len()
        invariant
            start <= j <= s.len(),
            s@[start as int] == open,
            open != close,
            j == start ==> depth == 0,
            j > start ==> depth >= 1,
            depth <= j - start,
            bracket_close(s@, start as int, 0, open, close) == bracket_close(
                s@,
                j as int,
                depth as int,
                open,
                close,
            ),
        decreases s.len() - j,
    {
        let c = s[j];
        if c == open {
            depth += 1;
        } else if c == close {
            if depth == 1 {
                return Some(j);
            }
            depth -= 1;
        }
        j += 1;
    }
    None
}

fn link_at_exec(s: &Vec<char>, start: usize, refs: &Vec<Vec<char>>) -> (r: Option<(usize, usize)>)
    requires
        start < s.len(),
        s@[start as int] == '[',
    ensures
        r matches Some(t) ==> link_at(s@, start as int, seqs_of(refs@)) == Some(
            (t.0 as int, t.1 as int),
        ),
        r is None ==> link_at(s@, start as int, seqs_of(refs@)) is None,
{
    proof {
        lemma_bracket_close_bounds(s@, start as int, 0, '[', ']');
    }
    let close = match find_close(s, start, '[', ']') {
        Some(c) => c,
        None => return None,
    };
    if close + 1 < s.len() && s[close + 1] == '(' {
        proof {
            lemma_bracket_close_bounds(s@, close + 1, 0, '(', ')');
        }
        match find_close(s, close + 1, '(', ')') {
            Some(p) => Some((close, p + 1)),
            None => None,
        }
    } else if close + 1 < s.len() && s[close + 1] == '[' {
        match find(s, close + 2, ']') {
            None => None,
            Some(rc) => {
                proof {
                    lemma_find_char_bounds(s@, close + 2, ']');
                }
                if rc == close + 2 {
                    Some((close, rc + 1))
                } else {
                    let label = slice_of(s, close + 2, rc);
                    let norm = normalize_label(&label);
                    if contains_seq(refs, &norm) {
                        Some((close, rc + 1))
                    } else {
                        None
                    }
                }
            },
        }
    } else {
        None
    }
}

fn autolink_exec(s: &Vec<char>, start: usize) -> (r: Option<usize>)
    requires
        start < s.len(),
    ensures
        r matches Some(e) ==> autolink_at(s@, start as int) == Some(e as int),
        r is None ==> autolink_at(s@, start as int) is None,
{
    let mut j = start + 1;
    while j < s.len()
        invariant
            start + 1 <= j <= s.len(),
            autolink_end(s@, start + 1) == autolink_end(s@, j as int),
        decreases s.len() - j,
    {
        let c = s[j];
        if c == '>' {
            let inner = slice_of(s, start + 1, j);
            if vec_contains(&inner, ':') || vec_contains(&inner, '@') {
                return Some(j);
            } else {
                return None;
            }
        }
        if is_whitespace(c) || c == '<' {
            return None;
        }
        j += 1;
    }
    None
}

fn vec_contains(v: &Vec<char>, c: char) -> (r: bool)
    ensures
        r == v@.contains(c),
{
    let mut i: usize = 0;
    while i < v.len()
        invariant
            i <= v.len(),
            forall|k: int| 0 <= k < i ==> v@[k] != c,
        decreases v.len() - i,
    {
        if v[i] == c {
            assert(v@[i as int] == c);
            return true;
        }
        i += 1;
    }
    false
}

pub(crate) fn digit_value_exec(c: char, radix: u32) -> (r: Option<u32>)
    requires
        radix == 10 || radix == 16,
    ensures
        r matches Some(d) ==> digit_value(c, radix as int) == Some(d as int),
        r is None ==> digit_value(c, radix as int) is None,
        r matches Some(d) ==> d < 16,
{
    let v = c as u32;
    if 0x30 <= v && v <= 0x39 && v - 0x30 < radix {
        Some(v - 0x30)
    } else if radix == 16 && 0x61 <= v && v <= 0x66 {
        Some(v - 0x61 + 10)
    } else if radix == 16 && 0x41 <= v && v <= 0x46 {
        Some(v - 0x41 + 10)
    } else {
        None
    }
}

proof fn lemma_digits_grow(s: Seq<char>, i: int, radix: int, v: int)
    requires
        0 <= i <= s.len(),
        radix == 10 || radix == 16,
        digits_value(s.take(i), radix) == Some(v),
        v >= 0,
    ensures
        digits_value(s, radix) matches Some(w) ==> w >= v,
    decreases s.len() - i,
{
    if i == s.len() {
        assert(s.take(i) == s);
    } else {
        assert(s.take(i + 1).drop_last() == s.take(i));
        match digit_value(s[i], radix) {
            Some(d) => {
                assert(s.take(i + 1).last() == s[i]);
                assert(v * radix >= v) by (nonlinear_arith)
                    requires
                        v >= 0,
                        radix >= 1,
                ;
                lemma_digits_grow(s, i + 1, radix, v * radix + d);
            },
            None => {
                lemma_digits_none(s, i + 1, radix);
            },
        }
    }
}

proof fn lemma_digits_none(s: Seq<char>, i: int, radix: int)
    requires
        0 <= i <= s.len(),
        digits_value(s.take(i), radix) is None,
    ensures
        digits_value(s, radix) is None,
    decreases s.len() - i,
{
    if i == s.len() {
        assert(s.take(i) == s);
    } else {
        assert(s.take(i + 1).drop_last() == s.take(i));
        lemma_digits_none(s, i + 1, radix);
    }
}

/// The value of the digits `s[lo..hi]` when it fits in `u32`.
fn digits_exec(s: &Vec<char>, lo: usize, hi: usize, radix: u32) -> (r: Option<u32>)
    requires
        lo <= hi <= s.len(),
        radix == 10 || radix == 16,
    ensures
        r matches Some(v) ==> digits_value(s@.subrange(lo as int, hi as int), radix as int)
            == Some(v as int),
        r is None ==> match digits_value(s@.subrange(lo as int, hi as int), radix as int) {
            Some(w) => w > 0xFFFF_FFFF,
            None => true,
        },
{
    let ghost body = s@.subrange(lo as int, hi as int);
    let mut acc: u64 = 0;
    let mut i = lo;
    assert(body.take(0) =~= Seq::<char>::empty());
    while i < hi
        invariant
            lo <= i <= hi <= s.len(),
            radix == 10 || radix == 16,
            body == s@.subrange(lo as int, hi as int),
            digits_value(body.take(i - lo), radix as int) == Some(acc as int),
            acc <= 0xFFFF_FFFF,
        decreases hi - i,
    {
        assert(body.take(i - lo + 1).drop_last() == body.take(i - lo));
        assert(body.take(i - lo + 1).last() == s@[i as int]);
        match digit_value_exec(s[i], radix) {
            None => {
                proof {
                    lemma_digits_none(body, i - lo + 1, radix as int);
                }
                return None;
            },
            Some(d) => {
                assert(acc * (radix as u64) + (d as u64) <= 0xFFFF_FFFF * 16 + 16) by (nonlinear_arith)
                    requires
                        acc <= 0xFFFF_FFFF,
                        radix <= 16,
                        d <= 16,
                ;
                acc = acc * (radix as u64) + (d as u64);
                i += 1;
                if acc > 0xFFFF_FFFF {
                    proof {
                        lemma_digits_grow(body, i - lo, radix as int, acc as int);
                    }
                    return None;
                }
            },
        }
    }
    assert(body.take(hi - lo) == body);
    Some(acc as u32)
}

/// `u32::from_str_radix(s[lo..hi], radix)`.
pub(crate) fn parse_u32_exec(s: &Vec<char>, lo: usize, hi: usize, radix: u32) -> (r: Option<u32>)
    requires
        lo <= hi <= s.len(),
        radix == 10 || radix == 16,
    ensures
        r matches Some(v) ==> parse_u32(s@.subrange(lo as int, hi as int), radix as int) == Some(
            v as int,
        ),
        r is None ==> parse_u32(s@.subrange(lo as int, hi as int), radix as int) is None,
{
    let ghost whole = s@.subrange(lo as int, hi as int);
    let start = if lo < hi && s[lo] == '+' {
        lo + 1
    } else {
        lo
    };
    assert(s@.subrange(start as int, hi as int) == (if whole.len() > 0 && whole[0] == '+' {
        whole.skip(1)
    } else {
        whole
    }));
    if start == hi {
        return None;
    }
    digits_exec(s, start, hi, radix)
}

fn decode_entity_exec(s: &Vec<char>, lo: usize, hi: usize) -> (r: Option<char>)
    requires
        lo <= hi <= s.len(),
    ensures
        r matches Some(c) ==> decode_entity(s@.subrange(lo as int, hi as int)) == Some(c as int),
        r is None ==> decode_entity(s@.subrange(lo as int, hi as int)) is None,
{
    let ent = slice_of(s, lo, hi);
    if eq_lit(&ent, "amp") {
        return Some('&');
    }
    if eq_lit(&ent, "lt") {
        return Some('<');
    }
    if eq_lit(&ent, "gt") {
        return Some('>');
    }
    if eq_lit(&ent, "quot") {
        return Some('"');
    }
    if eq_lit(&ent, "apos") {
        return Some('\'');
    }
    if eq_lit(&ent, "nbsp") {
        return Some('\u{a0}');
    }
    let num = if ent.len() >= 2 && ent[0] == '#' && (ent[1] == 'x' || ent[1] == 'X') {
        assert(ent@.skip(2) == s@.subrange(lo + 2, hi as int));
        parse_u32_exec(s, lo + 2, hi, 16)
    } else if ent.len() >= 1 && ent[0] == '#' {
        assert(ent@.skip(1) == s@.subrange(lo + 1, hi as int));
        parse_u32_exec(s, lo + 1, hi, 10)
    } else {
        None
    };
    match num {
        Some(v) => char_from_u32(v),
        None => None,
    }
}

fn entity_exec(s: &Vec<char>, start: usize) -> (r: Option<(char, usize)>)
    requires
        start < s.len(),
    ensures
        r matches Some(t) ==> entity_at(s@, start as int) == Some((t.0 as int, t.1 as int)),
        r is None ==> entity_at(s@, start as int) is None,
{
    let avail = s.len() - start - 1;
    let lim = if avail < 32 {
        avail
    } else {
        32
    };
    let window = slice_of(s, start + 1, start + 1 + lim);
    let semi = match find(&window, 0, ';') {
        Some(k) => k,
        None => return None,
    };
    proof {
        lemma_find_char_bounds(window@, 0, ';');
    }
    let ghost ent = s@.subrange(start + 1, start + 1 + semi);
    if semi == 0 {
        return None;
    }
    if has_ws(s, start + 1, start + 1 + semi) {
        return None;
    }
    match decode_entity_exec(s, start + 1, start + 1 + semi) {
        Some(c) => Some((c, start + 1 + semi + 1)),
        None => None,
    }
}

/// Whether `s[lo..hi]` holds a whitespace character.
fn has_ws(s: &Vec<char>, lo: usize, hi: usize) -> (r: bool)
    requires
        lo <= hi <= s.len(),
    ensures
        r == has_ws_char(s@.subrange(lo as int, hi as int)),
{
    let ghost ent = s@.subrange(lo as int, hi as int);
    let mut k = lo;
    while k < hi
        invariant
            lo <= k <= hi <= s.len(),
            ent == s@.subrange(lo as int, hi as int),
            forall|m: int| 0 <= m < k - lo ==> !is_ws(#[trigger] ent[m]),
        decreases hi - k,
    {
        if is_whitespace(s[k]) {
            assert(is_ws(ent[k - lo]));
            return true;
        }
        k += 1;
    }
    false
}

fn underscore_exec(s: &Vec<char>, start: usize) -> (r: Option<(usize, usize, usize)>)
    requires
        start < s.len(),
        s@[start as int] == '_',
    ensures
        r matches Some(t) ==> underscore_at(s@, start as int) == Some(
            (t.0 as int, t.1 as int, t.2 as int),
        ),
        r is None ==> underscore_at(s@, start as int) is None,
{
    if start > 0 && is_alphanumeric(s[start - 1]) {
        return None;
    }
    let open_len = count_run(s, start, '_');
    let ao = start + open_len;
    if ao >= s.len() || is_whitespace(s[ao]) || s[ao] == '_' {
        return None;
    }
    let mut j = ao;
    while j < s.len()
        invariant
            1 <= ao <= j <= s.len(),
            underscore_at(s@, start as int) == match underscore_close(s@, j as int) {
                Some((c, ac)) => Some((ao as int, c, ac)),
                None => None,
            },
        decreases s.len() - j,
    {
        if s[j] == '_' && !is_whitespace(s[j - 1]) {
            let close_len = count_run(s, j, '_');
            let ac = j + close_len;
            let next_ok = if ac < s.len() {
                !is_alphanumeric(s[ac])
            } else {
                true
            };
            if next_ok {
                return Some((ao, j, ac));
            }
            j = ac;
        } else {
            j += 1;
        }
    }
    None
}

/// Inline markdown resolved to text (see `clean`).
#[verifier::spinoff_prover]
#[verifier::rlimit(40)]
fn clean_inline(s: &Vec<char>, alt: bool, refs: &Vec<Vec<char>>) -> (out: Vec<char>)
    ensures
        out@ == clean(s@, 0, alt, seqs_of(refs@)),
    decreases s@.len(),
{
    let ghost r = seqs_of(refs@);
    let mut out: Vec<char> = Vec::new();
    let mut i: usize = 0;
    while i < s.len()
        invariant
            i <= s.len(),
            r == seqs_of(refs@),
            out@ + clean(s@, i as int, alt, r) == clean(s@, 0, alt, r),
        decreases s.len() - i,
    {
        let ghost before = out@;
        let ghost i0 = i as int;
        let c = s[i];
        if c == '\\' && i + 1 < s.len() && is_ascii_punctuation(s[i + 1]) {
            out.push(s[i + 1]);
            i += 2;
            assert(out@ + clean(s@, i as int, alt, r) =~= before + clean(s@, i0, alt, r));
        } else if c == '!' && i + 1 < s.len() && s[i + 1] == '[' {
            proof {
                lemma_link_at_bounds(s@, i + 1, r);
            }
            match link_at_exec(s, i + 1, refs) {
                Some((close, next)) => {
                    if alt {
                        let label = slice_of(s, i + 2, close);
                        let inner = clean_inline(&label, alt, refs);
                        push_all(&mut out, &inner);
                    }
                    i = next;
                    assert(out@ + clean(s@, i as int, alt, r) =~= before + clean(s@, i0, alt, r));
                },
                None => {
                    out.push(c);
                    i += 1;
                    assert(out@ + clean(s@, i as int, alt, r) =~= before + clean(s@, i0, alt, r));
                },
            }
        } else if c == '[' {
            proof {
                lemma_link_at_bounds(s@, i as int, r);
            }
            match link_at_exec(s, i, refs) {
                Some((close, next)) => {
                    let label = slice_of(s, i + 1, close);
                    let inner = clean_inline(&label, alt, refs);
                    push_all(&mut out, &inner);
                    i = next;
                    assert(out@ + clean(s@, i as int, alt, r) =~= before + clean(s@, i0, alt, r));
                },
                None => {
                    out.push(c);
                    i += 1;
                    assert(out@ + clean(s@, i as int, alt, r) =~= before + clean(s@, i0, alt, r));
                },
            }
        } else if c == '<' {
            proof {
                lemma_autolink_end_bounds(s@, i + 1);
            }
            match autolink_exec(s, i) {
                Some(e) => {
                    let inner = slice_of(s, i + 1, e);
                    push_all(&mut out, &inner);
                    i = e + 1;
                    assert(out@ + clean(s@, i as int, alt, r) =~= before + clean(s@, i0, alt, r));
                },
                None => {
                    out.push(c);
                    i += 1;
                    assert(out@ + clean(s@, i as int, alt, r) =~= before + clean(s@, i0, alt, r));
                },
            }
        } else if c == '`' || c == '*' || c == '~' {
            i += 1;
            assert(out@ + clean(s@, i as int, alt, r) =~= before + clean(s@, i0, alt, r));
        } else if c == '&' {
            proof {
                lemma_entity_at_bounds(s@, i as int);
            }
            match entity_exec(s, i) {
                Some((d, next)) => {
                    out.push(d);
                    i = next;
                    assert(out@ + clean(s@, i as int, alt, r) =~= before + clean(s@, i0, alt, r));
                },
                None => {
                    out.push(c);
                    i += 1;
                    assert(out@ + clean(s@, i as int, alt, r) =~= before + clean(s@, i0, alt, r));
                },
            }
        } else if c == '_' {
            proof {
                lemma_underscore_at_bounds(s@, i as int);
            }
            match underscore_exec(s, i) {
                Some((ao, j, ac)) => {
                    let inner_src = slice_of(s, ao, j);
                    let inner = clean_inline(&inner_src, alt, refs);
                    push_all(&mut out, &inner);
                    i = ac;
                    assert(out@ + clean(s@, i as int, alt, r) =~= before + clean(s@, i0, alt, r));
                },
                None => {
                    out.push(c);
                    i += 1;
                    assert(out@ + clean(s@, i as int, alt, r) =~= before + clean(s@, i0, alt, r));
                },
            }
        } else {
            out.push(c);
            i += 1;
            assert(out@ + clean(s@, i as int, alt, r) =~= before + clean(s@, i0, alt, r));
        }
    }
    out
}

} // verus!

verus! {

// ---------------------------------------------------------------------
// document scans
// ---------------------------------------------------------------------

/// Fence state after `lines` and the normalized labels of the link
/// reference definitions among them (fenced lines excluded).
pub open spec fn refs_scan(lines: Seq<Seq<char>>) -> (FenceView, Seq<Seq<char>>)
    decreases lines.len(),
{
    if lines.len() == 0 {
        (fence_start(), Seq::empty())
    } else {
        let prev = refs_scan(lines.drop_last());
        let step = fence_step(prev.0, lines.last());
        if step.1 {
            (step.0, prev.1)
        } else {
            match spec_ref_of_line(lines.last()) {
                Some(r) => (step.0, prev.1.push(r)),
                None => (step.0, prev.1),
            }
        }
    }
}

/// Fence state after `lines` and the `(level, raw text)` of the ATX
/// headings among them (fenced lines excluded), in document order.
pub open spec fn heading_scan(lines: Seq<Seq<char>>) -> (FenceView, Seq<(nat, Seq<char>)>)
    decreases lines.len(),
{
    if lines.len() == 0 {
        (fence_start(), Seq::empty())
    } else {
        let prev = heading_scan(lines.drop_last());
        let step = fence_step(prev.0, lines.last());
        if step.1 {
            (step.0, prev.1)
        } else {
            match spec_parse_heading(lines.last()) {
                Some(h) => (step.0, prev.1.push(h)),
                None => (step.0, prev.1),
            }
        }
    }
}

/// The link reference definitions of a document, as `refs_scan` collects
/// them.
fn collect_link_definitions(lines: &Vec<Vec<char>>) -> (refs: Vec<Vec<char>>)
    ensures
        seqs_of(refs@) == refs_scan(seqs_of(lines@)).1,
{
    let ghost ls = seqs_of(lines@);
    let mut fence = Fence { in_fence: false, marker: '`', count: 0 };
    let mut refs: Vec<Vec<char>> = Vec::new();
    let mut i: usize = 0;
    assert(ls.take(0) =~= Seq::<Seq<char>>::empty());
    while i < lines.len()
        invariant
            i <= lines.len(),
            ls == seqs_of(lines@),
            fence.view() == refs_scan(ls.take(i as int)).0,
            seqs_of(refs@) == refs_scan(ls.take(i as int)).1,
        decreases lines.len() - i,
    {
        assert(ls.take(i + 1).drop_last() == ls.take(i as int));
        assert(ls.take(i + 1).last() == lines@[i as int]@);
        let ghost prev = refs@;
        let skip = fence_advance(&mut fence, &lines[i]);
        if !skip {
            match ref_of_line(&lines[i]) {
                Some(r) => {
                    refs.push(r);
                    assert(seqs_of(refs@) =~= seqs_of(prev).push(r@));
                },
                None => {},
            }
        }
        i += 1;
    }
    assert(ls.take(lines.len() as int) == ls);
    refs
}

// ---------------------------------------------------------------------
// slugs
// ---------------------------------------------------------------------

/// JS `\s` (what the page script's slug regex treats as whitespace):
/// unlike Unicode `White_Space` it has U+FEFF and lacks U+0085.
pub open spec fn is_js_ws(c: char) -> bool {
    let v = c as int;
    ||| 0x09 <= v <= 0x0D
    ||| v == 0x20
    ||| v == 0xA0
    ||| v == 0x1680
    ||| 0x2000 <= v <= 0x200A
    ||| v == 0x2028
    ||| v == 0x2029
    ||| v == 0x202F
    ||| v == 0x205F
    ||| v == 0x3000
    ||| v == 0xFEFF
}

fn is_js_whitespace(c: char) -> (r: bool)
    ensures
        r == is_js_ws(c),
{
    let v = c as u32;
    (0x09 <= v && v <= 0x0D) || v == 0x20 || v == 0xA0 || v == 0x1680 || (0x2000 <= v && v
        <= 0x200A) || v == 0x2028 || v == 0x2029 || v == 0x202F || v == 0x205F || v == 0x3000
        || v == 0xFEFF
}

/// Characters a slug keeps: `[a-z0-9_-]`.
pub open spec fn slug_keep(c: char) -> bool {
    ('a' <= c && c <= 'z') || ('0' <= c && c <= '9') || c == '_' || c == '-'
}

/// Kept characters, with each whitespace character turned into `-` and
/// everything else dropped.
pub open spec fn slug_prep(s: Seq<char>) -> Seq<char>
    decreases s.len(),
{
    if s.len() == 0 {
        s
    } else {
        let p = slug_prep(s.drop_last());
        let c = s.last();
        if slug_keep(c) {
            p.push(c)
        } else if is_js_ws(c) {
            p.push('-')
        } else {
            p
        }
    }
}

/// The slug of an already lowercased text: the page script's
/// `.replace(/[^\w\s-]/g, '').replace(/\s+/g, '-').replace(/-+/g, '-')
/// .replace(/^-|-$/g, '')`.
pub open spec fn slug_of_lower(s: Seq<char>) -> Seq<char> {
    trim_c(collapse_c(slug_prep(s), '-'), '-')
}

/// The slug of a text: lowercase it, then `slug_of_lower`.
pub open spec fn spec_slugify(s: Seq<char>) -> Seq<char> {
    slug_of_lower(str_lowercase(s))
}

fn slug_chars(v: &Vec<char>) -> (r: Vec<char>)
    ensures
        r@ == slug_of_lower(v@),
{
    let mut p: Vec<char> = Vec::new();
    let mut i: usize = 0;
    while i < v.len()
        invariant
            i <= v.len(),
            p@ == slug_prep(v@.take(i as int)),
        decreases v.len() - i,
    {
        let c = v[i];
        assert(v@.take(i + 1).drop_last() == v@.take(i as int));
        if ('a' <= c && c <= 'z') || ('0' <= c && c <= '9') || c == '_' || c == '-' {
            p.push(c);
        } else if is_js_whitespace(c) {
            p.push('-');
        }
        i += 1;
    }
    assert(v@.take(v.len() as int) == v@);
    let q = collapse(&p, '-');
    trim_char(&q, '-')
}

/// The slug of a text that is already lowercase (see `slug_of_lower`).
pub fn slug_from_lowercase(lower: &str) -> (r: String)
    ensures
        r@ == slug_of_lower(lower@),
{
    let v = chars_of(lower);
    let s = slug_chars(&v);
    string_of(&s)
}

/// The heading slug, identical to the page script's `slugify`: lowercase,
/// drop everything but `[a-z0-9_]`, whitespace and `-`, turn whitespace runs
/// into `-`, squeeze `-` runs, trim `-` at both ends.
pub fn slugify(s: &str) -> (r: String)
    ensures
        r@ == spec_slugify(s@),
{
    let lower = to_lowercase(s);
    slug_from_lowercase(lower.as_str())
}

// ---------------------------------------------------------------------
// ids
// ---------------------------------------------------------------------

/// How many elements of `s` equal `x`.
pub open spec fn count_eq(s: Seq<Seq<char>>, x: Seq<char>) -> nat
    decreases s.len(),
{
    if s.len() == 0 {
        0
    } else {
        count_eq(s.drop_last(), x) + if s.last() == x {
            1nat
        } else {
            0nat
        }
    }
}

/// The id of the `k`-th heading given every heading's slug: the slug on its
/// first occurrence, `slug-n` on the occurrence after `n` earlier ones.
pub open spec fn dedup_id(bases: Seq<Seq<char>>, k: int) -> Seq<char> {
    let n = count_eq(bases.take(k), bases[k]);
    if n == 0 {
        bases[k]
    } else {
        bases[k] + seq!['-'] + decimal(n)
    }
}

/// The slugs of raw headings (their text with image alt text kept).
pub open spec fn heading_bases(raws: Seq<(nat, Seq<char>)>, refs: Seq<Seq<char>>) -> Seq<
    Seq<char>,
> {
    raws.map_values(|h: (nat, Seq<char>)| spec_slugify(clean(h.1, 0, true, refs)))
}

/// The `k`-th heading: its level, its display text (inline markdown
/// resolved without image alt text, trimmed) and its id.
pub open spec fn heading_view_at(raws: Seq<(nat, Seq<char>)>, refs: Seq<Seq<char>>, k: int) -> (
    nat,
    Seq<char>,
    Seq<char>,
) {
    (raws[k].0, trim(clean(raws[k].1, 0, false, refs)), dedup_id(heading_bases(raws, refs), k))
}

/// The headings of a markdown document, in document order.
pub open spec fn spec_extract_headings(md: Seq<char>) -> Seq<(nat, Seq<char>, Seq<char>)> {
    let lines = split_lines(md);
    let refs = refs_scan(lines).1;
    let raws = heading_scan(lines).1;
    Seq::new(raws.len(), |k: int| heading_view_at(raws, refs, k))
}

fn count_equal(bases: &Vec<Vec<char>>, x: &Vec<char>) -> (n: u64)
    requires
        bases.len() <= u64::MAX,
    ensures
        n == count_eq(seqs_of(bases@), x@),
{
    let ghost bs = seqs_of(bases@);
    let mut n: u64 = 0;
    let mut j: usize = 0;
    while j < bases.len()
        invariant
            j <= bases.len() <= u64::MAX,
            bs == seqs_of(bases@),
            n == count_eq(bs.take(j as int), x@),
            n <= j,
        decreases bases.len() - j,
    {
        assert(bs.take(j + 1).drop_last() == bs.take(j as int));
        assert(bs.take(j + 1).last() == bases@[j as int]@);
        if chars_eq(&bases[j], x) {
            n += 1;
        }
        j += 1;
    }
    assert(bs.take(bases.len() as int) == bs);
    n
}

proof fn lemma_view_at_prefix(
    raws: Seq<(nat, Seq<char>)>,
    x: (nat, Seq<char>),
    refs: Seq<Seq<char>>,
    k: int,
)
    requires
        0 <= k < raws.len(),
    ensures
        heading_view_at(raws.push(x), refs, k) == heading_view_at(raws, refs, k),
{
    let b1 = heading_bases(raws.push(x), refs);
    let b0 = heading_bases(raws, refs);
    assert(b1.take(k) =~= b0.take(k));
    assert(b1[k] == b0[k]);
}

/// Headings of a markdown document for the Navigator: ATX headings outside
/// fenced code, ids deduplicated exactly as the page script does.
pub fn extract_headings(markdown: &str) -> (r: Vec<Heading>)
    ensures
        r@.map_values(|h: Heading| h@) == spec_extract_headings(markdown@),
{
    let md = chars_of(markdown);
    let lines = lines_of(&md);
    let ghost ls = seqs_of(lines@);
    let refs = collect_link_definitions(&lines);
    let ghost rs = seqs_of(refs@);
    let mut fence = Fence { in_fence: false, marker: '`', count: 0 };
    let mut results: Vec<Heading> = Vec::new();
    let mut bases: Vec<Vec<char>> = Vec::new();
    let ghost mut raws: Seq<(nat, Seq<char>)> = Seq::empty();
    let mut i: usize = 0;
    assert(ls.take(0) =~= Seq::<Seq<char>>::empty());
    while i < lines.len()
        invariant
            i <= lines.len(),
            ls == seqs_of(lines@),
            rs == seqs_of(refs@),
            fence.view() == heading_scan(ls.take(i as int)).0,
            raws == heading_scan(ls.take(i as int)).1,
            raws.len() == results.len(),
            raws.len() <= i,
            seqs_of(bases@) == heading_bases(raws, rs),
            forall|k: int| 0 <= k < raws.len() ==> results@[k]@ == heading_view_at(raws, rs, k),
        decreases lines.len() - i,
    {
        assert(ls.take(i + 1).drop_last() == ls.take(i as int));
        assert(ls.take(i + 1).last() == lines@[i as int]@);
        let skip = fence_advance(&mut fence, &lines[i]);
        if !skip {
            match parse_heading(&lines[i]) {
                Some((level, raw)) => {
                    let slug_source = clean_inline(&raw, true, &refs);
                    let shown = clean_inline(&raw, false, &refs);
                    let text = trim_range(&shown, 0, shown.len());
                    assert(shown@.subrange(0, shown.len() as int) == shown@);
                    let lower = lowercase_chars(&slug_source);
                    let base = slug_chars(&lower);
                    let n = count_equal(&bases, &base);
                    let mut id: Vec<char> = Vec::new();
                    push_all(&mut id, &base);
                    if n != 0 {
                        id.push('-');
                        push_decimal(&mut id, n);
                    }
                    let ghost old_raws = raws;
                    let ghost old_bases = bases@;
                    proof {
                        raws = raws.push((level as nat, raw@));
                    }
                    assert(base@ == spec_slugify(clean(raw@, 0, true, rs)));
                    bases.push(base);
                    assert(heading_bases(raws, rs) =~= heading_bases(old_raws, rs).push(
                        spec_slugify(clean(raw@, 0, true, rs)),
                    ));
                    assert(seqs_of(bases@) =~= seqs_of(old_bases).push(base@));
                    assert(seqs_of(bases@) =~= heading_bases(raws, rs));
                    assert(seqs_of(old_bases) =~= seqs_of(bases@).take(old_raws.len() as int));
                    let h = Heading { level, text: string_of(&text), id: string_of(&id) };
                    results.push(h);
                    assert forall|k: int| 0 <= k < raws.len() implies results@[k]@
                        == heading_view_at(raws, rs, k) by {
                        if k < old_raws.len() {
                            lemma_view_at_prefix(old_raws, (level as nat, raw@), rs, k);
                        } else {
                            assert(k == old_raws.len());
                            assert(id@ =~= dedup_id(heading_bases(raws, rs), k));
                        }
                    }
                },
                None => {},
            }
        }
        i += 1;
    }
    assert(ls.take(lines.len() as int) == ls);
    assert(results@.map_values(|h: Heading| h@) =~= Seq::new(
        raws.len(),
        |k: int| heading_view_at(raws, rs, k),
    ));
    results
}

} // verus!

verus! {

// ---------------------------------------------------------------------
// entities
// ---------------------------------------------------------------------

/// `s` from index `i` on with its entities decoded (see `entity_at`).
pub open spec fn decode(s: Seq<char>, i: int) -> Seq<char>
    decreases s.len() - i,
{
    if i < 0 || i >= s.len() {
        Seq::empty()
    } else if s[i] == '&' {
        match entity_at(s, i) {
            Some((v, next)) => {
                proof {
                    lemma_entity_at_bounds(s, i);
                }
                seq![v as char] + decode(s, next)
            },
            None => seq![s[i]] + decode(s, i + 1),
        }
    } else {
        seq![s[i]] + decode(s, i + 1)
    }
}

/// `text` with `&amp;`, `&lt;`, `&gt;`, `&quot;`, `&apos;`, `&nbsp;` and
/// numeric character references decoded.
pub fn decode_entities(text: &str) -> (r: String)
    ensures
        r@ == decode(text@, 0),
{
    let s = chars_of(text);
    let mut out: Vec<char> = Vec::new();
    let mut i: usize = 0;
    while i < s.len()
        invariant
            i <= s.len(),
            out@ + decode(s@, i as int) == decode(s@, 0),
        decreases s.len() - i,
    {
        let ghost before = out@;
        let ghost i0 = i as int;
        if s[i] == '&' {
            proof {
                lemma_entity_at_bounds(s@, i as int);
            }
            match entity_exec(&s, i) {
                Some((c, next)) => {
                    out.push(c);
                    i = next;
                },
                None => {
                    out.push('&');
                    i += 1;
                },
            }
        } else {
            out.push(s[i]);
            i += 1;
        }
        assert(out@ + decode(s@, i as int) =~= before + decode(s@, i0));
    }
    string_of(&out)
}

// ---------------------------------------------------------------------
// laws of slugs
// ---------------------------------------------------------------------

/// Every character is one a slug keeps.
pub open spec fn all_keep(t: Seq<char>) -> bool {
    forall|k: int| 0 <= k < t.len() ==> slug_keep(#[trigger] t[k])
}

/// No two `c` side by side.
pub open spec fn no_double(t: Seq<char>, c: char) -> bool {
    forall|k: int| 0 <= k < t.len() - 1 ==> !(#[trigger] t[k] == c && t[k + 1] == c)
}

/// What a slug looks like: `[a-z0-9_-]` only, no `--`, no `-` at either end.
pub open spec fn is_slug(t: Seq<char>) -> bool {
    &&& all_keep(t)
    &&& no_double(t, '-')
    &&& t.len() > 0 ==> t[0] != '-' && t.last() != '-'
}

proof fn lemma_prep_keep(s: Seq<char>)
    ensures
        all_keep(slug_prep(s)),
    decreases s.len(),
{
    if s.len() > 0 {
        lemma_prep_keep(s.drop_last());
    }
}

proof fn lemma_prep_id(s: Seq<char>)
    requires
        all_keep(s),
    ensures
        slug_prep(s) == s,
    decreases s.len(),
{
    if s.len() > 0 {
        lemma_prep_id(s.drop_last());
        assert(s.drop_last().push(s.last()) =~= s);
    }
}

proof fn lemma_collapse_props(s: Seq<char>, c: char)
    ensures
        all_keep(s) ==> all_keep(collapse_c(s, c)),
        no_double(collapse_c(s, c), c),
        collapse_c(s, c).len() > 0 ==> collapse_c(s, c).last() == s.last(),
        collapse_c(s, c).len() == 0 <==> s.len() == 0,
    decreases s.len(),
{
    if s.len() > 0 {
        lemma_collapse_props(s.drop_last(), c);
        let p = collapse_c(s.drop_last(), c);
        if all_keep(s) {
            assert(all_keep(s.drop_last()));
        }
        if !(s.last() == c && p.len() > 0 && p.last() == c) {
            let q = p.push(s.last());
            assert forall|k: int| 0 <= k < q.len() - 1 implies !(#[trigger] q[k] == c && q[k + 1]
                == c) by {
                if k < p.len() - 1 {
                    assert(q[k] == p[k] && q[k + 1] == p[k + 1]);
                }
            }
        } else {
            assert(s.drop_last().len() > 0);
        }
    }
}

proof fn lemma_collapse_id(s: Seq<char>, c: char)
    requires
        no_double(s, c),
    ensures
        collapse_c(s, c) == s,
    decreases s.len(),
{
    if s.len() > 0 {
        let d = s.drop_last();
        assert(no_double(d, c)) by {
            assert forall|k: int| 0 <= k < d.len() - 1 implies !(#[trigger] d[k] == c && d[k + 1]
                == c) by {
                assert(d[k] == s[k] && d[k + 1] == s[k + 1]);
            }
        }
        lemma_collapse_id(d, c);
        if s.len() >= 2 {
            assert(!(s[s.len() - 2] == c && s[s.len() - 1] == c));
        }
        assert(d.push(s.last()) =~= s);
    }
}

proof fn lemma_trim_start_sub(s: Seq<char>, c: char)
    ensures
        exists|i: int|
            0 <= i <= s.len() && #[trigger] trim_start_c(s, c) == s.subrange(i, s.len() as int),
        trim_start_c(s, c).len() > 0 ==> trim_start_c(s, c)[0] != c,
    decreases s.len(),
{
    if s.len() > 0 && s[0] == c {
        lemma_trim_start_sub(s.drop_first(), c);
        let i = choose|i: int|
            0 <= i <= s.drop_first().len() && #[trigger] trim_start_c(s.drop_first(), c)
                == s.drop_first().subrange(i, s.drop_first().len() as int);
        assert(s.drop_first().subrange(i, s.drop_first().len() as int) =~= s.subrange(
            i + 1,
            s.len() as int,
        ));
    } else {
        assert(s.subrange(0, s.len() as int) =~= s);
    }
}

proof fn lemma_trim_end_sub(s: Seq<char>, c: char)
    ensures
        exists|j: int| 0 <= j <= s.len() && #[trigger] trim_end_c(s, c) == s.subrange(0, j),
        trim_end_c(s, c).len() > 0 ==> trim_end_c(s, c).last() != c,
    decreases s.len(),
{
    if s.len() > 0 && s.last() == c {
        lemma_trim_end_sub(s.drop_last(), c);
        let j = choose|j: int|
            0 <= j <= s.drop_last().len() && #[trigger] trim_end_c(s.drop_last(), c)
                == s.drop_last().subrange(0, j);
        assert(s.drop_last().subrange(0, j) =~= s.subrange(0, j));
    } else {
        assert(s.subrange(0, s.len() as int) =~= s);
    }
}

proof fn lemma_sub_keeps(s: Seq<char>, i: int, j: int, c: char)
    requires
        0 <= i <= j <= s.len(),
    ensures
        all_keep(s) ==> all_keep(s.subrange(i, j)),
        no_double(s, c) ==> no_double(s.subrange(i, j), c),
{
    let t = s.subrange(i, j);
    if no_double(s, c) {
        assert forall|k: int| 0 <= k < t.len() - 1 implies !(#[trigger] t[k] == c && t[k + 1]
            == c) by {
            assert(t[k] == s[i + k] && t[k + 1] == s[i + k + 1]);
        }
    }
    if all_keep(s) {
        assert forall|k: int| 0 <= k < t.len() implies slug_keep(#[trigger] t[k]) by {
            assert(t[k] == s[i + k]);
        }
    }
}

proof fn lemma_trim_props(s: Seq<char>, c: char)
    ensures
        all_keep(s) ==> all_keep(trim_c(s, c)),
        no_double(s, c) ==> no_double(trim_c(s, c), c),
        trim_c(s, c).len() > 0 ==> trim_c(s, c)[0] != c && trim_c(s, c).last() != c,
{
    lemma_trim_start_sub(s, c);
    let a = trim_start_c(s, c);
    let i = choose|i: int| 0 <= i <= s.len() && #[trigger] trim_start_c(s, c) == s.subrange(i, s.len() as int);
    lemma_sub_keeps(s, i, s.len() as int, c);
    lemma_trim_end_sub(a, c);
    let j = choose|j: int| 0 <= j <= a.len() && #[trigger] trim_end_c(a, c) == a.subrange(0, j);
    lemma_sub_keeps(a, 0, j, c);
    let t = trim_c(s, c);
    if t.len() > 0 {
        assert(t[0] == a[0]);
    }
}

proof fn lemma_trim_id(s: Seq<char>, c: char)
    requires
        s.len() > 0 ==> s[0] != c && s.last() != c,
    ensures
        trim_c(s, c) == s,
{
}

/// A slug is made of `[a-z0-9_-]`, never holds `--`, and neither starts
/// nor ends with `-`.
pub proof fn lemma_slug_is_well_formed(s: Seq<char>)
    ensures
        is_slug(slug_of_lower(s)),
{
    lemma_prep_keep(s);
    let p = slug_prep(s);
    lemma_collapse_props(p, '-');
    let q = collapse_c(p, '-');
    lemma_trim_props(q, '-');
}

/// Slugging a slug changes nothing.
pub proof fn lemma_slug_idempotent(s: Seq<char>)
    ensures
        slug_of_lower(slug_of_lower(s)) == slug_of_lower(s),
{
    let t = slug_of_lower(s);
    lemma_slug_is_well_formed(s);
    lemma_prep_id(t);
    lemma_collapse_id(t, '-');
    lemma_trim_id(t, '-');
}

/// Every heading of a document has a level from 1 to 6, and a display
/// text with no whitespace at either end.
pub proof fn lemma_heading_shape(md: Seq<char>, k: int)
    requires
        0 <= k < spec_extract_headings(md).len(),
    ensures
        1 <= spec_extract_headings(md)[k].0 <= 6,
        spec_extract_headings(md)[k].1 == trim(spec_extract_headings(md)[k].1),
{
    let lines = split_lines(md);
    lemma_scan_levels(lines);
    lemma_trim_idem(clean(heading_scan(lines).1[k].1, 0, false, refs_scan(lines).1));
}

proof fn lemma_scan_levels(lines: Seq<Seq<char>>)
    ensures
        forall|k: int|
            0 <= k < heading_scan(lines).1.len() ==> 1 <= (#[trigger] heading_scan(lines).1[k]).0
                <= 6,
    decreases lines.len(),
{
    if lines.len() > 0 {
        lemma_scan_levels(lines.drop_last());
        let prev = heading_scan(lines.drop_last());
        let step = fence_step(prev.0, lines.last());
        if !step.1 {
            if let Some(h) = spec_parse_heading(lines.last()) {
                assert(1 <= h.0 <= 6);
                let q = prev.1.push(h);
                assert forall|k: int| 0 <= k < q.len() implies 1 <= (#[trigger] q[k]).0 <= 6 by {
                    if k < prev.1.len() {
                        assert(q[k] == prev.1[k]);
                    }
                }
            }
        }
    }
}

proof fn lemma_trim_idem(s: Seq<char>)
    ensures
        trim(trim(s)) == trim(s),
{
    lemma_trim_start_shape(s);
    let a = trim_start(s);
    lemma_trim_end_keeps_start(a);
}

proof fn lemma_trim_start_shape(s: Seq<char>)
    ensures
        trim_start(s).len() > 0 ==> !is_ws(trim_start(s)[0]),
    decreases s.len(),
{
    if s.len() > 0 && is_ws(s[0]) {
        lemma_trim_start_shape(s.drop_first());
    }
}

proof fn lemma_trim_end_keeps_start(a: Seq<char>)
    requires
        a.len() > 0 ==> !is_ws(a[0]),
    ensures
        trim_end(a).len() > 0 ==> !is_ws(trim_end(a)[0]),
        trim_start(trim_end(a)) == trim_end(a),
        trim_end(trim_end(a)) == trim_end(a),
    decreases a.len(),
{
    if a.len() > 0 && is_ws(a.last()) {
        lemma_trim_end_keeps_start(a.drop_last());
    }
}

} // verus!

verus! {

// ---------------------------------------------------------------------
// headings of an HTML document
// ---------------------------------------------------------------------

/// The body of the first `<main>` element.
pub const MAIN_BLOCK: &'static str = r"(?is)<main\b[^>]*>(.*?)</main\s*>";

/// Whole `<aside>`, `<nav>`, `<header>`, `<footer>` elements.
pub const ASIDE_BLOCK: &'static str = r"(?is)<aside\b[^>]*>.*?</aside\s*>";

pub const NAV_BLOCK: &'static str = r"(?is)<nav\b[^>]*>.*?</nav\s*>";

pub const HEADER_BLOCK: &'static str = r"(?is)<header\b[^>]*>.*?</header\s*>";

pub const FOOTER_BLOCK: &'static str = r"(?is)<footer\b[^>]*>.*?</footer\s*>";

/// Whole `<script>`, `<style>`, `<pre>` elements.
pub const SCRIPT_BLOCK: &'static str = r"(?is)<script\b[^>]*>.*?</script\s*>";

pub const STYLE_BLOCK: &'static str = r"(?is)<style\b[^>]*>.*?</style\s*>";

pub const PRE_BLOCK: &'static str = r"(?is)<pre\b[^>]*>.*?</pre\s*>";

/// An opening `<h1>`..`<h6>` tag: group 1 the level digit, group 2 the
/// attributes.
pub const HEADING_OPEN: &'static str = r"(?is)<h([1-6])\b([^>]*)>";

/// Any tag.
pub const ANY_TAG: &'static str = r"<[^>]+>";

/// An `id` attribute, double-quoted, single-quoted or bare (groups 1-3).
pub const ID_ATTR: &'static str = r#"(?i)\bid\s*=\s*(?:"([^"]*)"|'([^']*)'|([^\s"'=<>`]+))"#;

/// Group 1 of the first match of `pattern` in `s`.
pub open spec fn first_group(pattern: Seq<char>, s: Seq<char>) -> Option<Seq<char>> {
    match regex_first_captures(pattern, s) {
        Some(m) => group_text(s, m, 1),
        None => None,
    }
}

/// The part of the document that holds its content: the body of `<main>`
/// when there is one, else the document without asides, navigation,
/// headers and footers.
pub open spec fn html_structural(html: Seq<char>) -> Seq<char> {
    match first_group(MAIN_BLOCK@, html) {
        Some(body) => body,
        None => {
            let a = regex_replace_all(ASIDE_BLOCK@, html, ""@);
            let b = regex_replace_all(NAV_BLOCK@, a, ""@);
            let c = regex_replace_all(HEADER_BLOCK@, b, ""@);
            regex_replace_all(FOOTER_BLOCK@, c, ""@)
        },
    }
}

/// The content part without scripts, styles and preformatted blocks.
pub open spec fn html_cleaned(html: Seq<char>) -> Seq<char> {
    let a = regex_replace_all(SCRIPT_BLOCK@, html_structural(html), ""@);
    let b = regex_replace_all(STYLE_BLOCK@, a, ""@);
    regex_replace_all(PRE_BLOCK@, b, ""@)
}

/// First index `>= i` at which `needle` occurs in `s`.
pub open spec fn find_seq(s: Seq<char>, needle: Seq<char>, i: int) -> Option<int>
    decreases s.len() + 1 - i,
{
    if i < 0 || i + needle.len() > s.len() {
        None
    } else if s.subrange(i, i + needle.len()) == needle {
        Some(i)
    } else {
        find_seq(s, needle, i + 1)
    }
}

pub proof fn lemma_find_seq_bounds(s: Seq<char>, needle: Seq<char>, i: int)
    ensures
        find_seq(s, needle, i) matches Some(k) ==> i <= k && k + needle.len() <= s.len(),
    decreases s.len() + 1 - i,
{
    if !(i < 0 || i + needle.len() > s.len()) && s.subrange(i, i + needle.len()) != needle {
        lemma_find_seq_bounds(s, needle, i + 1);
    }
}

/// The level of a heading tag: its digits read as a `u8`, 1 when they do
/// not read as one.
pub open spec fn heading_level(t: Seq<char>) -> nat {
    match parse_u32(t, 10) {
        Some(v) => if v <= 255 {
            v as nat
        } else {
            1
        },
        None => 1,
    }
}

/// `</h` followed by the level.
pub open spec fn close_tag(level: nat) -> Seq<char> {
    seq!['<', '/', 'h'] + decimal(level)
}

/// Character index just past the whole match `m` in `s`.
pub open spec fn match_end(s: Seq<char>, m: Seq<Option<(usize, usize)>>) -> Option<int> {
    if m.len() > 0 && m[0] is Some {
        index_at_byte(s, (m[0]->0).1 as int)
    } else {
        None
    }
}

/// The `id` an attribute list already gives, entity-decoded; `None` when it
/// gives none or an empty one.
pub open spec fn existing_id(attrs: Seq<char>) -> Option<Seq<char>> {
    match regex_first_captures(ID_ATTR@, attrs) {
        Some(g) => {
            let v = if group_text(attrs, g, 1) is Some {
                group_text(attrs, g, 1)
            } else if group_text(attrs, g, 2) is Some {
                group_text(attrs, g, 2)
            } else {
                group_text(attrs, g, 3)
            };
            match v {
                Some(t) => if t.len() > 0 {
                    Some(decode(t, 0))
                } else {
                    None
                },
                None => None,
            }
        },
        None => None,
    }
}

/// The heading that opening tag `m` of the cleaned document `c` starts:
/// its level, its text (tags turned into spaces, entities decoded,
/// whitespace squeezed) and the id its attributes give. `None` when no
/// closing tag of the same level follows or the text is empty.
pub open spec fn html_entry(c: Seq<char>, m: Seq<Option<(usize, usize)>>) -> Option<
    (nat, Seq<char>, Option<Seq<char>>),
> {
    let level = heading_level(group_text(c, m, 1).unwrap_or(Seq::empty()));
    let attrs = group_text(c, m, 2).unwrap_or(Seq::empty());
    match match_end(c, m) {
        Some(bs) => match find_seq(ascii_lower(c), close_tag(level), bs) {
            Some(k) => {
                let text = squash_ws(decode(regex_replace_all(ANY_TAG@, c.subrange(bs, k), " "@), 0));
                if text.len() == 0 {
                    None
                } else {
                    Some((level, text, existing_id(attrs)))
                }
            },
            None => None,
        },
        None => None,
    }
}

/// The slug a heading text is counted under: its slug, or `heading` when
/// the slug is empty.
pub open spec fn slug_base(text: Seq<char>) -> Seq<char> {
    if spec_slugify(text).len() == 0 {
        "heading"@
    } else {
        spec_slugify(text)
    }
}

/// The key an entry counts under: its own id, or its slug base.
pub open spec fn entry_key(e: (nat, Seq<char>, Option<Seq<char>>)) -> Seq<char> {
    match e.2 {
        Some(id) => id,
        None => slug_base(e.1),
    }
}

/// The headings for the opening tags `ms`, and the keys counted so far. An
/// id of its own is kept as it is; a slug base is suffixed `-n` when `n`
/// earlier headings counted under it.
pub open spec fn html_scan(c: Seq<char>, ms: Seq<Seq<Option<(usize, usize)>>>) -> (
    Seq<(nat, Seq<char>, Seq<char>)>,
    Seq<Seq<char>>,
)
    decreases ms.len(),
{
    if ms.len() == 0 {
        (Seq::empty(), Seq::empty())
    } else {
        let (hs, keys) = html_scan(c, ms.drop_last());
        match html_entry(c, ms.last()) {
            Some(e) => {
                let key = entry_key(e);
                let n = count_eq(keys, key);
                let id = if e.2 is Some || n == 0 {
                    key
                } else {
                    key + seq!['-'] + decimal(n)
                };
                (hs.push((e.0, e.1, id)), keys.push(key))
            },
            None => (hs, keys),
        }
    }
}

/// The headings of an HTML document, in document order.
pub open spec fn spec_extract_headings_html(html: Seq<char>) -> Seq<(nat, Seq<char>, Seq<char>)> {
    let c = html_cleaned(html);
    html_scan(c, regex_all_captures(HEADING_OPEN@, c)).0
}

/// `s` with every match of `pattern` removed.
pub open spec fn without_matches(pattern: Seq<char>, s: Seq<char>) -> Seq<char> {
    regex_replace_all(pattern, s, ""@)
}

/// The headings found in a part of a document once its scripts, styles and
/// preformatted blocks are taken out.
pub open spec fn headings_of_content(content: Seq<char>) -> Seq<(nat, Seq<char>, Seq<char>)> {
    let c = without_matches(
        PRE_BLOCK@,
        without_matches(STYLE_BLOCK@, without_matches(SCRIPT_BLOCK@, content)),
    );
    html_scan(c, regex_all_captures(HEADING_OPEN@, c)).0
}

/// A document with a `<main>` element has the headings of its body and of
/// nothing else: what lies outside `<main>` does not count.
pub proof fn lemma_html_headings_from_main(html: Seq<char>, body: Seq<char>)
    requires
        first_group(MAIN_BLOCK@, html) == Some(body),
    ensures
        spec_extract_headings_html(html) == headings_of_content(body),
{
}

/// Without a `<main>` element, whole `<aside>`, `<nav>`, `<header>` and
/// `<footer>` elements are taken out (in that order) before headings are
/// looked for: the page's chrome contributes no heading.
pub proof fn lemma_html_headings_skip_chrome(html: Seq<char>)
    requires
        first_group(MAIN_BLOCK@, html) is None,
    ensures
        spec_extract_headings_html(html) == headings_of_content(
            without_matches(
                FOOTER_BLOCK@,
                without_matches(
                    HEADER_BLOCK@,
                    without_matches(NAV_BLOCK@, without_matches(ASIDE_BLOCK@, html)),
                ),
            ),
        ),
{
}

} // verus!

verus! {

/// `str::to_ascii_lowercase` on characters.
fn ascii_lowercase(v: &Vec<char>) -> (r: Vec<char>)
    ensures
        r@ == ascii_lower(v@),
{
    let mut r: Vec<char> = Vec::new();
    let mut i: usize = 0;
    while i < v.len()
        invariant
            i <= v.len(),
            r@ == ascii_lower(v@.take(i as int)),
        decreases v.len() - i,
    {
        let c = v[i];
        let code = crate::text::code_of(c);
        if 0x41 <= code && code <= 0x5A {
            match char_from_u32(code + 32) {
                Some(l) => r.push(l),
                None => r.push(c),
            }
        } else {
            r.push(c);
        }
        i += 1;
        assert(ascii_lower(v@.take(i as int)) =~= ascii_lower(v@.take(i - 1)).push(
            ascii_lower_char(c),
        ));
    }
    assert(v@.take(v.len() as int) == v@);
    r
}

/// Whether `needle` occurs in `s` at index `i`.
fn occurs_at(s: &Vec<char>, needle: &Vec<char>, i: usize) -> (r: bool)
    requires
        i + needle.len() <= s.len(),
    ensures
        r == (s@.subrange(i as int, i + needle.len()) == needle@),
{
    let mut j: usize = 0;
    while j < needle.len()
        invariant
            j <= needle.len(),
            i + needle.len() <= s.len(),
            s@.subrange(i as int, i + j) == needle@.take(j as int),
        decreases needle.len() - j,
    {
        if s[i + j] != needle[j] {
            assert(s@.subrange(i as int, i + needle.len())[j as int] != needle@[j as int]);
            return false;
        }
        j += 1;
        assert(s@.subrange(i as int, i + j) =~= needle@.take(j as int));
    }
    assert(needle@.take(needle.len() as int) == needle@);
    true
}

/// First index `>= i` at which `needle` occurs in `s` (see `find_seq`).
fn find_seq_exec(s: &Vec<char>, needle: &Vec<char>, i: usize) -> (r: Option<usize>)
    ensures
        r matches Some(k) ==> find_seq(s@, needle@, i as int) == Some(k as int),
        r is None ==> find_seq(s@, needle@, i as int) is None,
{
    if needle.len() > s.len() {
        return None;
    }
    let mut j = i;
    while j <= s.len() - needle.len()
        invariant
            i <= j,
            needle.len() <= s.len(),
            find_seq(s@, needle@, i as int) == find_seq(s@, needle@, j as int),
        decreases s.len() + 1 - j,
    {
        if occurs_at(s, needle, j) {
            return Some(j);
        }
        if j == s.len() - needle.len() {
            assert(find_seq(s@, needle@, j + 1) is None);
            return None;
        }
        j += 1;
    }
    None
}

/// The level of a heading tag (see `heading_level`).
fn heading_level_of(t: &Vec<char>) -> (r: u8)
    ensures
        r as nat == heading_level(t@),
{
    assert(t@.subrange(0, t.len() as int) == t@);
    match parse_u32_exec(t, 0, t.len(), 10) {
        Some(v) => if v <= 255 {
            v as u8
        } else {
            1
        },
        None => 1,
    }
}

/// The id an attribute list already gives (see `existing_id`).
fn existing_id_of(attrs: &Vec<char>) -> (r: Option<Vec<char>>)
    ensures
        r.deep_view() == existing_id(attrs@),
{
    let s = string_of(attrs);
    match first_captures(ID_ATTR, s.as_str()) {
        Some(g) => {
            let v = match group_text_of(attrs, &g, 1) {
                Some(t) => Some(t),
                None => match group_text_of(attrs, &g, 2) {
                    Some(t) => Some(t),
                    None => group_text_of(attrs, &g, 3),
                },
            };
            match v {
                Some(t) => if t.len() > 0 {
                    let d = decode_entities(string_of(&t).as_str());
                    Some(chars_of(d.as_str()))
                } else {
                    None
                },
                None => None,
            }
        },
        None => None,
    }
}

/// The heading opening tag `m` starts (see `html_entry`).
fn html_entry_of(c: &Vec<char>, lower: &Vec<char>, m: &Vec<Option<(usize, usize)>>) -> (r: Option<
    (u8, Vec<char>, Option<Vec<char>>),
>)
    requires
        lower@ == ascii_lower(c@),
    ensures
        r matches Some((l, t, e)) ==> html_entry(c@, m.deep_view()) == Some(
            (l as nat, t@, e.deep_view()),
        ),
        r is None ==> html_entry(c@, m.deep_view()) is None,
{
    let ghost mv = m.deep_view();
    let level = match group_text_of(c, m, 1) {
        Some(t) => heading_level_of(&t),
        None => heading_level_of(&Vec::new()),
    };
    assert(level as nat == heading_level(group_text(c@, mv, 1).unwrap_or(Seq::empty())));
    let attrs = match group_text_of(c, m, 2) {
        Some(t) => t,
        None => Vec::new(),
    };
    assert(attrs@ == group_text(c@, mv, 2).unwrap_or(Seq::empty()));
    if m.len() == 0 {
        return None;
    }
    assert(mv[0] == m@[0].deep_view());
    let end = match m[0] {
        Some((_, b)) => b,
        None => {
            return None;
        },
    };
    let bs = match index_of_byte(c, end) {
        Some(k) => k,
        None => {
            return None;
        },
    };
    proof {
        crate::pattern::lemma_index_from_bounds(c@, 0, 0, end as int);
    }
    let mut close: Vec<char> = Vec::new();
    close.push('<');
    close.push('/');
    close.push('h');
    push_decimal(&mut close, level as u64);
    assert(close@ =~= close_tag(level as nat));
    let k = match find_seq_exec(lower, &close, bs) {
        Some(k) => k,
        None => {
            return None;
        },
    };
    proof {
        lemma_find_seq_bounds(lower@, close@, bs as int);
    }
    let body = string_of(&slice_of(c, bs, k));
    let plain = replace_all(ANY_TAG, body.as_str(), " ");
    let decoded = decode_entities(plain.as_str());
    let dv = chars_of(decoded.as_str());
    let spaced = replace_ws(&dv, ' ');
    let squeezed = collapse(&spaced, ' ');
    let text = trim_char(&squeezed, ' ');
    if text.len() == 0 {
        return None;
    }
    let e = existing_id_of(&attrs);
    Some((level, text, e))
}

/// The id base of a heading text (see `slug_base`).
fn slug_base_of(text: &Vec<char>) -> (r: Vec<char>)
    ensures
        r@ == slug_base(text@),
{
    let s = slugify(string_of(text).as_str());
    let sv = chars_of(s.as_str());
    if sv.len() == 0 {
        chars_of("heading")
    } else {
        sv
    }
}

/// Headings of an HTML document for the Navigator: the content of `<main>`
/// when there is one, else the document without asides, navigation,
/// headers and footers; scripts, styles and preformatted blocks never
/// count. An `id` the heading already has is kept; otherwise the slug of
/// its text (`heading` when that is empty), suffixed `-n` after `n` earlier
/// uses.
pub fn extract_headings_html(html: &str) -> (r: Vec<Heading>)
    ensures
        r@.map_values(|h: Heading| h@) == spec_extract_headings_html(html@),
{
    let hv = chars_of(html);
    let main_body: Option<Vec<char>> = match first_captures(MAIN_BLOCK, html) {
        Some(m) => group_text_of(&hv, &m, 1),
        None => None,
    };
    let structural: String = match main_body {
        Some(t) => string_of(&t),
        None => {
            let a = replace_all(ASIDE_BLOCK, html, "");
            let b = replace_all(NAV_BLOCK, a.as_str(), "");
            let c = replace_all(HEADER_BLOCK, b.as_str(), "");
            replace_all(FOOTER_BLOCK, c.as_str(), "")
        },
    };
    assert(structural@ == html_structural(html@));
    let a = replace_all(SCRIPT_BLOCK, structural.as_str(), "");
    let b = replace_all(STYLE_BLOCK, a.as_str(), "");
    let cleaned = replace_all(PRE_BLOCK, b.as_str(), "");
    let ghost cv = html_cleaned(html@);
    assert(cleaned@ == cv);
    let c = chars_of(cleaned.as_str());
    let lower = ascii_lowercase(&c);
    let ms = all_captures(HEADING_OPEN, cleaned.as_str());
    let ghost msv = ms.deep_view();
    let mut results: Vec<Heading> = Vec::new();
    let mut keys: Vec<Vec<char>> = Vec::new();
    let mut i: usize = 0;
    assert(msv.take(0) =~= Seq::<Seq<Option<(usize, usize)>>>::empty());
    assert(results@.map_values(|h: Heading| h@) =~= Seq::<(nat, Seq<char>, Seq<char>)>::empty());
    assert(seqs_of(keys@) =~= Seq::<Seq<char>>::empty());
    while i < ms.len()
        invariant
            i <= ms.len(),
            msv == ms.deep_view(),
            c@ == cv,
            lower@ == ascii_lower(c@),
            html_scan(cv, msv.take(i as int)) == (
                results@.map_values(|h: Heading| h@),
                seqs_of(keys@),
            ),
            keys.len() <= i,
        decreases ms.len() - i,
    {
        assert(msv.take(i + 1).drop_last() == msv.take(i as int));
        assert(msv.take(i + 1).last() == ms@[i as int].deep_view());
        let ghost old_results = results@;
        let ghost old_keys = keys@;
        match html_entry_of(&c, &lower, &ms[i]) {
            Some((level, text, existing)) => {
                let ghost e = (level as nat, text@, existing.deep_view());
                let own = existing.is_some();
                let key = match existing {
                    Some(x) => {
                        assert(x.deep_view() =~= x@);
                        x
                    },
                    None => slug_base_of(&text),
                };
                assert(key@ == entry_key(e));
                assert(own == e.2 is Some);
                let n = count_equal(&keys, &key);
                let mut id: Vec<char> = Vec::new();
                push_all(&mut id, &key);
                if !own && n != 0 {
                    id.push('-');
                    push_decimal(&mut id, n);
                }
                assert(id@ == (if e.2 is Some || n == 0 {
                    key@
                } else {
                    key@ + seq!['-'] + decimal(n as nat)
                }));
                let h = Heading { level, text: string_of(&text), id: string_of(&id) };
                assert(h@ == (e.0, e.1, id@));
                let ghost kv = key@;
                keys.push(key);
                results.push(h);
                assert(results@.map_values(|h: Heading| h@) =~= old_results.map_values(
                    |h: Heading| h@,
                ).push(h@));
                assert(seqs_of(keys@) =~= seqs_of(old_keys).push(kv));
            },
            None => {},
        }
        i += 1;
    }
    assert(msv.take(ms.len() as int) == msv);
    results
}

// ---------------------------------------------------------------------
// laws of HTML headings
// ---------------------------------------------------------------------

/// A heading text as the Navigator shows it: not empty, no space at either
/// end, no two spaces in a row.
pub open spec fn is_squeezed(t: Seq<char>) -> bool {
    &&& t.len() > 0
    &&& t[0] != ' '
    &&& t.last() != ' '
    &&& no_double(t, ' ')
}

proof fn lemma_squash_shape(s: Seq<char>)
    ensures
        squash_ws(s).len() > 0 ==> is_squeezed(squash_ws(s)),
{
    lemma_collapse_props(ws_to(s, ' '), ' ');
    lemma_trim_props(collapse_c(ws_to(s, ' '), ' '), ' ');
}

proof fn lemma_html_scan_texts(c: Seq<char>, ms: Seq<Seq<Option<(usize, usize)>>>)
    ensures
        forall|k: int| 0 <= k < html_scan(c, ms).0.len() ==> is_squeezed(#[trigger] html_scan(c, ms).0[k].1),
    decreases ms.len(),
{
    if ms.len() > 0 {
        lemma_html_scan_texts(c, ms.drop_last());
        let m = ms.last();
        let hs = html_scan(c, ms.drop_last()).0;
        match html_entry(c, m) {
            Some(e) => {
                let level = heading_level(group_text(c, m, 1).unwrap_or(Seq::empty()));
                let bs = match_end(c, m)->0;
                let k = find_seq(ascii_lower(c), close_tag(level), bs)->0;
                lemma_squash_shape(decode(regex_replace_all(ANY_TAG@, c.subrange(bs, k), " "@), 0));
                assert(is_squeezed(e.1));
                let r = html_scan(c, ms).0;
                assert(r.len() == hs.len() + 1);
                assert forall|j: int| 0 <= j < r.len() implies is_squeezed(#[trigger] r[j].1) by {
                    if j < hs.len() {
                        assert(r[j] == hs[j]);
                    } else {
                        assert(r[j].1 == e.1);
                    }
                }
            },
            None => {
                assert(html_scan(c, ms).0 == hs);
            },
        }
    }
}

/// Every heading found in an HTML document has a text with something in
/// it, no space at either end and no two spaces in a row (tags become
/// spaces, whitespace runs become one space, the ends are trimmed, and a
/// heading whose text is then empty is left out).
pub proof fn lemma_html_heading_texts(html: Seq<char>)
    ensures
        forall|k: int| 0 <= k < spec_extract_headings_html(html).len() ==> is_squeezed(
            #[trigger] spec_extract_headings_html(html)[k].1,
        ),
{
    let c = html_cleaned(html);
    lemma_html_scan_texts(c, regex_all_captures(HEADING_OPEN@, c));
}

// ---------------------------------------------------------------------
// decoding undoes HTML escaping
// ---------------------------------------------------------------------

proof fn lemma_find_char_first(s: Seq<char>, k: int, n: int, c: char)
    requires
        0 <= k <= n < s.len(),
        s[n] == c,
        forall|j: int| k <= j < n ==> s[j] != c,
    ensures
        find_char(s, k, c) == Some(n),
    decreases n - k,
{
    if k < n {
        lemma_find_char_first(s, k + 1, n, c);
    }
}

/// An entity `&name;` at the start of `x`, followed by anything, reads as
/// `v` and ends after its `;`.
proof fn lemma_entity_prefix(name: Seq<char>, r: Seq<char>, v: int)
    requires
        1 <= name.len() <= 30,
        forall|k: int| 0 <= k < name.len() ==> name[k] != ';' && !is_ws(#[trigger] name[k]),
        decode_entity(name) == Some(v),
    ensures
        entity_at(seq!['&'] + name + seq![';'] + r, 0) == Some((v, name.len() + 2int)),
{
    let x = seq!['&'] + name + seq![';'] + r;
    let n = name.len() as int;
    let avail = x.len() - 1;
    let lim = if avail < 32 {
        avail
    } else {
        32
    };
    let sub = x.subrange(1, 1 + lim);
    assert forall|j: int| 0 <= j < n implies sub[j] != ';' by {
        assert(sub[j] == name[j]);
    }
    assert(sub[n] == ';');
    lemma_find_char_first(sub, 0, n, ';');
    assert(x.subrange(1, 1 + n) =~= name);
    assert(!has_ws_char(name));
}

proof fn lemma_decode_shift(p: Seq<char>, r: Seq<char>, j: int)
    requires
        0 <= j,
    ensures
        decode(p + r, p.len() + j) == decode(r, j),
    decreases r.len() - j,
{
    let x = p + r;
    let i = p.len() + j;
    if j < r.len() {
        assert(x[i] == r[j]);
        if r[j] == '&' {
            let avail = r.len() - j - 1;
            let lim = if avail < 32 {
                avail
            } else {
                32
            };
            assert(x.subrange(i + 1, i + 1 + lim) =~= r.subrange(j + 1, j + 1 + lim));
            lemma_find_char_bounds(r.subrange(j + 1, j + 1 + lim), 0, ';');
            match find_char(r.subrange(j + 1, j + 1 + lim), 0, ';') {
                Some(semi) => {
                    assert(x.subrange(i + 1, i + 1 + semi) =~= r.subrange(j + 1, j + 1 + semi));
                },
                None => {},
            }
            lemma_entity_at_bounds(r, j);
            match entity_at(r, j) {
                Some((v, next)) => {
                    assert(entity_at(x, i) == Some((v, next + p.len())));
                    lemma_decode_shift(p, r, next);
                },
                None => {
                    assert(entity_at(x, i) is None);
                    lemma_decode_shift(p, r, j + 1);
                },
            }
        } else {
            lemma_decode_shift(p, r, j + 1);
        }
    }
}

proof fn lemma_decode_escaped_char(c: char, r: Seq<char>)
    ensures
        decode(crate::html::html_escape_char(c) + r, 0) == seq![c] + decode(r, 0),
{
    reveal_strlit("amp");
    reveal_strlit("lt");
    reveal_strlit("gt");
    reveal_strlit("quot");
    reveal_strlit("apos");
    reveal_strlit("nbsp");
    let e = crate::html::html_escape_char(c);
    let x = e + r;
    if c == '&' || c == '<' || c == '>' || c == '"' || c == '\'' {
        let name = e.subrange(1, e.len() - 1);
        assert(e =~= seq!['&'] + name + seq![';']);
        assert(x =~= seq!['&'] + name + seq![';'] + r);
        let v = c as int;
        if c == '\'' {
            assert(name =~= seq!['#', '3', '9']);
            assert(name.skip(1) =~= seq!['3', '9']);
            assert(seq!['3', '9'].drop_last() =~= seq!['3']);
            assert(seq!['3'].drop_last() =~= Seq::<char>::empty());
            assert(digits_value(Seq::<char>::empty(), 10) == Some(0int));
            assert(digit_value('3', 10) == Some(3int));
            assert(digit_value('9', 10) == Some(9int));
            assert(seq!['3'].last() == '3');
            assert(seq!['3', '9'].last() == '9');
            assert(digits_value(seq!['3'], 10) == Some(3int));
            assert(digits_value(seq!['3', '9'], 10) == Some(39int));
            assert(decode_entity(name) == Some(39int));
        } else if c == '&' {
            assert(name =~= "amp"@);
        } else if c == '<' {
            assert(name =~= "lt"@);
        } else if c == '>' {
            assert(name =~= "gt"@);
        } else {
            assert(name =~= "quot"@);
        }
        lemma_entity_prefix(name, r, v);
        assert(x[0] == '&');
        lemma_decode_shift(e, r, 0);
    } else {
        assert(e =~= seq![c]);
        assert(x[0] == c);
        lemma_decode_shift(e, r, 0);
    }
}

proof fn lemma_escape_concat(a: Seq<char>, b: Seq<char>)
    ensures
        crate::html::spec_html_escape(a + b) == crate::html::spec_html_escape(a)
            + crate::html::spec_html_escape(b),
    decreases b.len(),
{
    if b.len() == 0 {
        assert(a + b == a);
        assert(crate::html::spec_html_escape(a) + Seq::<char>::empty() =~= crate::html::spec_html_escape(a));
    } else {
        assert((a + b).drop_last() == a + b.drop_last());
        assert((a + b).last() == b.last());
        lemma_escape_concat(a, b.drop_last());
        assert(crate::html::spec_html_escape(a) + crate::html::spec_html_escape(b.drop_last())
            + crate::html::html_escape_char(b.last()) =~= crate::html::spec_html_escape(a) + (
        crate::html::spec_html_escape(b.drop_last()) + crate::html::html_escape_char(b.last())));
    }
}

/// Decoding entities gives back any text that was HTML-escaped: the
/// escapes `html_escape` writes are exactly ones `decode_entities` reads.
pub proof fn lemma_decode_undoes_escape(s: Seq<char>)
    ensures
        decode(crate::html::spec_html_escape(s), 0) == s,
    decreases s.len(),
{
    if s.len() > 0 {
        let t = s.drop_first();
        assert(s == seq![s[0]] + t);
        lemma_escape_concat(seq![s[0]], t);
        let one = seq![s[0]];
        assert(one.drop_last() =~= Seq::<char>::empty());
        assert(one.last() == s[0]);
        assert(crate::html::spec_html_escape(one.drop_last()) =~= Seq::<char>::empty());
        assert(crate::html::spec_html_escape(one) =~= crate::html::html_escape_char(s[0]));
        lemma_decode_escaped_char(s[0], crate::html::spec_html_escape(t));
        lemma_decode_undoes_escape(t);
    }
}

} // verus!
