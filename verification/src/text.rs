//! Character-level building blocks shared by the parsers and page
//! builders: whitespace classes, trimming, run collapsing, decimal and hex
//! rendering, and the conversions between `str`/`String` and `Vec<char>`.

use vstd::prelude::*;

verus! {

// ---------------------------------------------------------------------
// std functions that vstd leaves unspecified
// ---------------------------------------------------------------------

/// `String::push` appends one character (std documentation: "Appends the
/// given char to the end of this String").
pub assume_specification[ String::push ](s: &mut String, ch: char)
    ensures
        final(s)@ == old(s)@.push(ch),
;

/// What `str::to_lowercase` returns for a string: the Unicode lowercase
/// mapping (with its context-dependent final-sigma rule). It depends on the
/// characters alone.
pub uninterp spec fn str_lowercase(s: Seq<char>) -> Seq<char>;

/// Whether every character of `s` is ASCII.
pub open spec fn is_ascii_text(s: Seq<char>) -> bool {
    forall|k: int| 0 <= k < s.len() ==> (#[trigger] s[k] as int) < 0x80
}

/// `c` lowered if it is an ASCII capital.
pub open spec fn ascii_lower_char(c: char) -> char {
    if 0x41 <= c as int <= 0x5A {
        ((c as int) + 32) as char
    } else {
        c
    }
}

/// `str::to_ascii_lowercase`.
pub open spec fn ascii_lower(s: Seq<char>) -> Seq<char> {
    s.map_values(|c: char| ascii_lower_char(c))
}

/// Calls `str::to_lowercase`. Claimed: the result is `str_lowercase` of the
/// argument's characters, and for ASCII text it is the text with `A`-`Z`
/// lowered (the Unicode lowercase mapping of ASCII); nothing more is stated
/// of the Unicode mapping.
#[verifier::external_body]
pub(crate) fn to_lowercase(s: &str) -> (r: String)
    ensures
        r@ == str_lowercase(s@),
        is_ascii_text(s@) ==> r@ == ascii_lower(s@),
{
    s.to_lowercase()
}

/// What `char::is_alphanumeric` answers (Unicode Alphabetic or Numeric).
pub uninterp spec fn char_alphanumeric(c: char) -> bool;

/// ASCII letters and digits.
pub open spec fn is_ascii_alnum(c: char) -> bool {
    ('a' <= c && c <= 'z') || ('A' <= c && c <= 'Z') || ('0' <= c && c <= '9')
}

/// Calls `char::is_alphanumeric`. Claimed: the answer is
/// `char_alphanumeric(c)`, and for an ASCII character it is whether the
/// character is a letter or a digit (the Unicode Alphabetic and Numeric
/// classes hold no other ASCII); the Unicode tables beyond ASCII are not
/// stated.
#[verifier::external_body]
pub(crate) fn is_alphanumeric(c: char) -> (r: bool)
    ensures
        r == char_alphanumeric(c),
        (c as int) < 0x80 ==> (r <==> is_ascii_alnum(c)),
{
    c.is_alphanumeric()
}

/// Calls `char::from_u32`. Claimed, as its documentation says: `Some`
/// exactly for Unicode scalar values (not a surrogate, at most 0x10FFFF),
/// holding the character with that code point.
#[verifier::external_body]
pub(crate) fn char_from_u32(v: u32) -> (r: Option<char>)
    ensures
        r is Some <==> is_scalar_value(v as int),
        r matches Some(c) ==> c as int == v as int,
{
    char::from_u32(v)
}

pub open spec fn is_scalar_value(v: int) -> bool {
    (0 <= v < 0xD800) || (0xE000 <= v <= 0x10FFFF)
}

// ---------------------------------------------------------------------
// conversions
// ---------------------------------------------------------------------

/// The characters of `s`, in order.
pub fn chars_of(s: &str) -> (v: Vec<char>)
    ensures
        v@ == s@,
{
    let mut v: Vec<char> = Vec::new();
    for c in it: s.chars()
        invariant
            v@ == it.seq().take(it.index() as int),
            it.seq() == s@,
    {
        v.push(c);
    }
    v
}

/// A `String` holding exactly the characters of `v`.
pub fn string_of(v: &Vec<char>) -> (s: String)
    ensures
        s@ == v@,
{
    let mut s = String::new();
    let mut i: usize = 0;
    while i < v.len()
        invariant
            i <= v.len(),
            s@ == v@.take(i as int),
        decreases v.len() - i,
    {
        s.push(v[i]);
        i += 1;
        assert(v@.take(i as int) == v@.take(i - 1).push(v@[i - 1]));
    }
    assert(v@.take(v.len() as int) == v@);
    s
}

/// Appends the characters of `s` to `out`.
pub fn push_str_chars(out: &mut Vec<char>, s: &str)
    ensures
        final(out)@ == old(out)@ + s@,
{
    let v = chars_of(s);
    push_all(out, &v);
}

/// Appends `v` to `out`.
pub fn push_all(out: &mut Vec<char>, v: &Vec<char>)
    ensures
        final(out)@ == old(out)@ + v@,
{
    let ghost start = out@;
    let mut i: usize = 0;
    while i < v.len()
        invariant
            i <= v.len(),
            out@ == start + v@.take(i as int),
        decreases v.len() - i,
    {
        out.push(v[i]);
        i += 1;
        assert(v@.take(i as int) == v@.take(i - 1).push(v@[i - 1]));
    }
    assert(v@.take(v.len() as int) == v@);
}

/// `v[lo..hi]` as a new vector.
pub fn slice_of(v: &Vec<char>, lo: usize, hi: usize) -> (r: Vec<char>)
    requires
        lo <= hi <= v.len(),
    ensures
        r@ == v@.subrange(lo as int, hi as int),
{
    let mut r: Vec<char> = Vec::new();
    let mut i = lo;
    while i < hi
        invariant
            lo <= i <= hi <= v.len(),
            r@ == v@.subrange(lo as int, i as int),
        decreases hi - i,
    {
        r.push(v[i]);
        i += 1;
        assert(v@.subrange(lo as int, i as int) == v@.subrange(lo as int, i - 1).push(
            v@[i - 1],
        ));
    }
    r
}

/// Character-wise equality of two vectors.
pub fn chars_eq(a: &Vec<char>, b: &Vec<char>) -> (r: bool)
    ensures
        r == (a@ == b@),
{
    if a.len() != b.len() {
        return false;
    }
    let mut i: usize = 0;
    while i < a.len()
        invariant
            a.len() == b.len(),
            i <= a.len(),
            forall|k: int| 0 <= k < i ==> a@[k] == b@[k],
        decreases a.len() - i,
    {
        if a[i] != b[i] {
            return false;
        }
        i += 1;
    }
    assert(a@ =~= b@);
    true
}

/// Whether `v` equals the characters of `lit`.
pub fn eq_lit(v: &Vec<char>, lit: &str) -> (r: bool)
    ensures
        r == (v@ == lit@),
{
    let w = chars_of(lit);
    chars_eq(v, &w)
}

/// Whether two strings hold the same characters.
pub fn str_eq(a: &str, b: &str) -> (r: bool)
    ensures
        r == (a@ == b@),
{
    let v = chars_of(a);
    eq_lit(&v, b)
}

/// `{}` of an unsigned integer, as a `String`.
pub fn decimal_string(n: u64) -> (r: String)
    ensures
        r@ == decimal(n as nat),
{
    let mut v: Vec<char> = Vec::new();
    push_decimal(&mut v, n);
    assert(v@ =~= decimal(n as nat));
    string_of(&v)
}

/// Whether `s` holds `needle` as one of its elements.
pub fn contains_seq(s: &Vec<Vec<char>>, needle: &Vec<char>) -> (r: bool)
    ensures
        r == seqs_of(s@).contains(needle@),
{
    let mut i: usize = 0;
    while i < s.len()
        invariant
            i <= s.len(),
            forall|k: int| 0 <= k < i ==> s@[k]@ != needle@,
        decreases s.len() - i,
    {
        if chars_eq(&s[i], needle) {
            assert(seqs_of(s@)[i as int] == needle@);
            return true;
        }
        i += 1;
    }
    assert forall|k: int| 0 <= k < seqs_of(s@).len() implies seqs_of(s@)[k] != needle@ by {
        assert(seqs_of(s@)[k] == s@[k]@);
    }
    false
}

/// The character sequences held by a vector of character vectors.
pub open spec fn seqs_of(v: Seq<Vec<char>>) -> Seq<Seq<char>> {
    v.map_values(|x: Vec<char>| x@)
}

/// The characters of `s` in lowercase, as `str::to_lowercase` gives them.
pub fn lowercase_chars(v: &Vec<char>) -> (r: Vec<char>)
    ensures
        r@ == str_lowercase(v@),
{
    let s = string_of(v);
    let l = to_lowercase(s.as_str());
    chars_of(l.as_str())
}

// ---------------------------------------------------------------------
// character classes
// ---------------------------------------------------------------------

/// The code point of `c`.
pub fn code_of(c: char) -> (r: u32)
    ensures
        r as int == c as int,
{
    c as u32
}

/// Unicode `White_Space`, the class of `char::is_whitespace`, `str::trim`
/// and `str::split_whitespace`.
pub open spec fn is_ws(c: char) -> bool {
    let v = c as int;
    ||| 0x09 <= v <= 0x0D
    ||| v == 0x20
    ||| v == 0x85
    ||| v == 0xA0
    ||| v == 0x1680
    ||| 0x2000 <= v <= 0x200A
    ||| v == 0x2028
    ||| v == 0x2029
    ||| v == 0x202F
    ||| v == 0x205F
    ||| v == 0x3000
}

pub fn is_whitespace(c: char) -> (r: bool)
    ensures
        r == is_ws(c),
{
    let v = c as u32;
    (0x09 <= v && v <= 0x0D) || v == 0x20 || v == 0x85 || v == 0xA0 || v == 0x1680 || (0x2000
        <= v && v <= 0x200A) || v == 0x2028 || v == 0x2029 || v == 0x202F || v == 0x205F || v
        == 0x3000
}

/// ASCII punctuation, as `char::is_ascii_punctuation`.
pub open spec fn is_ascii_punct(c: char) -> bool {
    let v = c as int;
    ||| 0x21 <= v <= 0x2F
    ||| 0x3A <= v <= 0x40
    ||| 0x5B <= v <= 0x60
    ||| 0x7B <= v <= 0x7E
}

pub fn is_ascii_punctuation(c: char) -> (r: bool)
    ensures
        r == is_ascii_punct(c),
{
    let v = c as u32;
    (0x21 <= v && v <= 0x2F) || (0x3A <= v && v <= 0x40) || (0x5B <= v && v <= 0x60) || (0x7B
        <= v && v <= 0x7E)
}

/// Number of bytes of `c` in UTF-8.
pub open spec fn utf8_len(c: char) -> nat {
    let v = c as int;
    if v < 0x80 {
        1
    } else if v < 0x800 {
        2
    } else if v < 0x10000 {
        3
    } else {
        4
    }
}

/// Number of bytes of `s` in UTF-8.
pub open spec fn utf8_bytes(s: Seq<char>) -> nat
    decreases s.len(),
{
    if s.len() == 0 {
        0
    } else {
        utf8_bytes(s.drop_last()) + utf8_len(s.last())
    }
}

/// More characters never take fewer bytes.
pub proof fn lemma_utf8_bytes_prefix_mono(s: Seq<char>, i: int, k: int)
    requires
        0 <= i <= k <= s.len(),
    ensures
        utf8_bytes(s.take(i)) <= utf8_bytes(s.take(k)),
    decreases k - i,
{
    if i < k {
        lemma_utf8_bytes_prefix_mono(s, i, k - 1);
        assert(s.take(k).drop_last() == s.take(k - 1));
    }
}

pub fn char_utf8_len(c: char) -> (r: usize)
    ensures
        r == utf8_len(c),
{
    let v = c as u32;
    if v < 0x80 {
        1
    } else if v < 0x800 {
        2
    } else if v < 0x10000 {
        3
    } else {
        4
    }
}

// ---------------------------------------------------------------------
// runs and trimming
// ---------------------------------------------------------------------

/// Length of the run of `c` starting at `i`.
pub open spec fn run_len(s: Seq<char>, i: int, c: char) -> nat
    decreases s.len() - i,
{
    if 0 <= i < s.len() && s[i] == c {
        1 + run_len(s, i + 1, c)
    } else {
        0
    }
}

pub fn count_run(s: &Vec<char>, i: usize, c: char) -> (r: usize)
    requires
        i <= s.len(),
    ensures
        r == run_len(s@, i as int, c),
        i + r <= s.len(),
{
    let mut j = i;
    while j < s.len() && s[j] == c
        invariant
            i <= j <= s.len(),
            run_len(s@, i as int, c) == (j - i) + run_len(s@, j as int, c),
        decreases s.len() - j,
    {
        j += 1;
    }
    j - i
}

/// First index `>= i` holding `c`.
pub open spec fn find_char(s: Seq<char>, i: int, c: char) -> Option<int>
    decreases s.len() - i,
{
    if i < 0 || i >= s.len() {
        None
    } else if s[i] == c {
        Some(i)
    } else {
        find_char(s, i + 1, c)
    }
}

pub proof fn lemma_find_char_bounds(s: Seq<char>, i: int, c: char)
    ensures
        find_char(s, i, c) matches Some(k) ==> i <= k < s.len() && s[k] == c,
    decreases s.len() - i,
{
    if 0 <= i < s.len() && s[i] != c {
        lemma_find_char_bounds(s, i + 1, c);
    }
}

pub fn find(s: &Vec<char>, i: usize, c: char) -> (r: Option<usize>)
    requires
        i <= s.len(),
    ensures
        r matches Some(k) ==> find_char(s@, i as int, c) == Some(k as int),
        r is None ==> find_char(s@, i as int, c) is None,
{
    let mut j = i;
    while j < s.len()
        invariant
            i <= j <= s.len(),
            find_char(s@, i as int, c) == find_char(s@, j as int, c),
        decreases s.len() - j,
    {
        if s[j] == c {
            return Some(j);
        }
        j += 1;
    }
    None
}

/// Whether every character of `s` is whitespace.
pub open spec fn all_ws(s: Seq<char>) -> bool {
    forall|k: int| 0 <= k < s.len() ==> is_ws(#[trigger] s[k])
}

/// `s` without its leading whitespace (`str::trim_start`).
pub open spec fn trim_start(s: Seq<char>) -> Seq<char>
    decreases s.len(),
{
    if s.len() > 0 && is_ws(s[0]) {
        trim_start(s.drop_first())
    } else {
        s
    }
}

/// `s` without its trailing whitespace (`str::trim_end`).
pub open spec fn trim_end(s: Seq<char>) -> Seq<char>
    decreases s.len(),
{
    if s.len() > 0 && is_ws(s.last()) {
        trim_end(s.drop_last())
    } else {
        s
    }
}

/// `str::trim`.
pub open spec fn trim(s: Seq<char>) -> Seq<char> {
    trim_end(trim_start(s))
}

/// `s` without its trailing run of `c` (`str::trim_end_matches(c)`).
pub open spec fn trim_end_c(s: Seq<char>, c: char) -> Seq<char>
    decreases s.len(),
{
    if s.len() > 0 && s.last() == c {
        trim_end_c(s.drop_last(), c)
    } else {
        s
    }
}

/// `s` without its leading run of `c`.
pub open spec fn trim_start_c(s: Seq<char>, c: char) -> Seq<char>
    decreases s.len(),
{
    if s.len() > 0 && s[0] == c {
        trim_start_c(s.drop_first(), c)
    } else {
        s
    }
}

/// `s` without leading and trailing runs of `c` (`str::trim_matches(c)`).
pub open spec fn trim_c(s: Seq<char>, c: char) -> Seq<char> {
    trim_end_c(trim_start_c(s, c), c)
}

/// `s` with every run of `c` shortened to one `c`.
pub open spec fn collapse_c(s: Seq<char>, c: char) -> Seq<char>
    decreases s.len(),
{
    if s.len() == 0 {
        s
    } else {
        let p = collapse_c(s.drop_last(), c);
        if s.last() == c && p.len() > 0 && p.last() == c {
            p
        } else {
            p.push(s.last())
        }
    }
}

/// Index of the first non-whitespace character at or after `i`.
pub fn skip_ws(s: &Vec<char>, i: usize) -> (r: usize)
    requires
        i <= s.len(),
    ensures
        i <= r <= s.len(),
        trim_start(s@.subrange(i as int, s.len() as int)) == s@.subrange(
            r as int,
            s.len() as int,
        ),
        forall|k: int| i <= k < r ==> is_ws(#[trigger] s@[k]),
        r < s.len() ==> !is_ws(s@[r as int]),
{
    let mut j = i;
    while j < s.len() && is_whitespace(s[j])
        invariant
            i <= j <= s.len(),
            trim_start(s@.subrange(i as int, s.len() as int)) == trim_start(
                s@.subrange(j as int, s.len() as int),
            ),
            forall|k: int| i <= k < j ==> is_ws(#[trigger] s@[k]),
        decreases s.len() - j,
    {
        assert(s@.subrange(j as int, s.len() as int).drop_first() == s@.subrange(
            j + 1,
            s.len() as int,
        ));
        j += 1;
    }
    j
}

/// End index after dropping trailing whitespace from `s[lo..hi]`.
pub fn trim_ws_end(s: &Vec<char>, lo: usize, hi: usize) -> (r: usize)
    requires
        lo <= hi <= s.len(),
    ensures
        lo <= r <= hi,
        trim_end(s@.subrange(lo as int, hi as int)) == s@.subrange(lo as int, r as int),
{
    let mut j = hi;
    while j > lo && is_whitespace(s[j - 1])
        invariant
            lo <= j <= hi <= s.len(),
            trim_end(s@.subrange(lo as int, hi as int)) == trim_end(
                s@.subrange(lo as int, j as int),
            ),
        decreases j,
    {
        assert(s@.subrange(lo as int, j as int).drop_last() == s@.subrange(
            lo as int,
            j - 1,
        ));
        j -= 1;
    }
    j
}

/// `str::trim` of `s[lo..hi]`, as a new vector.
pub fn trim_range(s: &Vec<char>, lo: usize, hi: usize) -> (r: Vec<char>)
    requires
        lo <= hi <= s.len(),
    ensures
        r@ == trim(s@.subrange(lo as int, hi as int)),
{
    let t = slice_of(s, lo, hi);
    let a = skip_ws(&t, 0);
    assert(t@.subrange(0, t.len() as int) == t@);
    let b = trim_ws_end(&t, a, t.len());
    slice_of(&t, a, b)
}

/// `s` with every whitespace character replaced by `c`.
pub open spec fn ws_to(s: Seq<char>, c: char) -> Seq<char> {
    s.map_values(|x: char| if is_ws(x) { c } else { x })
}

/// Whitespace runs squeezed to one space and the ends trimmed: what
/// `split_whitespace().collect::<Vec<_>>().join(" ")` gives.
pub open spec fn squash_ws(s: Seq<char>) -> Seq<char> {
    trim_c(collapse_c(ws_to(s, ' '), ' '), ' ')
}

pub fn replace_ws(v: &Vec<char>, c: char) -> (r: Vec<char>)
    ensures
        r@ == ws_to(v@, c),
{
    let mut r: Vec<char> = Vec::new();
    let mut i: usize = 0;
    while i < v.len()
        invariant
            i <= v.len(),
            r@ == ws_to(v@.take(i as int), c),
        decreases v.len() - i,
    {
        let x = v[i];
        if is_whitespace(x) {
            r.push(c);
        } else {
            r.push(x);
        }
        i += 1;
        assert(ws_to(v@.take(i as int), c) =~= ws_to(v@.take(i - 1), c).push(
            if is_ws(x) { c } else { x },
        ));
    }
    assert(v@.take(v.len() as int) == v@);
    r
}

pub fn collapse(v: &Vec<char>, c: char) -> (r: Vec<char>)
    ensures
        r@ == collapse_c(v@, c),
{
    let mut r: Vec<char> = Vec::new();
    let mut i: usize = 0;
    while i < v.len()
        invariant
            i <= v.len(),
            r@ == collapse_c(v@.take(i as int), c),
        decreases v.len() - i,
    {
        let x = v[i];
        assert(v@.take(i + 1).drop_last() == v@.take(i as int));
        if !(x == c && r.len() > 0 && r[r.len() - 1] == c) {
            r.push(x);
        }
        i += 1;
    }
    assert(v@.take(v.len() as int) == v@);
    r
}

pub fn trim_char(v: &Vec<char>, c: char) -> (r: Vec<char>)
    ensures
        r@ == trim_c(v@, c),
{
    let mut a: usize = 0;
    assert(v@.subrange(0, v.len() as int) == v@);
    while a < v.len() && v[a] == c
        invariant
            a <= v.len(),
            trim_start_c(v@, c) == trim_start_c(v@.subrange(a as int, v.len() as int), c),
        decreases v.len() - a,
    {
        assert(v@.subrange(a as int, v.len() as int).drop_first() == v@.subrange(
            a + 1,
            v.len() as int,
        ));
        a += 1;
    }
    assert(v@.subrange(0, v.len() as int) == v@);
    let mut b: usize = v.len();
    while b > a && v[b - 1] == c
        invariant
            a <= b <= v.len(),
            trim_start_c(v@, c) == v@.subrange(a as int, v.len() as int),
            trim_c(v@, c) == trim_end_c(v@.subrange(a as int, b as int), c),
        decreases b,
    {
        assert(v@.subrange(a as int, b as int).drop_last() == v@.subrange(a as int, b - 1));
        b -= 1;
    }
    slice_of(v, a, b)
}

// ---------------------------------------------------------------------
// numbers
// ---------------------------------------------------------------------

pub open spec fn digit_char(d: int) -> char {
    if d == 0 {
        '0'
    } else if d == 1 {
        '1'
    } else if d == 2 {
        '2'
    } else if d == 3 {
        '3'
    } else if d == 4 {
        '4'
    } else if d == 5 {
        '5'
    } else if d == 6 {
        '6'
    } else if d == 7 {
        '7'
    } else if d == 8 {
        '8'
    } else if d == 9 {
        '9'
    } else if d == 10 {
        'a'
    } else if d == 11 {
        'b'
    } else if d == 12 {
        'c'
    } else if d == 13 {
        'd'
    } else if d == 14 {
        'e'
    } else {
        'f'
    }
}

/// The lowercase hex digit (or decimal digit) for `d < 16`.
pub fn digit(d: u64) -> (c: char)
    requires
        d < 16,
    ensures
        c == digit_char(d as int),
{
    match d {
        0 => '0',
        1 => '1',
        2 => '2',
        3 => '3',
        4 => '4',
        5 => '5',
        6 => '6',
        7 => '7',
        8 => '8',
        9 => '9',
        10 => 'a',
        11 => 'b',
        12 => 'c',
        13 => 'd',
        14 => 'e',
        _ => 'f',
    }
}

/// Decimal rendering of `n`, as `{}` formats an unsigned integer.
pub open spec fn decimal(n: nat) -> Seq<char>
    decreases n,
{
    if n < 10 {
        seq![digit_char(n as int)]
    } else {
        decimal(n / 10).push(digit_char((n % 10) as int))
    }
}

pub fn push_decimal(out: &mut Vec<char>, n: u64)
    ensures
        final(out)@ == old(out)@ + decimal(n as nat),
    decreases n,
{
    if n >= 10 {
        push_decimal(out, n / 10);
    }
    out.push(digit(n % 10));
}

/// Two lowercase hex digits of `b`, as `{:02x}` formats a byte.
pub open spec fn hex2(b: int) -> Seq<char> {
    seq![digit_char(b / 16), digit_char(b % 16)]
}

pub fn push_hex2(out: &mut Vec<char>, b: u8)
    ensures
        final(out)@ == old(out)@ + hex2(b as int),
{
    out.push(digit((b / 16) as u64));
    out.push(digit((b % 16) as u64));
}

// ---------------------------------------------------------------------
// prefixes
// ---------------------------------------------------------------------

/// Whether `s` begins with `p`.
pub open spec fn has_prefix(s: Seq<char>, p: Seq<char>) -> bool {
    p.len() <= s.len() && s.take(p.len() as int) == p
}

/// Whether `v` begins with the characters of `lit`.
pub fn begins_with(v: &Vec<char>, lit: &str) -> (r: bool)
    ensures
        r == has_prefix(v@, lit@),
{
    let p = chars_of(lit);
    if p.len() > v.len() {
        return false;
    }
    let mut i: usize = 0;
    while i < p.len()
        invariant
            i <= p.len() <= v.len(),
            p@ == lit@,
            v@.take(i as int) == p@.take(i as int),
        decreases p.len() - i,
    {
        if v[i] != p[i] {
            assert(v@.take(p.len() as int)[i as int] != p@[i as int]);
            return false;
        }
        i += 1;
        assert(v@.take(i as int) =~= p@.take(i as int));
    }
    assert(p@.take(p.len() as int) == p@);
    true
}

} // verus!
