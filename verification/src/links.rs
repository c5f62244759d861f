//! Where a clicked link, a scheme request or a dropped path leads: the
//! decisions of the reader around its documents, made on plain strings and
//! flags. Percent-decoding and the file-system checks happen outside, on
//! the results of these functions.

use vstd::prelude::*;
use crate::text::{begins_with, chars_of, find, find_char, has_prefix, slice_of, string_of};
use crate::langmap::{is_html, is_markdown};
use crate::html::{IndexEntry, EntryView};

verus! {

/// The address prefix of the reader's own documents.
pub const DOC_PREFIX: &'static str = "moremaid://doc";

/// The scheme prefix of the reader's own addresses.
pub const SCHEME_PREFIX: &'static str = "moremaid://";

// ---------------------------------------------------------------------
// clicked links
// ---------------------------------------------------------------------

/// Where a clicked link goes, before the file system is asked.
#[derive(Debug, Clone, PartialEq, Eq)]
pub enum LinkRoute {
    /// A web address: the system browser opens it.
    External,
    /// An anchor in the document shown: the page scrolls by itself.
    SameDocument,
    /// One of the reader's documents: its (still percent-encoded) path,
    /// and the heading to jump to once it is loaded.
    Document { path: String, anchor: Option<String> },
    /// Anything else: the page handles it.
    Pass,
}

pub enum LinkRouteView {
    External,
    SameDocument,
    Document(Seq<char>, Option<Seq<char>>),
    Pass,
}

impl View for LinkRoute {
    type V = LinkRouteView;

    open spec fn view(&self) -> LinkRouteView {
        match self {
            LinkRoute::External => LinkRouteView::External,
            LinkRoute::SameDocument => LinkRouteView::SameDocument,
            LinkRoute::Document { path, anchor } => LinkRouteView::Document(
                path@,
                match anchor {
                    Some(a) => Some(a@),
                    None => None,
                },
            ),
            LinkRoute::Pass => LinkRouteView::Pass,
        }
    }
}

/// `s` split at its first `c`: the part before, and the part after when
/// there is a `c`.
pub open spec fn split_first(s: Seq<char>, c: char) -> (Seq<char>, Option<Seq<char>>) {
    match find_char(s, 0, c) {
        Some(k) => (s.take(k), Some(s.skip(k + 1))),
        None => (s, None),
    }
}

/// The route of a clicked link `uri` while the document at `base` is shown.
/// A document link keeps its fragment as the heading to jump to, unless
/// the fragment is empty.
pub open spec fn route_link_spec(uri: Seq<char>, base: Seq<char>) -> LinkRouteView {
    if has_prefix(uri, "http://"@) || has_prefix(uri, "https://"@) {
        LinkRouteView::External
    } else if has_prefix(uri, DOC_PREFIX@) {
        let (path, fragment) = split_first(uri.skip(DOC_PREFIX@.len() as int), '#');
        if DOC_PREFIX@ + path == base {
            LinkRouteView::SameDocument
        } else {
            LinkRouteView::Document(
                path,
                match fragment {
                    Some(f) => if f.len() > 0 {
                        Some(f)
                    } else {
                        None
                    },
                    None => None,
                },
            )
        }
    } else {
        LinkRouteView::Pass
    }
}

/// Every web address goes to the system browser, whatever document is
/// shown: a link that begins with `http://` or `https://` routes to
/// `External`.
pub proof fn lemma_web_links_are_external(rest: Seq<char>, base: Seq<char>)
    ensures
        route_link_spec("http://"@ + rest, base) == LinkRouteView::External,
        route_link_spec("https://"@ + rest, base) == LinkRouteView::External,
{
    reveal_strlit("http://");
    reveal_strlit("https://");
    assert(("http://"@ + rest).take(7) =~= "http://"@);
    assert(("https://"@ + rest).take(8) =~= "https://"@);
}

/// A link into the reader's own documents with no fragment names that
/// document: the page shown, or another document with no heading to jump
/// to.
pub proof fn lemma_document_links(path: Seq<char>, base: Seq<char>)
    requires
        !has_char(path, '#'),
    ensures
        route_link_spec(DOC_PREFIX@ + path, base) == if DOC_PREFIX@ + path == base {
            LinkRouteView::SameDocument
        } else {
            LinkRouteView::Document(path, None)
        },
{
    reveal_strlit("moremaid://doc");
    reveal_strlit("http://");
    reveal_strlit("https://");
    let u = DOC_PREFIX@ + path;
    assert(u.take(DOC_PREFIX@.len() as int) =~= DOC_PREFIX@);
    assert(u.skip(DOC_PREFIX@.len() as int) =~= path);
    assert(u[0] == 'm');
    assert(!has_prefix(u, "http://"@)) by {
        assert(u.take(7)[0] == 'm');
    }
    assert(!has_prefix(u, "https://"@)) by {
        assert(u.take(8)[0] == 'm');
    }
    lemma_find_char_absent(path, 0, '#');
}

/// No `c` in `s` from `i` on: `find_char` finds none.
proof fn lemma_find_char_absent(s: Seq<char>, i: int, c: char)
    requires
        0 <= i,
        !has_char(s, c),
    ensures
        find_char(s, i, c) is None,
    decreases s.len() - i,
{
    if i < s.len() {
        assert(s[i] != c);
        lemma_find_char_absent(s, i + 1, c);
    }
}

/// Whether `c` occurs in `s`.
pub open spec fn has_char(s: Seq<char>, c: char) -> bool {
    exists|k: int| 0 <= k < s.len() && s[k] == c
}

/// `v` split at its first `c` (see `split_first`).
fn split_at_first(v: &Vec<char>, c: char) -> (r: (Vec<char>, Option<Vec<char>>))
    ensures
        r.0@ == split_first(v@, c).0,
        match (r.1, split_first(v@, c).1) {
            (Some(a), Some(b)) => a@ == b,
            (None, None) => true,
            _ => false,
        },
{
    proof {
        crate::text::lemma_find_char_bounds(v@, 0, c);
    }
    match find(v, 0, c) {
        Some(k) => {
            assert(find_char(v@, 0, c) == Some(k as int));
            assert(k < v.len());
            let before = slice_of(v, 0, k);
            let after = slice_of(v, k + 1, v.len());
            assert(after@ == v@.skip(k + 1));
            (before, Some(after))
        },
        None => {
            let all = slice_of(v, 0, v.len());
            assert(all@ == v@);
            (all, None)
        },
    }
}

/// Where a clicked link goes (see `route_link_spec`).
pub fn route_link(uri: &str, base: &str) -> (r: LinkRoute)
    ensures
        r@ == route_link_spec(uri@, base@),
{
    let u = chars_of(uri);
    if begins_with(&u, "http://") || begins_with(&u, "https://") {
        return LinkRoute::External;
    }
    if !begins_with(&u, DOC_PREFIX) {
        return LinkRoute::Pass;
    }
    let n = chars_of(DOC_PREFIX).len();
    let rest = slice_of(&u, n, u.len());
    assert(rest@ == u@.skip(DOC_PREFIX@.len() as int));
    let (path, fragment) = split_at_first(&rest, '#');
    let mut full = chars_of(DOC_PREFIX);
    crate::text::push_all(&mut full, &path);
    let b = chars_of(base);
    if crate::text::chars_eq(&full, &b) {
        return LinkRoute::SameDocument;
    }
    let anchor = match fragment {
        Some(f) => if f.len() > 0 {
            Some(string_of(&f))
        } else {
            None
        },
        None => None,
    };
    LinkRoute::Document { path: string_of(&path), anchor }
}

/// Whether a click opens its target in a new window: a middle click, or a
/// click with Ctrl or Shift held (`control_mask` and `shift_mask` are the
/// toolkit's bits for those keys).
pub fn opens_new_window(button: u32, modifiers: u32, control_mask: u32, shift_mask: u32) -> (r: bool)
    ensures
        r == (button == 2 || modifiers & control_mask != 0 || modifiers & shift_mask != 0),
{
    button == 2 || modifiers & control_mask != 0 || modifiers & shift_mask != 0
}

/// What to do with a document link once the file system has been asked
/// about its path.
#[derive(Debug, Clone, Copy, PartialEq, Eq)]
pub enum LinkAction {
    /// Open the target in a new reader process.
    SpawnWindow,
    /// Show the directory listing in this window.
    ShowListing,
    /// Load the document in this window.
    LoadDocument,
    /// Not a directory nor a text file: the page handles the link.
    Pass,
}

/// A directory opens as a listing, a text file as a document, either in a
/// new window when asked; anything else is left to the page.
pub fn link_action(is_dir: bool, is_text_file: bool, new_window: bool) -> (r: LinkAction)
    ensures
        r == (if is_dir || is_text_file {
            if new_window {
                LinkAction::SpawnWindow
            } else if is_dir {
                LinkAction::ShowListing
            } else {
                LinkAction::LoadDocument
            }
        } else {
            LinkAction::Pass
        }),
{
    if is_dir {
        if new_window {
            LinkAction::SpawnWindow
        } else {
            LinkAction::ShowListing
        }
    } else if is_text_file {
        if new_window {
            LinkAction::SpawnWindow
        } else {
            LinkAction::LoadDocument
        }
    } else {
        LinkAction::Pass
    }
}

// ---------------------------------------------------------------------
// scheme requests
// ---------------------------------------------------------------------

/// What a `moremaid://` request asks for.
#[derive(Debug, Clone, PartialEq, Eq)]
pub enum SchemeRoute {
    /// A file under the web assets root (path still percent-encoded).
    Asset(String),
    /// A local file by absolute path, less its leading `/` (still
    /// percent-encoded).
    Doc(String),
    /// Anything else.
    NotFound,
}

pub enum SchemeRouteView {
    Asset(Seq<char>),
    Doc(Seq<char>),
    NotFound,
}

impl View for SchemeRoute {
    type V = SchemeRouteView;

    open spec fn view(&self) -> SchemeRouteView {
        match self {
            SchemeRoute::Asset(p) => SchemeRouteView::Asset(p@),
            SchemeRoute::Doc(p) => SchemeRouteView::Doc(p@),
            SchemeRoute::NotFound => SchemeRouteView::NotFound,
        }
    }
}

/// Index of the first `?` or `#` of `s` at or after `i`, or its length.
pub open spec fn query_start(s: Seq<char>, i: int) -> int
    decreases s.len() - i,
{
    if i < 0 || i >= s.len() {
        s.len() as int
    } else if s[i] == '?' || s[i] == '#' {
        i
    } else {
        query_start(s, i + 1)
    }
}

pub proof fn lemma_query_start_bounds(s: Seq<char>, i: int)
    requires
        0 <= i <= s.len(),
    ensures
        i <= query_start(s, i) <= s.len(),
    decreases s.len() - i,
{
    if i < s.len() && !(s[i] == '?' || s[i] == '#') {
        lemma_query_start_bounds(s, i + 1);
    }
}

/// The route of a scheme request for `uri`: the part after `moremaid://`
/// up to any query or fragment is `host/path`; host `assets` names an
/// asset, host `doc` a local file.
pub open spec fn route_scheme_spec(uri: Seq<char>) -> SchemeRouteView {
    let rest = if has_prefix(uri, SCHEME_PREFIX@) {
        uri.skip(SCHEME_PREFIX@.len() as int)
    } else {
        Seq::empty()
    };
    let cut = rest.take(query_start(rest, 0));
    let (host, path) = match split_first(cut, '/') {
        (h, Some(p)) => (h, p),
        (h, None) => (h, Seq::empty()),
    };
    if host == "assets"@ {
        SchemeRouteView::Asset(path)
    } else if host == "doc"@ {
        SchemeRouteView::Doc(path)
    } else {
        SchemeRouteView::NotFound
    }
}

/// What a scheme request asks for (see `route_scheme_spec`).
pub fn route_scheme(uri: &str) -> (r: SchemeRoute)
    ensures
        r@ == route_scheme_spec(uri@),
{
    let u = chars_of(uri);
    let rest = if begins_with(&u, SCHEME_PREFIX) {
        let n = chars_of(SCHEME_PREFIX).len();
        slice_of(&u, n, u.len())
    } else {
        Vec::new()
    };
    assert(rest@ == (if has_prefix(u@, SCHEME_PREFIX@) {
        u@.skip(SCHEME_PREFIX@.len() as int)
    } else {
        Seq::empty()
    }));
    let mut k: usize = 0;
    while k < rest.len() && rest[k] != '?' && rest[k] != '#'
        invariant
            k <= rest.len(),
            query_start(rest@, 0) == query_start(rest@, k as int),
        decreases rest.len() - k,
    {
        k += 1;
    }
    proof {
        lemma_query_start_bounds(rest@, 0);
    }
    let cut = slice_of(&rest, 0, k);
    let (host, path) = split_at_first(&cut, '/');
    let path = match path {
        Some(p) => p,
        None => Vec::new(),
    };
    if crate::text::chars_eq(&host, &chars_of("assets")) {
        SchemeRoute::Asset(string_of(&path))
    } else if crate::text::chars_eq(&host, &chars_of("doc")) {
        SchemeRoute::Doc(string_of(&path))
    } else {
        SchemeRoute::NotFound
    }
}

// ---------------------------------------------------------------------
// directory listings
// ---------------------------------------------------------------------

/// Whether a directory entry named `name` appears in a listing: hidden
/// entries and `node_modules` never do, directories always do, files only
/// when they are markdown or HTML.
pub fn listed_in_index(name: &str, is_dir: bool) -> (r: bool)
    ensures
        r == (!has_prefix(name@, "."@) && name@ != "node_modules"@ && (is_dir || crate::langmap::spec_is_markdown(name@) || crate::langmap::spec_is_html(name@))),
{
    let v = chars_of(name);
    if begins_with(&v, ".") {
        return false;
    }
    if crate::text::chars_eq(&v, &chars_of("node_modules")) {
        return false;
    }
    is_dir || is_markdown(name) || is_html(name)
}

/// `s` (sorted newest first) with `e` placed after every entry at least as
/// new as it.
pub open spec fn insert_by_age(s: Seq<EntryView>, e: EntryView) -> Seq<EntryView> {
    let k = newer_count(s, e.3);
    s.take(k).push(e) + s.skip(k)
}

/// How many leading entries of `s` are at least as new as `t`.
pub open spec fn newer_count(s: Seq<EntryView>, t: int) -> int
    decreases s.len(),
{
    if s.len() == 0 || s[0].3 < t {
        0
    } else {
        1 + newer_count(s.drop_first(), t)
    }
}

/// The entries newest first; entries of the same age keep their order.
pub open spec fn newest_first_spec(s: Seq<EntryView>) -> Seq<EntryView>
    decreases s.len(),
{
    if s.len() == 0 {
        s
    } else {
        insert_by_age(newest_first_spec(s.drop_last()), s.last())
    }
}

/// Whether `s` runs from newest to oldest.
pub open spec fn is_newest_first(s: Seq<EntryView>) -> bool {
    forall|i: int, j: int| 0 <= i < j < s.len() ==> s[i].3 >= s[j].3
}

pub proof fn lemma_newer_count_bounds(s: Seq<EntryView>, t: int)
    ensures
        0 <= newer_count(s, t) <= s.len(),
        forall|i: int| 0 <= i < newer_count(s, t) ==> s[i].3 >= t,
        newer_count(s, t) < s.len() ==> s[newer_count(s, t)].3 < t,
    decreases s.len(),
{
    if s.len() > 0 && s[0].3 >= t {
        lemma_newer_count_bounds(s.drop_first(), t);
        assert forall|i: int| 0 <= i < newer_count(s, t) implies s[i].3 >= t by {
            if i > 0 {
                assert(s[i] == s.drop_first()[i - 1]);
            }
        }
    }
}

/// Placing an entry by its age keeps a newest-first list newest first.
pub proof fn lemma_insert_by_age_sorted(s: Seq<EntryView>, e: EntryView)
    requires
        is_newest_first(s),
    ensures
        is_newest_first(insert_by_age(s, e)),
        insert_by_age(s, e).to_multiset() == s.to_multiset().insert(e),
{
    lemma_newer_count_bounds(s, e.3);
    let k = newer_count(s, e.3);
    let r = insert_by_age(s, e);
    assert(r.len() == s.len() + 1);
    assert forall|i: int| 0 <= i < r.len() implies #[trigger] r[i] == (if i < k {
        s[i]
    } else if i == k {
        e
    } else {
        s[i - 1]
    }) by {}
    assert forall|i: int, j: int| 0 <= i < j < r.len() implies r[i].3 >= r[j].3 by {
        if j < k {
        } else if j == k {
        } else if i == k {
            assert(r[j] == s[j - 1]);
            if k < s.len() {
                assert(s[k].3 < e.3);
                if j - 1 > k {
                    assert(s[k].3 >= s[j - 1].3);
                }
            }
        } else if i < k {
            assert(s[i].3 >= e.3);
        } else {
        }
    }
    vstd::seq_lib::lemma_seq_union_to_multiset_commutative(s.take(k).push(e), s.skip(k));
    assert(s == s.take(k) + s.skip(k));
    vstd::seq_lib::lemma_multiset_commutative(s.take(k), s.skip(k));
    vstd::seq_lib::lemma_multiset_commutative(s.take(k).push(e), s.skip(k));
    assert(s.take(k).push(e).to_multiset() == s.take(k).to_multiset().insert(e)) by {
        s.take(k).to_multiset_ensures();
    }
}

/// The listing order is newest first, and it lists each entry as often as
/// it was given.
pub proof fn lemma_newest_first(s: Seq<EntryView>)
    ensures
        is_newest_first(newest_first_spec(s)),
        newest_first_spec(s).to_multiset() == s.to_multiset(),
    decreases s.len(),
{
    if s.len() > 0 {
        lemma_newest_first(s.drop_last());
        lemma_insert_by_age_sorted(newest_first_spec(s.drop_last()), s.last());
        assert(s == s.drop_last().push(s.last()));
        s.drop_last().to_multiset_ensures();
    }
}

fn entry_copy(e: &IndexEntry) -> (r: IndexEntry)
    ensures
        r@ == e@,
{
    IndexEntry {
        name: string_of(&chars_of(e.name.as_str())),
        is_dir: e.is_dir,
        size: e.size,
        modified_epoch: e.modified_epoch,
        href: string_of(&chars_of(e.href.as_str())),
    }
}

/// The listing order: newest first, entries of the same age in the order
/// given (see `newest_first_spec`).
pub fn newest_first(entries: &Vec<IndexEntry>) -> (r: Vec<IndexEntry>)
    ensures
        crate::html::entries_view(r@) == newest_first_spec(crate::html::entries_view(entries@)),
{
    let ghost ev = crate::html::entries_view(entries@);
    let mut out: Vec<IndexEntry> = Vec::new();
    let mut i: usize = 0;
    assert(ev.take(0) =~= Seq::<EntryView>::empty());
    assert(crate::html::entries_view(out@) =~= Seq::<EntryView>::empty());
    while i < entries.len()
        invariant
            i <= entries.len(),
            ev == crate::html::entries_view(entries@),
            crate::html::entries_view(out@) == newest_first_spec(ev.take(i as int)),
            out.len() == i,
        decreases entries.len() - i,
    {
        let e = entry_copy(&entries[i]);
        let ghost sorted = crate::html::entries_view(out@);
        let t = e.modified_epoch;
        let mut k: usize = 0;
        assert(sorted.skip(0) == sorted);
        while k < out.len() && out[k].modified_epoch >= t
            invariant
                k <= out.len(),
                sorted == crate::html::entries_view(out@),
                newer_count(sorted, t as int) == k + newer_count(sorted.skip(k as int), t as int),
            decreases out.len() - k,
        {
            assert(sorted.skip(k as int).drop_first() == sorted.skip(k + 1));
            k += 1;
        }
        if k < out.len() {
            assert(sorted.skip(k as int)[0] == sorted[k as int]);
        }
        assert(newer_count(sorted, t as int) == k);
        let ghost ee = e@;
        out.insert(k, e);
        assert(ev.take(i + 1).drop_last() == ev.take(i as int));
        assert(ev.take(i + 1).last() == ee);
        assert(crate::html::entries_view(out@) =~= insert_by_age(sorted, ee));
        i += 1;
    }
    assert(ev.take(entries.len() as int) == ev);
    out
}

// ---------------------------------------------------------------------
// text and binary files
// ---------------------------------------------------------------------

/// How much of a file is looked at to tell text from binary.
pub const SNIFF_LEN: usize = 8192;

/// A file is taken for binary when a zero byte occurs among its first
/// `SNIFF_LEN` bytes.
pub open spec fn looks_binary_spec(data: Seq<u8>) -> bool {
    exists|i: int| 0 <= i < data.len() && i < SNIFF_LEN && data[i] == 0
}

/// Whether `data` (a file's contents, or its first bytes) looks binary.
pub fn looks_binary(data: &[u8]) -> (r: bool)
    ensures
        r == looks_binary_spec(data@),
{
    let n = if data.len() < SNIFF_LEN {
        data.len()
    } else {
        SNIFF_LEN
    };
    let mut i: usize = 0;
    while i < n
        invariant
            i <= n <= data.len(),
            n <= SNIFF_LEN,
            n == data.len() || n == SNIFF_LEN,
            forall|j: int| 0 <= j < i ==> data@[j] != 0,
        decreases n - i,
    {
        if data[i] == 0 {
            return true;
        }
        i += 1;
    }
    false
}

/// The address of a local file, from its percent-encoded absolute path.
pub fn doc_uri(escaped_path: &str) -> (r: String)
    ensures
        r@ == DOC_PREFIX@ + escaped_path@,
{
    let mut v = chars_of(DOC_PREFIX);
    crate::text::push_str_chars(&mut v, escaped_path);
    string_of(&v)
}

/// The base address of the documents of a directory, from its
/// percent-encoded absolute path: relative links resolve against it.
pub fn doc_base_uri(escaped_dir: &str) -> (r: String)
    ensures
        r@ == DOC_PREFIX@ + escaped_dir@ + "/"@,
{
    let mut v = chars_of(DOC_PREFIX);
    crate::text::push_str_chars(&mut v, escaped_dir);
    crate::text::push_str_chars(&mut v, "/");
    string_of(&v)
}

/// The complaint about a command-line path that does not exist.
pub fn missing_path_message(arg: &str) -> (r: String)
    ensures
        r@ == arg@ + ": no such file or directory"@,
{
    let mut v = chars_of(arg);
    crate::text::push_str_chars(&mut v, ": no such file or directory");
    string_of(&v)
}

/// The complaint about a binary file given on the command line.
pub fn binary_file_message(path: &str, len: u64) -> (r: String)
    ensures
        r@ == path@ + " is a binary file ("@ + crate::text::decimal(len as nat)
            + " bytes) \u{2014} Moremaid reads text documents"@,
{
    let mut v = chars_of(path);
    crate::text::push_str_chars(&mut v, " is a binary file (");
    crate::text::push_decimal(&mut v, len);
    crate::text::push_str_chars(&mut v, " bytes) \u{2014} Moremaid reads text documents");
    string_of(&v)
}

// ---------------------------------------------------------------------
// the directory scan
// ---------------------------------------------------------------------

/// How many paths the scan hands on at a time.
pub const SCAN_BATCH: usize = 128;

/// Whether the scan goes into (or looks at) an entry named `name`: never
/// into `.git` or `node_modules`.
pub fn walk_enters(name: &str) -> (r: bool)
    ensures
        r == (name@ != ".git"@ && name@ != "node_modules"@),
{
    let v = chars_of(name);
    !crate::text::chars_eq(&v, &chars_of(".git")) && !crate::text::chars_eq(&v, &chars_of("node_modules"))
}

/// Whether the scan reports an entry: a file with a markdown name.
pub fn scan_keeps(is_file: bool, name: &str) -> (r: bool)
    ensures
        r == (is_file && crate::langmap::spec_is_markdown(name@)),
{
    is_file && is_markdown(name)
}

} // verus!
