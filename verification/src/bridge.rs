//! The conversation between the reader and the script of its pages: the
//! JavaScript the reader runs in a page, the kinds of message a page sends
//! back, and the heading rows a page reports.

use vstd::prelude::*;
use crate::text::{begins_with, chars_of, push_str_chars, string_of};
use crate::html::{json_str, spec_json_str};
use crate::langmap::{is_html, is_markdown, language_for_file, spec_is_html, spec_is_markdown, spec_language_for_file};
use crate::headings::Heading;

verus! {

/// The parts joined, in order, as one `String`.
fn concat(parts: &Vec<&str>) -> (r: String)
    ensures
        r@ == parts_text(parts@),
{
    let mut out: Vec<char> = Vec::new();
    let mut i: usize = 0;
    while i < parts.len()
        invariant
            i <= parts.len(),
            out@ == parts_text(parts@.take(i as int)),
        decreases parts.len() - i,
    {
        push_str_chars(&mut out, parts[i]);
        i += 1;
        assert(parts@.take(i as int).drop_last() == parts@.take(i - 1));
    }
    assert(parts@.take(parts.len() as int) == parts@);
    string_of(&out)
}

/// The characters of `parts`, one after the other.
pub open spec fn parts_text(parts: Seq<&str>) -> Seq<char>
    decreases parts.len(),
{
    if parts.len() == 0 {
        Seq::empty()
    } else {
        parts_text(parts.drop_last()) + parts.last()@
    }
}

// ---------------------------------------------------------------------
// scripts run in a page
// ---------------------------------------------------------------------

/// Jumps to the heading with id `id`. The hash is cleared first so that a
/// repeated jump to the same heading scrolls again.
pub fn scroll_script(id: &str) -> (r: String)
    ensures
        r@ == "location.hash = ''; location.hash = '#' + "@ + spec_json_str(id@) + ";"@,
{
    let j = json_str(id);
    let r = concat(&vec!["location.hash = ''; location.hash = '#' + ", j.as_str(), ";"]);
    proof {
        reveal_with_fuel(parts_text, 4);
    }
    r
}

/// Highlights the occurrences of `query` in the page.
pub fn highlight_script(query: &str) -> (r: String)
    ensures
        r@ == "highlightSearchQuery("@ + spec_json_str(query@) + ");"@,
{
    let j = json_str(query);
    let r = concat(&vec!["highlightSearchQuery(", j.as_str(), ");"]);
    proof {
        reveal_with_fuel(parts_text, 4);
    }
    r
}

/// Whether a change to the watched document reloads the page: a rendered
/// HTML document has no script to re-render in place, so it is loaded
/// again (while it exists).
pub fn refresh_reloads(file_name: &str, view_source: bool, exists: bool) -> (r: bool)
    ensures
        r == (spec_is_html(file_name@) && !view_source && exists),
{
    is_html(file_name) && !view_source && exists
}

/// The banner text shown when the watched document is gone.
pub open spec fn gone_text(file_name: Seq<char>) -> Seq<char> {
    file_name + " is gone \u{2014} keeping the last good render. It will reload if the file returns."@
}

/// The script that brings a page up to date after its document changed on
/// disk: the new `content` re-rendered in place (as markdown when the page
/// renders markdown, else as code in the file's language), or, when the
/// document can no longer be read, a banner saying the last good render is
/// kept.
pub open spec fn refresh_script_spec(file_name: Seq<char>, view_source: bool, content: Option<Seq<char>>) -> Seq<char> {
    match content {
        Some(c) => if spec_is_markdown(file_name) && !view_source {
            "moremaidClearBanner(); reRenderMarkdown("@ + spec_json_str(c) + ");"@
        } else {
            "moremaidClearBanner(); reRenderCode("@ + spec_json_str(c) + ", "@ + spec_json_str(
                spec_language_for_file(file_name),
            ) + ");"@
        },
        None => "moremaidShowBanner("@ + spec_json_str(gone_text(file_name)) + ");"@,
    }
}

/// The refresh script (see `refresh_script_spec`).
pub fn refresh_script(file_name: &str, view_source: bool, content: Option<&str>) -> (r: String)
    ensures
        r@ == refresh_script_spec(
            file_name@,
            view_source,
            match content {
                Some(c) => Some(c@),
                None => None,
            },
        ),
{
    proof {
        reveal_with_fuel(parts_text, 6);
    }
    match content {
        Some(c) => {
            let j = json_str(c);
            if is_markdown(file_name) && !view_source {
                concat(&vec!["moremaidClearBanner(); reRenderMarkdown(", j.as_str(), ");"])
            } else {
                let lang = json_str(language_for_file(file_name));
                concat(&vec!["moremaidClearBanner(); reRenderCode(", j.as_str(), ", ", lang.as_str(), ");"])
            }
        },
        None => {
            let text = concat(&vec![file_name, " is gone \u{2014} keeping the last good render. It will reload if the file returns."]);
            let j = json_str(text.as_str());
            concat(&vec!["moremaidShowBanner(", j.as_str(), ");"])
        },
    }
}

/// The window title for a document or listing named `name`.
pub fn window_title(name: &str) -> (r: String)
    ensures
        r@ == name@ + " \u{2014} Moremaid"@,
{
    let r = concat(&vec![name, " \u{2014} Moremaid"]);
    proof {
        reveal_with_fuel(parts_text, 3);
    }
    r
}

// ---------------------------------------------------------------------
// messages from a page
// ---------------------------------------------------------------------

/// The kinds of message a page sends.
#[derive(Debug, Clone, Copy, PartialEq, Eq)]
pub enum MessageKind {
    /// The page finished rendering the load it echoes the number of.
    LoadComplete,
    /// The page reports the headings it rendered.
    Headings,
    /// The page painted its document for the first time.
    FirstRender,
    Other,
}

/// The kind of a message: told by how its JSON text begins.
pub open spec fn message_kind_spec(msg: Seq<char>) -> MessageKind {
    if crate::text::has_prefix(msg, "{\"type\":\"loadComplete\""@) {
        MessageKind::LoadComplete
    } else if crate::text::has_prefix(msg, "{\"type\":\"headings\""@) {
        MessageKind::Headings
    } else if crate::text::has_prefix(msg, "{\"type\":\"firstRender\""@) {
        MessageKind::FirstRender
    } else {
        MessageKind::Other
    }
}

/// The kind of a message (see `message_kind_spec`).
pub fn message_kind(msg: &str) -> (r: MessageKind)
    ensures
        r == message_kind_spec(msg@),
{
    let v = chars_of(msg);
    if begins_with(&v, "{\"type\":\"loadComplete\"") {
        MessageKind::LoadComplete
    } else if begins_with(&v, "{\"type\":\"headings\"") {
        MessageKind::Headings
    } else if begins_with(&v, "{\"type\":\"firstRender\"") {
        MessageKind::FirstRender
    } else {
        MessageKind::Other
    }
}

/// One reported heading as the page's JSON gives it: its `level` as an
/// unsigned integer, its `text` and its `id` as strings, each absent when
/// the member is missing or of another type.
pub struct HeadingRow {
    pub level: Option<u64>,
    pub text: Option<String>,
    pub id: Option<String>,
}

/// A heading row as plain values: `(level, text, id)`.
pub type RowView = (Option<u64>, Option<Seq<char>>, Option<Seq<char>>);

impl View for HeadingRow {
    type V = RowView;

    open spec fn view(&self) -> RowView {
        (
            self.level,
            match self.text {
                Some(t) => Some(t@),
                None => None,
            },
            match self.id {
                Some(t) => Some(t@),
                None => None,
            },
        )
    }
}

pub open spec fn rows_view(rows: Seq<HeadingRow>) -> Seq<RowView> {
    rows.map_values(|r: HeadingRow| r@)
}

/// The headings of a report: the rows that have all three members, the
/// level cut to its low byte.
pub open spec fn headings_of_rows(rows: Seq<RowView>) -> Seq<(nat, Seq<char>, Seq<char>)>
    decreases rows.len(),
{
    if rows.len() == 0 {
        Seq::empty()
    } else {
        let r = rows.last();
        let before = headings_of_rows(rows.drop_last());
        match r {
            (Some(l), Some(t), Some(i)) => before.push(((l % 256) as nat, t, i)),
            _ => before,
        }
    }
}

/// The headings of a report (see `headings_of_rows`).
pub fn headings_from_rows(rows: &Vec<HeadingRow>) -> (r: Vec<Heading>)
    ensures
        r@.map_values(|h: Heading| h@) == headings_of_rows(rows_view(rows@)),
{
    let ghost rv = rows_view(rows@);
    let mut out: Vec<Heading> = Vec::new();
    let mut i: usize = 0;
    assert(out@.map_values(|h: Heading| h@) =~= Seq::<(nat, Seq<char>, Seq<char>)>::empty());
    while i < rows.len()
        invariant
            i <= rows.len(),
            rv == rows_view(rows@),
            out@.map_values(|h: Heading| h@) == headings_of_rows(rv.take(i as int)),
        decreases rows.len() - i,
    {
        assert(rv.take(i + 1).drop_last() == rv.take(i as int));
        assert(rv.take(i + 1).last() == rows@[i as int]@);
        let row = &rows[i];
        match (row.level, &row.text, &row.id) {
            (Some(l), Some(t), Some(d)) => {
                let level = (l % 256) as u8;
                let h = Heading {
                    level,
                    text: string_of(&chars_of(t.as_str())),
                    id: string_of(&chars_of(d.as_str())),
                };
                let ghost before = out@;
                out.push(h);
                assert(out@.map_values(|h: Heading| h@) =~= before.map_values(|h: Heading| h@).push(
                    h@,
                ));
            },
            _ => {},
        }
        i += 1;
    }
    assert(rv.take(rows.len() as int) == rv);
    out
}

/// The token member of a page message: what `serde_json::from_str` into a
/// `serde_json::Value` followed by `get("token")` and `as_u64` gives;
/// `None` when the text is no JSON, has no such member, or it is no
/// unsigned integer.
pub uninterp spec fn json_token(msg: Seq<char>) -> Option<u64>;

/// The heading rows of a page message: what `serde_json::from_str` into a
/// `serde_json::Value`, then the `headings` member as an array, gives, each
/// element read as `level` (`as_u64`), `text` and `id` (`as_str`); `None`
/// when the text is no JSON or has no `headings` array.
pub uninterp spec fn json_heading_rows(msg: Seq<char>) -> Option<Seq<RowView>>;

/// Calls `serde_json::from_str::<serde_json::Value>`, `Value::get("token")`
/// and `Value::as_u64`. Claimed: the result is `json_token` of the text;
/// JSON parsing itself is not restated.
#[verifier::external_body]
pub(crate) fn message_token(msg: &str) -> (r: Option<u64>)
    ensures
        r == json_token(msg@),
{
    serde_json::from_str::<serde_json::Value>(msg).ok().and_then(|v| v.get("token").and_then(|t| t.as_u64()))
}

/// Calls `serde_json::from_str::<serde_json::Value>` and reads the
/// `headings` array with `Value::get`, `as_array`, `as_u64` and `as_str`.
/// Claimed: the rows are `json_heading_rows` of the text.
#[verifier::external_body]
fn message_heading_rows(msg: &str) -> (r: Option<Vec<HeadingRow>>)
    ensures
        match r {
            Some(rows) => json_heading_rows(msg@) == Some(rows_view(rows@)),
            None => json_heading_rows(msg@) is None,
        },
{
    let v: serde_json::Value = serde_json::from_str(msg).ok()?;
    let hs = v.get("headings")?.as_array()?;
    Some(hs.iter().map(|h| HeadingRow {
        level: h.get("level").and_then(|x| x.as_u64()),
        text: h.get("text").and_then(|x| x.as_str()).map(|x| x.to_string()),
        id: h.get("id").and_then(|x| x.as_str()).map(|x| x.to_string()),
    }).collect())
}

/// The headings a page reports in a `headings` message: `None` when the
/// message holds no `headings` array, else the rows that have a level, a
/// text and an id (see `headings_of_rows`).
pub fn parse_headings_message(msg: &str) -> (r: Option<Vec<Heading>>)
    ensures
        match json_heading_rows(msg@) {
            Some(rows) => r matches Some(hs) && hs@.map_values(|h: Heading| h@) == headings_of_rows(rows),
            None => r is None,
        },
{
    match message_heading_rows(msg) {
        Some(rows) => Some(headings_from_rows(&rows)),
        None => None,
    }
}

} // verus!
