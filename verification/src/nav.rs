//! Navigation state of a reader window: the back/forward history (a page
//! load carries no browser history, so the window keeps its own) and the
//! bookkeeping that ties a pending heading jump or search highlight to the
//! page load that is to deliver it.

use vstd::prelude::*;
use crate::text::{chars_eq, chars_of, seqs_of};

verus! {

// ---------------------------------------------------------------------
// history
// ---------------------------------------------------------------------

/// A place the window has shown: a document or a directory listing.
#[derive(Debug, Clone)]
pub enum HistoryEntry {
    File(String),
    Dir(String),
}

impl View for HistoryEntry {
    /// `(is a directory, path)`.
    type V = (bool, Seq<char>);

    open spec fn view(&self) -> (bool, Seq<char>) {
        match self {
            HistoryEntry::File(p) => (false, p@),
            HistoryEntry::Dir(p) => (true, p@),
        }
    }
}

/// The pieces of a path between `/` separators, empty ones included
/// (`str::split('/')`).
pub open spec fn path_pieces(s: Seq<char>) -> Seq<Seq<char>>
    decreases s.len(),
{
    if s.len() == 0 {
        seq![Seq::<char>::empty()]
    } else {
        let p = path_pieces(s.drop_last());
        if s.last() == '/' {
            p.push(Seq::<char>::empty())
        } else {
            p.update(p.len() - 1, p.last().push(s.last()))
        }
    }
}

/// Whether the piece at position `j` names a component: it is not empty,
/// and it is not `.` unless it leads the path.
pub open spec fn is_component(piece: Seq<char>, j: int) -> bool {
    piece.len() > 0 && (piece != seq!['.'] || j == 0)
}

/// The pieces that name components, in order.
pub open spec fn kept_components(pieces: Seq<Seq<char>>) -> Seq<Seq<char>>
    decreases pieces.len(),
{
    if pieces.len() == 0 {
        Seq::empty()
    } else {
        let rest = kept_components(pieces.drop_last());
        if is_component(pieces.last(), pieces.len() - 1) {
            rest.push(pieces.last())
        } else {
            rest
        }
    }
}

/// A path as `Path::components` reads it on Unix: whether it starts at the
/// root, and its named components (repeated and trailing separators and
/// inner `.` components do not count).
pub open spec fn path_components(s: Seq<char>) -> (bool, Seq<Seq<char>>) {
    (s.len() > 0 && s[0] == '/', kept_components(path_pieces(s)))
}

/// Two entries name the same place: both documents or both directories,
/// with paths equal as `Path` compares them (component by component).
pub open spec fn same_place(a: (bool, Seq<char>), b: (bool, Seq<char>)) -> bool {
    a.0 == b.0 && path_components(a.1) == path_components(b.1)
}

/// The named components of `p`.
fn components_of(p: &str) -> (r: Vec<Vec<char>>)
    ensures
        seqs_of(r@) == kept_components(path_pieces(p@)),
{
    let v = chars_of(p);
    let mut out: Vec<Vec<char>> = Vec::new();
    let mut cur: Vec<char> = Vec::new();
    let mut j: usize = 0;
    let ghost mut done: Seq<Seq<char>> = Seq::empty();
    let mut i: usize = 0;
    assert(v@.take(0) =~= Seq::<char>::empty());
    assert(path_pieces(Seq::<char>::empty()) =~= done.push(cur@));
    while i < v.len()
        invariant
            i <= v.len(),
            j <= i,
            j == done.len(),
            path_pieces(v@.take(i as int)) == done.push(cur@),
            seqs_of(out@) == kept_components(done),
        decreases v.len() - i,
    {
        let c = v[i];
        assert(v@.take(i + 1).drop_last() == v@.take(i as int));
        let ghost before = done.push(cur@);
        if c == '/' {
            let keep = cur.len() > 0 && !(cur.len() == 1 && cur[0] == '.' && j != 0);
            let ghost old_done = done;
            let ghost piece = cur@;
            proof {
                if cur.len() == 1 && cur@[0] == '.' {
                    assert(cur@ =~= seq!['.']);
                }
                done = done.push(cur@);
                assert(done.drop_last() == old_done);
                assert(done.last() == piece);
                assert(kept_components(done) == if is_component(piece, j as int) {
                    kept_components(old_done).push(piece)
                } else {
                    kept_components(old_done)
                });
            }
            assert(keep == is_component(piece, j as int));
            let ghost out0 = out@;
            if keep {
                let finished = cur;
                out.push(finished);
                assert(seqs_of(out@) =~= seqs_of(out0).push(piece));
            }
            cur = Vec::new();
            j = j + 1;
            assert(done.push(cur@) =~= before.push(Seq::<char>::empty()));
        } else {
            cur.push(c);
            assert(done.push(cur@) =~= before.update(before.len() - 1, before.last().push(c)));
        }
        i += 1;
    }
    assert(v@.take(v.len() as int) == v@);
    let keep = cur.len() > 0 && !(cur.len() == 1 && cur[0] == '.' && j != 0);
    let ghost piece = cur@;
    proof {
        if cur.len() == 1 && cur@[0] == '.' {
            assert(cur@ =~= seq!['.']);
        }
        assert(done.push(piece).drop_last() == done);
        assert(kept_components(done.push(piece)) == if is_component(piece, j as int) {
            kept_components(done).push(piece)
        } else {
            kept_components(done)
        });
    }
    assert(keep == is_component(piece, j as int));
    let ghost out0 = out@;
    if keep {
        out.push(cur);
        assert(seqs_of(out@) =~= seqs_of(out0).push(piece));
    }
    out
}

/// Whether two lists of components are equal.
fn components_eq(a: &Vec<Vec<char>>, b: &Vec<Vec<char>>) -> (r: bool)
    ensures
        r == (seqs_of(a@) == seqs_of(b@)),
{
    if a.len() != b.len() {
        assert(seqs_of(a@).len() != seqs_of(b@).len());
        return false;
    }
    let mut i: usize = 0;
    while i < a.len()
        invariant
            i <= a.len() == b.len(),
            forall|k: int| 0 <= k < i ==> a@[k]@ == b@[k]@,
        decreases a.len() - i,
    {
        if !chars_eq(&a[i], &b[i]) {
            assert(seqs_of(a@)[i as int] != seqs_of(b@)[i as int]);
            return false;
        }
        i += 1;
    }
    assert(seqs_of(a@) =~= seqs_of(b@));
    true
}

/// Whether two paths are equal as `Path` compares them.
fn same_path(a: &str, b: &str) -> (r: bool)
    ensures
        r == (path_components(a@) == path_components(b@)),
{
    let va = chars_of(a);
    let vb = chars_of(b);
    let abs_a = va.len() > 0 && va[0] == '/';
    let abs_b = vb.len() > 0 && vb[0] == '/';
    if abs_a != abs_b {
        return false;
    }
    components_eq(&components_of(a), &components_of(b))
}

impl HistoryEntry {
    /// Whether two entries name the same place (see `same_place`).
    pub fn same(&self, other: &HistoryEntry) -> (r: bool)
        ensures
            r == same_place(self@, other@),
    {
        match (self, other) {
            (HistoryEntry::File(a), HistoryEntry::File(b)) => same_path(a.as_str(), b.as_str()),
            (HistoryEntry::Dir(a), HistoryEntry::Dir(b)) => same_path(a.as_str(), b.as_str()),
            _ => false,
        }
    }

    /// An entry naming the same place.
    pub fn copy(&self) -> (r: HistoryEntry)
        ensures
            r@ == self@,
    {
        match self {
            HistoryEntry::File(p) => HistoryEntry::File(crate::text::string_of(&crate::text::chars_of(p.as_str()))),
            HistoryEntry::Dir(p) => HistoryEntry::Dir(crate::text::string_of(&crate::text::chars_of(p.as_str()))),
        }
    }
}

/// The abstract history: the entries, the position of the one shown, and
/// whether a back/forward jump is under way.
pub struct HistoryView {
    pub entries: Seq<(bool, Seq<char>)>,
    pub pos: nat,
    pub jumping: bool,
}

/// The back/forward list of a window.
pub struct History {
    entries: Vec<HistoryEntry>,
    pos: usize,
    jumping: bool,
}

pub open spec fn entries_view(v: Seq<HistoryEntry>) -> Seq<(bool, Seq<char>)> {
    v.map_values(|e: HistoryEntry| e@)
}

/// The position points at an entry, or is 0 while there is none.
pub open spec fn history_wf(h: HistoryView) -> bool {
    if h.entries.len() == 0 {
        h.pos == 0
    } else {
        h.pos < h.entries.len()
    }
}

/// A completed navigation to `e`. Nothing is recorded while a jump is under
/// way, nor when `e` names the place shown; otherwise the entries after the
/// shown one are dropped and `e` becomes the last and shown entry.
pub open spec fn record_spec(h: HistoryView, e: (bool, Seq<char>)) -> HistoryView {
    if h.jumping || (h.pos < h.entries.len() && same_place(h.entries[h.pos as int], e)) {
        h
    } else {
        let kept = if h.entries.len() == 0 {
            h.entries
        } else {
            h.entries.take(h.pos + 1int)
        };
        HistoryView { entries: kept.push(e), pos: kept.len(), jumping: h.jumping }
    }
}

/// The position `delta` steps from the shown one, when it holds an entry.
pub open spec fn step_target(h: HistoryView, delta: int) -> Option<nat> {
    let p = h.pos + delta;
    if p < 0 || p >= h.entries.len() {
        None
    } else {
        Some(p as nat)
    }
}

/// The end of a jump: navigations are recorded again.
pub open spec fn end_jump_spec(h: HistoryView) -> HistoryView {
    HistoryView { entries: h.entries, pos: h.pos, jumping: false }
}

/// A back/forward jump: the shown position moves and a jump is under way.
pub open spec fn jump_spec(h: HistoryView, delta: int) -> HistoryView {
    match step_target(h, delta) {
        Some(p) => HistoryView { entries: h.entries, pos: p, jumping: true },
        None => h,
    }
}

impl View for History {
    type V = HistoryView;

    closed spec fn view(&self) -> HistoryView {
        HistoryView { entries: entries_view(self.entries@), pos: self.pos as nat, jumping: self.jumping }
    }
}

impl History {
    /// The invariant every operation keeps.
    pub closed spec fn wf(&self) -> bool {
        history_wf(self@)
    }

    /// What the invariant says of the abstract history.
    pub proof fn lemma_wf(&self)
        requires
            self.wf(),
        ensures
            history_wf(self@),
    {
    }

    /// An empty history.
    pub fn new() -> (h: History)
        ensures
            h.wf(),
            h@.entries.len() == 0,
            h@.pos == 0,
            !h@.jumping,
    {
        History { entries: Vec::new(), pos: 0, jumping: false }
    }

    /// Records a completed navigation (see `record_spec`).
    pub fn record(&mut self, entry: HistoryEntry)
        requires
            old(self).wf(),
        ensures
            final(self).wf(),
            final(self)@ == record_spec(old(self)@, entry@),
    {
        let ghost h0 = self@;
        if self.jumping {
            return;
        }
        if self.pos < self.entries.len() && self.entries[self.pos].same(&entry) {
            assert(same_place(self@.entries[self@.pos as int], entry@));
            return;
        }
        let ghost old_entries = self.entries@;
        let ghost old_pos = self.pos;
        assert(old_pos < old_entries.len() ==> entries_view(old_entries)[old_pos as int]
            == old_entries[old_pos as int]@);
        if self.entries.len() > 0 {
            self.entries.truncate(self.pos + 1);
        }
        let ghost e = entry@;
        self.entries.push(entry);
        self.pos = self.entries.len() - 1;
        assert(entries_view(self.entries@) =~= entries_view(old_entries).take(
            self.pos as int,
        ).push(e));
        assert(old_entries.len() > 0 ==> self.pos == old_pos + 1);
        assert(!(h0.pos < h0.entries.len() && same_place(h0.entries[h0.pos as int], e)));
        assert(record_spec(h0, e).entries == self@.entries);
    }

    /// Starts a back/forward jump of `delta` steps. `None`, and nothing
    /// changes, when no entry lies there; else the entry to load.
    pub fn jump(&mut self, delta: i64) -> (r: Option<HistoryEntry>)
        requires
            old(self).wf(),
        ensures
            final(self).wf(),
            final(self)@ == jump_spec(old(self)@, delta as int),
            match step_target(old(self)@, delta as int) {
                Some(p) => r matches Some(e) && e@ == old(self)@.entries[p as int],
                None => r is None,
            },
    {
        let p: i128 = self.pos as i128 + delta as i128;
        if p < 0 || p >= self.entries.len() as i128 {
            return None;
        }
        let p = p as usize;
        self.pos = p;
        self.jumping = true;
        Some(self.entries[p].copy())
    }

    /// The jump's load was issued: later navigations are recorded again.
    pub fn end_jump(&mut self)
        requires
            old(self).wf(),
        ensures
            final(self).wf(),
            final(self)@ == end_jump_spec(old(self)@),
    {
        self.jumping = false;
    }

    /// Whether a back step is possible.
    pub fn can_go_back(&self) -> (r: bool)
        ensures
            r == (self@.pos > 0 && self@.entries.len() > 0),
    {
        self.pos > 0 && self.entries.len() > 0
    }

    /// Whether a forward step is possible.
    pub fn can_go_forward(&self) -> (r: bool)
        ensures
            r == (self@.entries.len() > 0 && self@.pos + 1 < self@.entries.len()),
    {
        self.entries.len() > 0 && self.pos < self.entries.len() - 1
    }

    /// The entry shown, if any.
    pub fn current(&self) -> (r: Option<HistoryEntry>)
        ensures
            r matches Some(e) ==> self@.pos < self@.entries.len() && e@ == self@.entries[self@.pos as int],
            r is None ==> self@.pos >= self@.entries.len(),
    {
        if self.pos < self.entries.len() {
            Some(self.entries[self.pos].copy())
        } else {
            None
        }
    }
}

// ---------------------------------------------------------------------
// laws of the history
// ---------------------------------------------------------------------

/// Every operation keeps the position on an entry (or at 0 while there is
/// none).
pub proof fn lemma_history_wf_kept(h: HistoryView, e: (bool, Seq<char>), delta: int)
    requires
        history_wf(h),
    ensures
        history_wf(record_spec(h, e)),
        history_wf(jump_spec(h, delta)),
        history_wf(end_jump_spec(h)),
{
}

/// Outside a jump, a recorded navigation names the place shown afterwards.
/// Recording the place already shown changes nothing; any other entry
/// drops what lay ahead (nothing is left to go forward to), keeps the
/// entries up to the one shown before, and is shown itself.
pub proof fn lemma_record_shows_entry(h: HistoryView, e: (bool, Seq<char>))
    requires
        history_wf(h),
        !h.jumping,
    ensures
        ({
            let r = record_spec(h, e);
            let here = h.pos < h.entries.len() && same_place(h.entries[h.pos as int], e);
            &&& r.pos < r.entries.len()
            &&& same_place(r.entries[r.pos as int], e)
            &&& here ==> r == h
            &&& !here ==> {
                &&& r.entries[r.pos as int] == e
                &&& r.pos + 1 == r.entries.len()
                &&& h.entries.len() > 0 ==> r.entries.take(h.pos + 1int) == h.entries.take(
                    h.pos + 1int,
                )
            }
        }),
{
}

/// While a jump is under way nothing is recorded: the load the jump issues
/// does not record itself.
pub proof fn lemma_jump_records_nothing(h: HistoryView, delta: int, e: (bool, Seq<char>))
    requires
        history_wf(h),
        step_target(h, delta) is Some,
    ensures
        record_spec(jump_spec(h, delta), e) == jump_spec(h, delta),
{
}

/// Going back one step and then forward one step shows the entry shown
/// before, with the entries unchanged.
pub proof fn lemma_back_then_forward(h: HistoryView)
    requires
        history_wf(h),
        step_target(h, -1) is Some,
    ensures
        ({
            let back = end_jump_spec(jump_spec(h, -1));
            let fwd = end_jump_spec(jump_spec(back, 1));
            &&& step_target(back, 1) == Some(h.pos)
            &&& fwd.entries == h.entries
            &&& fwd.pos == h.pos
        }),
{
}

/// A step that lands outside the entries changes nothing.
pub proof fn lemma_jump_out_of_range(h: HistoryView, delta: int)
    requires
        history_wf(h),
        step_target(h, delta) is None,
    ensures
        jump_spec(h, delta) == h,
{
}

// ---------------------------------------------------------------------
// page loads and the work they deliver
// ---------------------------------------------------------------------

/// The abstract load state: the number of the current load, whether that
/// load's page reported completion, and the heading jump and search
/// highlight waiting for it.
pub struct LoadView {
    pub seq: nat,
    pub complete: bool,
    pub anchor: Option<Seq<char>>,
    pub search: Option<Seq<char>>,
}

/// Which load is current, and the work its page is to carry out once it
/// completes. Each load gets a new number that the page echoes back, so a
/// superseded page cannot take the next page's pending work.
pub struct LoadTracker {
    seq: u64,
    complete: bool,
    anchor: Option<String>,
    search: Option<String>,
}

pub open spec fn opt_chars(o: Option<String>) -> Option<Seq<char>> {
    match o {
        Some(s) => Some(s@),
        None => None,
    }
}

/// A document or directory listing starts loading: a pending heading jump
/// is dropped (any navigation supersedes it), a pending highlight stays.
pub open spec fn begin_document_spec(h: LoadView) -> LoadView {
    LoadView { seq: h.seq + 1, complete: false, anchor: None, search: h.search }
}

/// Standard input is rendered again: both pending items stay.
pub open spec fn begin_source_spec(h: LoadView) -> LoadView {
    LoadView { seq: h.seq + 1, complete: false, anchor: h.anchor, search: h.search }
}

/// A page reports completion with `token`: only the current load's page
/// counts; it marks the load complete and hands out both pending items.
pub open spec fn page_loaded_spec(h: LoadView, token: Option<u64>) -> (
    LoadView,
    Option<(Option<Seq<char>>, Option<Seq<char>>)>,
) {
    if token == Some(h.seq as u64) && h.seq <= u64::MAX {
        (LoadView { seq: h.seq, complete: true, anchor: None, search: None }, Some((h.anchor, h.search)))
    } else {
        (h, None)
    }
}

/// A raw HTML document (which carries no page script) finished loading:
/// when it is shown rendered, the load is complete and a pending heading
/// jump is handed out.
pub open spec fn html_loaded_spec(h: LoadView, rendered_html: bool) -> (LoadView, Option<Seq<char>>) {
    if rendered_html {
        (LoadView { seq: h.seq, complete: true, anchor: None, search: h.search }, h.anchor)
    } else {
        (h, None)
    }
}

/// How a heading jump or search highlight for a document reaches it.
#[derive(Debug, Clone, Copy, PartialEq, Eq)]
pub enum Delivery {
    /// The document is shown and complete: act at once.
    Now,
    /// The document is the one loading: leave the work pending.
    Pend,
    /// Another document is shown: load the target, and if that load is
    /// issued, leave the work pending.
    LoadThenPend,
}

impl View for LoadTracker {
    type V = LoadView;

    closed spec fn view(&self) -> LoadView {
        LoadView {
            seq: self.seq as nat,
            complete: self.complete,
            anchor: opt_chars(self.anchor),
            search: opt_chars(self.search),
        }
    }
}

impl LoadTracker {
    /// No load yet, nothing pending.
    pub fn new() -> (t: LoadTracker)
        ensures
            t@ == (LoadView { seq: 0, complete: false, anchor: None, search: None }),
    {
        LoadTracker { seq: 0, complete: false, anchor: None, search: None }
    }

    /// The number of the current load.
    pub fn seq(&self) -> (r: u64)
        ensures
            r == self@.seq,
    {
        self.seq
    }

    /// Whether the current load's page reported completion.
    pub fn is_complete(&self) -> (r: bool)
        ensures
            r == self@.complete,
    {
        self.complete
    }

    /// A document or listing load is issued; the result is its number.
    pub fn begin_document(&mut self) -> (t: u64)
        requires
            old(self)@.seq < u64::MAX,
        ensures
            final(self)@ == begin_document_spec(old(self)@),
            t == final(self)@.seq,
    {
        self.anchor = None;
        self.seq = self.seq + 1;
        self.complete = false;
        self.seq
    }

    /// Standard input is rendered again; the result is the load's number.
    pub fn begin_source(&mut self) -> (t: u64)
        requires
            old(self)@.seq < u64::MAX,
        ensures
            final(self)@ == begin_source_spec(old(self)@),
            t == final(self)@.seq,
    {
        self.seq = self.seq + 1;
        self.complete = false;
        self.seq
    }

    /// A page reported completion with `token` (see `page_loaded_spec`);
    /// the result is the heading to jump to and the query to highlight.
    pub fn page_loaded(&mut self, token: Option<u64>) -> (r: Option<(Option<String>, Option<String>)>)
        ensures
            (final(self)@, match r {
                Some((a, q)) => Some((opt_chars(a), opt_chars(q))),
                None => None,
            }) == page_loaded_spec(old(self)@, token),
    {
        match token {
            Some(t) => if t == self.seq {
                self.complete = true;
                let a = self.anchor.take();
                let q = self.search.take();
                Some((a, q))
            } else {
                None
            },
            None => None,
        }
    }

    /// A page sent a `loadComplete` message: its `token` member decides
    /// (see `page_loaded_spec`), so a message without one is ignored.
    pub fn message_loaded(&mut self, msg: &str) -> (r: Option<(Option<String>, Option<String>)>)
        ensures
            (final(self)@, match r {
                Some((a, q)) => Some((opt_chars(a), opt_chars(q))),
                None => None,
            }) == page_loaded_spec(old(self)@, crate::bridge::json_token(msg@)),
    {
        let token = crate::bridge::message_token(msg);
        self.page_loaded(token)
    }

    /// A raw HTML document finished loading (see `html_loaded_spec`); the
    /// result is the heading to jump to.
    pub fn html_loaded(&mut self, rendered_html: bool) -> (r: Option<String>)
        ensures
            (final(self)@, opt_chars(r)) == html_loaded_spec(old(self)@, rendered_html),
    {
        if rendered_html {
            self.complete = true;
            self.anchor.take()
        } else {
            None
        }
    }

    /// How work for a document reaches it; `same_doc` says whether it is
    /// the document shown (or loading).
    pub fn delivery(&self, same_doc: bool) -> (r: Delivery)
        ensures
            r == (if same_doc && self@.complete {
                Delivery::Now
            } else if same_doc {
                Delivery::Pend
            } else {
                Delivery::LoadThenPend
            }),
    {
        if same_doc && self.complete {
            Delivery::Now
        } else if same_doc {
            Delivery::Pend
        } else {
            Delivery::LoadThenPend
        }
    }

    /// Leaves a heading jump for the current load's page.
    pub fn set_anchor(&mut self, id: String)
        ensures
            final(self)@ == (LoadView { anchor: Some(id@), ..old(self)@ }),
    {
        self.anchor = Some(id);
    }

    /// Leaves a search highlight for the current load's page.
    pub fn set_search(&mut self, query: String)
        ensures
            final(self)@ == (LoadView { search: Some(query@), ..old(self)@ }),
    {
        self.search = Some(query);
    }
}

// ---------------------------------------------------------------------
// laws of page loads
// ---------------------------------------------------------------------

/// A completion report from any page but the current load's changes
/// nothing and hands out nothing.
pub proof fn lemma_stale_page_ignored(h: LoadView, token: u64)
    requires
        token != h.seq,
    ensures
        page_loaded_spec(h, Some(token)) == (h, None::<(Option<Seq<char>>, Option<Seq<char>>)>),
{
}

/// Once a new load starts, no page of an earlier load can take its
/// pending work.
pub proof fn lemma_new_load_supersedes(h: LoadView, token: u64)
    requires
        token <= h.seq,
    ensures
        page_loaded_spec(begin_document_spec(h), Some(token)).1 is None,
        page_loaded_spec(begin_source_spec(h), Some(token)).1 is None,
{
}

/// Pending work is handed out once: the current page's report takes both
/// items, and a repeated report finds nothing left.
pub proof fn lemma_pending_delivered_once(h: LoadView)
    requires
        h.seq <= u64::MAX,
    ensures
        ({
            let (h1, r1) = page_loaded_spec(h, Some(h.seq as u64));
            let (h2, r2) = page_loaded_spec(h1, Some(h.seq as u64));
            &&& r1 == Some((h.anchor, h.search))
            &&& h1.complete
            &&& r2 == Some((None::<Seq<char>>, None::<Seq<char>>))
        }),
{
}

} // verus!
