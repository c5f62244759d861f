//! Keyboard and pointer bindings of a reader window: the bare vim-style
//! keys (which stand down while the search overlay takes typing), the
//! mouse back/forward buttons, and what the window actions act on.

use vstd::prelude::*;

verus! {

/// The keys the window binds by themselves.
#[derive(Debug, Clone, Copy, PartialEq, Eq)]
pub enum Key {
    J,
    K,
    D,
    U,
    /// `G` (shifted).
    BigG,
    /// `g`.
    G,
    Slash,
    Question,
    Other,
}

/// What a key press does.
#[derive(Debug, Clone, Copy, PartialEq, Eq)]
pub enum KeyResponse {
    /// The key goes on to the focused widget.
    Pass,
    /// The key is taken and nothing else happens (the first `g` of `gg`).
    Take,
    /// The key is taken and this script scrolls the page.
    Scroll(&'static str),
    /// The key is taken and Quick Open opens.
    QuickOpen,
    /// The key is taken and the shortcuts overview opens.
    Shortcuts,
}

pub const SCROLL_DOWN: &'static str = "window.scrollBy(0, 80);";

pub const SCROLL_UP: &'static str = "window.scrollBy(0, -80);";

pub const HALF_PAGE_DOWN: &'static str = "window.scrollBy(0, window.innerHeight / 2);";

pub const HALF_PAGE_UP: &'static str = "window.scrollBy(0, -window.innerHeight / 2);";

pub const TO_END: &'static str = "window.scrollTo(0, document.body.scrollHeight);";

pub const TO_TOP: &'static str = "window.scrollTo(0, 0);";

/// The response to `key` (with Ctrl held or not), whether a first `g` is
/// waiting for its second, whether the search overlay is open and whether
/// the window has one; and whether a `g` waits afterwards. While the
/// overlay is open every key passes and a waiting `g` keeps waiting; any
/// other press ends the wait, and a second `g` scrolls to the top.
pub open spec fn vim_key_spec(key: Key, ctrl: bool, g_waiting: bool, overlay_open: bool, has_overlay: bool) -> (
    KeyResponse,
    bool,
) {
    if overlay_open {
        (KeyResponse::Pass, g_waiting)
    } else {
        match key {
            Key::J => if !ctrl { (KeyResponse::Scroll(SCROLL_DOWN), false) } else { (KeyResponse::Pass, false) },
            Key::K => if !ctrl { (KeyResponse::Scroll(SCROLL_UP), false) } else { (KeyResponse::Pass, false) },
            Key::D => if ctrl { (KeyResponse::Scroll(HALF_PAGE_DOWN), false) } else { (KeyResponse::Pass, false) },
            Key::U => if ctrl { (KeyResponse::Scroll(HALF_PAGE_UP), false) } else { (KeyResponse::Pass, false) },
            Key::BigG => (KeyResponse::Scroll(TO_END), false),
            Key::G => if ctrl {
                (KeyResponse::Pass, false)
            } else if g_waiting {
                (KeyResponse::Scroll(TO_TOP), false)
            } else {
                (KeyResponse::Take, true)
            },
            Key::Slash => if has_overlay { (KeyResponse::QuickOpen, false) } else { (KeyResponse::Pass, false) },
            Key::Question => (KeyResponse::Shortcuts, false),
            Key::Other => (KeyResponse::Pass, false),
        }
    }
}

/// The response to a key press (see `vim_key_spec`).
pub fn vim_key(key: Key, ctrl: bool, g_waiting: bool, overlay_open: bool, has_overlay: bool) -> (r: (
    KeyResponse,
    bool,
))
    ensures
        r == vim_key_spec(key, ctrl, g_waiting, overlay_open, has_overlay),
{
    if overlay_open {
        return (KeyResponse::Pass, g_waiting);
    }
    match key {
        Key::J => if !ctrl { (KeyResponse::Scroll(SCROLL_DOWN), false) } else { (KeyResponse::Pass, false) },
        Key::K => if !ctrl { (KeyResponse::Scroll(SCROLL_UP), false) } else { (KeyResponse::Pass, false) },
        Key::D => if ctrl { (KeyResponse::Scroll(HALF_PAGE_DOWN), false) } else { (KeyResponse::Pass, false) },
        Key::U => if ctrl { (KeyResponse::Scroll(HALF_PAGE_UP), false) } else { (KeyResponse::Pass, false) },
        Key::BigG => (KeyResponse::Scroll(TO_END), false),
        Key::G => if ctrl {
            (KeyResponse::Pass, false)
        } else if g_waiting {
            (KeyResponse::Scroll(TO_TOP), false)
        } else {
            (KeyResponse::Take, true)
        },
        Key::Slash => if has_overlay { (KeyResponse::QuickOpen, false) } else { (KeyResponse::Pass, false) },
        Key::Question => (KeyResponse::Shortcuts, false),
        Key::Other => (KeyResponse::Pass, false),
    }
}

/// `g` twice in a row goes to the top; anything between the two presses
/// (other than keys typed into the open overlay) cancels it.
pub proof fn lemma_gg_goes_to_top(has_overlay: bool)
    ensures
        ({
            let (r1, w1) = vim_key_spec(Key::G, false, false, false, has_overlay);
            let (r2, w2) = vim_key_spec(Key::G, false, w1, false, has_overlay);
            &&& r1 == KeyResponse::Take
            &&& r2 == KeyResponse::Scroll(TO_TOP)
            &&& !w2
        }),
        forall|k: Key, c: bool|
            k != Key::G || c ==> !(#[trigger] vim_key_spec(k, c, true, false, has_overlay)).1,
{
}

/// The history step of a mouse button: the back button (8) one step back,
/// the forward button (9) one step forward.
pub fn mouse_history_step(button: u32) -> (r: Option<i64>)
    ensures
        r == (if button == 8 {
            Some(-1i64)
        } else if button == 9 {
            Some(1i64)
        } else {
            None::<i64>
        }),
{
    if button == 8 {
        Some(-1)
    } else if button == 9 {
        Some(1)
    } else {
        None
    }
}

/// What re-rendering the window (force full render, view-source toggle)
/// loads again.
#[derive(Debug, Clone, Copy, PartialEq, Eq)]
pub enum Reload {
    /// The document from its file.
    Document,
    /// The text read from standard input.
    Stdin,
    /// Nothing (a directory listing is shown).
    Nothing,
}

/// A document shown from a file is loaded again from it; otherwise text
/// from standard input is rendered again, if there is some.
pub fn reload_target(has_document: bool, has_stdin: bool) -> (r: Reload)
    ensures
        r == (if has_document {
            Reload::Document
        } else if has_stdin {
            Reload::Stdin
        } else {
            Reload::Nothing
        }),
{
    if has_document {
        Reload::Document
    } else if has_stdin {
        Reload::Stdin
    } else {
        Reload::Nothing
    }
}

/// What a new window opens: the browse root when there is one, else the
/// document shown.
pub fn new_window_target(root: Option<String>, document: Option<String>) -> (r: Option<String>)
    ensures
        r == (if root is Some {
            root
        } else {
            document
        }),
{
    match root {
        Some(r) => Some(r),
        None => document,
    }
}

} // verus!
