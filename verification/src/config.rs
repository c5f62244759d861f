//! The font settings of `$XDG_CONFIG_HOME/moremaid/config.toml`: defaults,
//! and the CSS font stacks resolved from them. Parsing is defensive: a
//! missing or malformed file gives the defaults, never a crash.

use vstd::prelude::*;
use crate::text::{chars_of, eq_lit, trim, trim_range, string_of};

verus! {

pub const DEFAULT_BODY: &'static str = "iA Writer Quattro S";

pub const DEFAULT_MONO: &'static str = "monospace";

pub const DEFAULT_SIZE: u32 = 16;

pub struct Config {
    pub font: FontConfig,
}

pub struct FontConfig {
    /// prose face; becomes `"<body>", "Noto Sans", sans-serif`
    pub body: String,
    /// bare `monospace` follows the Omarchy font via fontconfig
    pub mono: String,
    /// base px, before text-scaling-factor
    pub size: u32,
}

impl View for FontConfig {
    type V = (Seq<char>, Seq<char>, u32);

    open spec fn view(&self) -> (Seq<char>, Seq<char>, u32) {
        (self.body@, self.mono@, self.size)
    }
}

impl View for Config {
    type V = (Seq<char>, Seq<char>, u32);

    open spec fn view(&self) -> (Seq<char>, Seq<char>, u32) {
        self.font@
    }
}

impl Default for FontConfig {
    fn default() -> (r: FontConfig)
        ensures
            r@ == (DEFAULT_BODY@, DEFAULT_MONO@, DEFAULT_SIZE),
    {
        FontConfig { body: DEFAULT_BODY.to_owned(), mono: DEFAULT_MONO.to_owned(), size: DEFAULT_SIZE }
    }
}

impl Default for Config {
    fn default() -> (r: Config)
        ensures
            r@ == (DEFAULT_BODY@, DEFAULT_MONO@, DEFAULT_SIZE),
    {
        Config { font: FontConfig::default() }
    }
}

/// Resolved font stacks, ready for CSS interpolation.
#[derive(Clone, Debug, PartialEq)]
pub struct Fonts {
    pub body_stack: String,
    pub mono_stack: String,
    /// bare family name for Mermaid's explicit fontFamily
    pub body_family: String,
    pub size: u32,
}

impl View for Fonts {
    type V = (Seq<char>, Seq<char>, Seq<char>, u32);

    open spec fn view(&self) -> (Seq<char>, Seq<char>, Seq<char>, u32) {
        (self.body_stack@, self.mono_stack@, self.body_family@, self.size)
    }
}

/// A face name trimmed, or the default when nothing is left.
pub open spec fn face_or(name: Seq<char>, default: Seq<char>) -> Seq<char> {
    if trim(name).len() == 0 {
        default
    } else {
        trim(name)
    }
}

/// `size` clamped to 6..=64 px.
pub open spec fn clamp_size(size: u32) -> u32 {
    if size < 6 {
        6
    } else if size > 64 {
        64
    } else {
        size
    }
}

/// The body stack: the face, then Noto Sans, then the generic family.
pub open spec fn body_stack_spec(body: Seq<char>) -> Seq<char> {
    seq!['"'] + body + "\", \"Noto Sans\", sans-serif"@
}

/// The mono stack: a bare `monospace` stays bare (so it follows the
/// `omarchy font` choice); a named face gets `monospace` as fallback.
pub open spec fn mono_stack_spec(mono: Seq<char>) -> Seq<char> {
    if mono == "monospace"@ {
        mono
    } else {
        seq!['"'] + mono + "\", monospace"@
    }
}

/// The fonts a configuration resolves to.
pub open spec fn fonts_spec(c: (Seq<char>, Seq<char>, u32)) -> (Seq<char>, Seq<char>, Seq<char>, u32) {
    let body = face_or(c.0, DEFAULT_BODY@);
    let mono = face_or(c.1, DEFAULT_MONO@);
    (body_stack_spec(body), mono_stack_spec(mono), body, clamp_size(c.2))
}

/// `name` trimmed, or `default` when nothing is left.
fn face(name: &String, default: &str) -> (r: String)
    ensures
        r@ == face_or(name@, default@),
{
    let v = chars_of(name.as_str());
    let t = trim_range(&v, 0, v.len());
    assert(v@.subrange(0, v.len() as int) == v@);
    if t.len() == 0 {
        default.to_owned()
    } else {
        string_of(&t)
    }
}

impl Config {
    pub fn fonts(&self) -> (r: Fonts)
        ensures
            r@ == fonts_spec(self@),
    {
        let body = face(&self.font.body, DEFAULT_BODY);
        let mono = face(&self.font.mono, DEFAULT_MONO);
        let size = if self.font.size < 6 {
            6
        } else if self.font.size > 64 {
            64
        } else {
            self.font.size
        };
        let mut body_stack = String::new();
        body_stack.push('"');
        body_stack.append(body.as_str());
        body_stack.append("\", \"Noto Sans\", sans-serif");
        assert(body_stack@ =~= body_stack_spec(body@));
        let mono_v = chars_of(mono.as_str());
        let mono_stack = if eq_lit(&mono_v, "monospace") {
            mono.clone()
        } else {
            let mut s = String::new();
            s.push('"');
            s.append(mono.as_str());
            s.append("\", monospace");
            assert(s@ =~= seq!['"'] + mono@ + "\", monospace"@);
            s
        };
        Fonts { body_stack, mono_stack, body_family: body, size }
    }
}

/// The configuration in effect: the parsed file when there is one, else
/// the defaults (a missing or malformed file is no error).
pub fn load(parsed: Option<Config>) -> (r: Config)
    ensures
        parsed matches Some(c) ==> r@ == c@,
        parsed is None ==> r@ == (DEFAULT_BODY@, DEFAULT_MONO@, DEFAULT_SIZE),
{
    match parsed {
        Some(c) => c,
        None => Config::default(),
    }
}

} // verus!
