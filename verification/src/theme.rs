//! The Omarchy palette: the colours a theme file sets (falling back key by
//! key to a built-in palette), the document's CSS custom properties and the
//! Mermaid theme variables derived from them. Never fail to render over a
//! colour.

use vstd::prelude::*;
use crate::config::Fonts;
use crate::text::{
    chars_of, decimal, decimal_string, eq_lit, hex2, push_hex2, string_of, utf8_bytes, utf8_len,
    char_utf8_len, str_eq, ascii_lower, ascii_lower_char, digit_char,
};
use crate::headings::{digit_value, digit_value_exec};

verus! {

pub const FONT_BODY: &'static str = "\"iA Writer Quattro S\", \"Noto Sans\", sans-serif";

/// Bare generic: resolves to the `omarchy font` choice via fontconfig.
pub const FONT_CODE: &'static str = "monospace";

/// Number of palette keys.
pub const PALETTE_LEN: usize = 25;

/// The palette keys, in a fixed order: the slots of a palette.
pub open spec fn palette_key(i: int) -> Seq<char> {
    if i == 0 {
        "accent"@
    } else if i == 1 {
        "selection"@
    } else if i == 2 {
        "muted"@
    } else if i == 3 {
        "background"@
    } else if i == 4 {
        "dark_background"@
    } else if i == 5 {
        "darker_background"@
    } else if i == 6 {
        "lighter_background"@
    } else if i == 7 {
        "foreground"@
    } else if i == 8 {
        "dark_foreground"@
    } else if i == 9 {
        "light_foreground"@
    } else if i == 10 {
        "bright_foreground"@
    } else if i == 11 {
        "red"@
    } else if i == 12 {
        "yellow"@
    } else if i == 13 {
        "orange"@
    } else if i == 14 {
        "green"@
    } else if i == 15 {
        "cyan"@
    } else if i == 16 {
        "blue"@
    } else if i == 17 {
        "magenta"@
    } else if i == 18 {
        "brown"@
    } else if i == 19 {
        "bright_red"@
    } else if i == 20 {
        "bright_yellow"@
    } else if i == 21 {
        "bright_green"@
    } else if i == 22 {
        "bright_cyan"@
    } else if i == 23 {
        "bright_blue"@
    } else if i == 24 {
        "bright_magenta"@
    } else {
        ""@
    }
}

pub fn palette_key_str(i: usize) -> (r: &'static str)
    requires
        i < 25,
    ensures
        r@ == palette_key(i as int),
{
    match i {
        0 => "accent",
        1 => "selection",
        2 => "muted",
        3 => "background",
        4 => "dark_background",
        5 => "darker_background",
        6 => "lighter_background",
        7 => "foreground",
        8 => "dark_foreground",
        9 => "light_foreground",
        10 => "bright_foreground",
        11 => "red",
        12 => "yellow",
        13 => "orange",
        14 => "green",
        15 => "cyan",
        16 => "blue",
        17 => "magenta",
        18 => "brown",
        19 => "bright_red",
        20 => "bright_yellow",
        21 => "bright_green",
        22 => "bright_cyan",
        23 => "bright_blue",
        _ => "bright_magenta",
    }
}

/// The built-in dark palette, slot by slot.
pub open spec fn fallback_dark(i: int) -> Seq<char> {
    if i == 0 {
        seq!['#', '6', '2', 'a', '0', 'e', 'a']
    } else if i == 1 {
        seq!['#', '3', '2', '3', '6', '3', 'c']
    } else if i == 2 {
        seq!['#', '4', '5', '4', '9', '5', '0']
    } else if i == 3 {
        seq!['#', '1', 'e', '1', 'e', '2', '2']
    } else if i == 4 {
        seq!['#', '1', '7', '1', '7', '1', 'a']
    } else if i == 5 {
        seq!['#', '1', '0', '1', '0', '1', '3']
    } else if i == 6 {
        seq!['#', '2', 'a', '2', 'a', '3', '0']
    } else if i == 7 {
        seq!['#', 'd', '8', 'd', '8', 'd', '4']
    } else if i == 8 {
        seq!['#', '8', 'b', '8', 'b', '8', '8']
    } else if i == 9 {
        seq!['#', 'e', '4', 'e', '4', 'e', '0']
    } else if i == 10 {
        seq!['#', 'f', '2', 'f', '2', 'e', 'f']
    } else if i == 11 {
        seq!['#', 'f', '6', '6', '1', '5', '1']
    } else if i == 12 {
        seq!['#', 'f', '8', 'e', '4', '5', 'c']
    } else if i == 13 {
        seq!['#', 'f', 'f', 'b', 'e', '6', 'f']
    } else if i == 14 {
        seq!['#', '8', 'f', 'f', '0', 'a', '4']
    } else if i == 15 {
        seq!['#', '7', '6', 'c', '7', 'c', '0']
    } else if i == 16 {
        seq!['#', '6', '2', 'a', '0', 'e', 'a']
    } else if i == 17 {
        seq!['#', 'd', 'c', '8', 'a', 'd', 'd']
    } else if i == 18 {
        seq!['#', 'b', '5', '8', '3', '5', 'a']
    } else if i == 19 {
        seq!['#', 'f', 'f', '7', 'b', '6', 'f']
    } else if i == 20 {
        seq!['#', 'f', '9', 'f', '0', '6', 'b']
    } else if i == 21 {
        seq!['#', 'a', '7', 'f', '4', 'b', '8']
    } else if i == 22 {
        seq!['#', '9', '3', 'd', 'd', 'd', '5']
    } else if i == 23 {
        seq!['#', '8', '0', 'b', '4', 'f', '0']
    } else {
        seq!['#', 'e', '8', 'a', '2', 'e', '8']
    }
}

fn fallback_dark_str(i: usize) -> (r: &'static str)
    requires
        i < 25,
    ensures
        r@ == fallback_dark(i as int),
{
    match i {
        0 => {
            proof {
                reveal_strlit("#62a0ea");
                assert("#62a0ea"@ =~= seq!['#', '6', '2', 'a', '0', 'e', 'a']);
            }
            "#62a0ea"
        },
        1 => {
            proof {
                reveal_strlit("#32363c");
                assert("#32363c"@ =~= seq!['#', '3', '2', '3', '6', '3', 'c']);
            }
            "#32363c"
        },
        2 => {
            proof {
                reveal_strlit("#454950");
                assert("#454950"@ =~= seq!['#', '4', '5', '4', '9', '5', '0']);
            }
            "#454950"
        },
        3 => {
            proof {
                reveal_strlit("#1e1e22");
                assert("#1e1e22"@ =~= seq!['#', '1', 'e', '1', 'e', '2', '2']);
            }
            "#1e1e22"
        },
        4 => {
            proof {
                reveal_strlit("#17171a");
                assert("#17171a"@ =~= seq!['#', '1', '7', '1', '7', '1', 'a']);
            }
            "#17171a"
        },
        5 => {
            proof {
                reveal_strlit("#101013");
                assert("#101013"@ =~= seq!['#', '1', '0', '1', '0', '1', '3']);
            }
            "#101013"
        },
        6 => {
            proof {
                reveal_strlit("#2a2a30");
                assert("#2a2a30"@ =~= seq!['#', '2', 'a', '2', 'a', '3', '0']);
            }
            "#2a2a30"
        },
        7 => {
            proof {
                reveal_strlit("#d8d8d4");
                assert("#d8d8d4"@ =~= seq!['#', 'd', '8', 'd', '8', 'd', '4']);
            }
            "#d8d8d4"
        },
        8 => {
            proof {
                reveal_strlit("#8b8b88");
                assert("#8b8b88"@ =~= seq!['#', '8', 'b', '8', 'b', '8', '8']);
            }
            "#8b8b88"
        },
        9 => {
            proof {
                reveal_strlit("#e4e4e0");
                assert("#e4e4e0"@ =~= seq!['#', 'e', '4', 'e', '4', 'e', '0']);
            }
            "#e4e4e0"
        },
        10 => {
            proof {
                reveal_strlit("#f2f2ef");
                assert("#f2f2ef"@ =~= seq!['#', 'f', '2', 'f', '2', 'e', 'f']);
            }
            "#f2f2ef"
        },
        11 => {
            proof {
                reveal_strlit("#f66151");
                assert("#f66151"@ =~= seq!['#', 'f', '6', '6', '1', '5', '1']);
            }
            "#f66151"
        },
        12 => {
            proof {
                reveal_strlit("#f8e45c");
                assert("#f8e45c"@ =~= seq!['#', 'f', '8', 'e', '4', '5', 'c']);
            }
            "#f8e45c"
        },
        13 => {
            proof {
                reveal_strlit("#ffbe6f");
                assert("#ffbe6f"@ =~= seq!['#', 'f', 'f', 'b', 'e', '6', 'f']);
            }
            "#ffbe6f"
        },
        14 => {
            proof {
                reveal_strlit("#8ff0a4");
                assert("#8ff0a4"@ =~= seq!['#', '8', 'f', 'f', '0', 'a', '4']);
            }
            "#8ff0a4"
        },
        15 => {
            proof {
                reveal_strlit("#76c7c0");
                assert("#76c7c0"@ =~= seq!['#', '7', '6', 'c', '7', 'c', '0']);
            }
            "#76c7c0"
        },
        16 => {
            proof {
                reveal_strlit("#62a0ea");
                assert("#62a0ea"@ =~= seq!['#', '6', '2', 'a', '0', 'e', 'a']);
            }
            "#62a0ea"
        },
        17 => {
            proof {
                reveal_strlit("#dc8add");
                assert("#dc8add"@ =~= seq!['#', 'd', 'c', '8', 'a', 'd', 'd']);
            }
            "#dc8add"
        },
        18 => {
            proof {
                reveal_strlit("#b5835a");
                assert("#b5835a"@ =~= seq!['#', 'b', '5', '8', '3', '5', 'a']);
            }
            "#b5835a"
        },
        19 => {
            proof {
                reveal_strlit("#ff7b6f");
                assert("#ff7b6f"@ =~= seq!['#', 'f', 'f', '7', 'b', '6', 'f']);
            }
            "#ff7b6f"
        },
        20 => {
            proof {
                reveal_strlit("#f9f06b");
                assert("#f9f06b"@ =~= seq!['#', 'f', '9', 'f', '0', '6', 'b']);
            }
            "#f9f06b"
        },
        21 => {
            proof {
                reveal_strlit("#a7f4b8");
                assert("#a7f4b8"@ =~= seq!['#', 'a', '7', 'f', '4', 'b', '8']);
            }
            "#a7f4b8"
        },
        22 => {
            proof {
                reveal_strlit("#93ddd5");
                assert("#93ddd5"@ =~= seq!['#', '9', '3', 'd', 'd', 'd', '5']);
            }
            "#93ddd5"
        },
        23 => {
            proof {
                reveal_strlit("#80b4f0");
                assert("#80b4f0"@ =~= seq!['#', '8', '0', 'b', '4', 'f', '0']);
            }
            "#80b4f0"
        },
        _ => {
            proof {
                reveal_strlit("#e8a2e8");
                assert("#e8a2e8"@ =~= seq!['#', 'e', '8', 'a', '2', 'e', '8']);
            }
            "#e8a2e8"
        },
    }
}

/// The built-in light palette, slot by slot.
pub open spec fn fallback_light(i: int) -> Seq<char> {
    if i == 0 {
        seq!['#', '1', 'c', '7', '1', 'd', '8']
    } else if i == 1 {
        seq!['#', 'c', 'f', 'e', '1', 'f', '5']
    } else if i == 2 {
        seq!['#', 'c', '0', 'b', 'f', 'b', 'c']
    } else if i == 3 {
        seq!['#', 'f', 'f', 'f', 'f', 'f', 'f']
    } else if i == 4 {
        seq!['#', 'f', 'a', 'f', 'a', 'f', 'a']
    } else if i == 5 {
        seq!['#', 'f', '2', 'f', '1', 'e', 'f']
    } else if i == 6 {
        seq!['#', 'f', 'c', 'f', 'c', 'f', 'c']
    } else if i == 7 {
        seq!['#', '3', '3', '3', '3', '3', '3']
    } else if i == 8 {
        seq!['#', '7', '7', '7', '6', '7', 'b']
    } else if i == 9 {
        seq!['#', '2', '4', '1', 'f', '3', '1']
    } else if i == 10 {
        seq!['#', '1', 'a', '1', 'a', '1', 'a']
    } else if i == 11 {
        seq!['#', 'c', '0', '1', 'c', '2', '8']
    } else if i == 12 {
        seq!['#', 'a', '0', '8', '0', '0', '0']
    } else if i == 13 {
        seq!['#', 'e', '6', '6', '1', '0', '0']
    } else if i == 14 {
        seq!['#', '2', '6', 'a', '2', '6', '9']
    } else if i == 15 {
        seq!['#', '2', '1', '8', '7', '8', '7']
    } else if i == 16 {
        seq!['#', '1', 'c', '7', '1', 'd', '8']
    } else if i == 17 {
        seq!['#', '8', '1', '3', 'd', '9', 'c']
    } else if i == 18 {
        seq!['#', '8', '6', '5', 'e', '3', 'c']
    } else if i == 19 {
        seq!['#', 'e', '0', '1', 'b', '2', '4']
    } else if i == 20 {
        seq!['#', 'b', '8', '9', '0', '0', '0']
    } else if i == 21 {
        seq!['#', '2', 'e', 'c', '2', '7', 'e']
    } else if i == 22 {
        seq!['#', '3', '3', 'a', '7', 'a', '7']
    } else if i == 23 {
        seq!['#', '3', '5', '8', '4', 'e', '4']
    } else {
        seq!['#', '9', '1', '4', '1', 'a', 'c']
    }
}

fn fallback_light_str(i: usize) -> (r: &'static str)
    requires
        i < 25,
    ensures
        r@ == fallback_light(i as int),
{
    match i {
        0 => {
            proof {
                reveal_strlit("#1c71d8");
                assert("#1c71d8"@ =~= seq!['#', '1', 'c', '7', '1', 'd', '8']);
            }
            "#1c71d8"
        },
        1 => {
            proof {
                reveal_strlit("#cfe1f5");
                assert("#cfe1f5"@ =~= seq!['#', 'c', 'f', 'e', '1', 'f', '5']);
            }
            "#cfe1f5"
        },
        2 => {
            proof {
                reveal_strlit("#c0bfbc");
                assert("#c0bfbc"@ =~= seq!['#', 'c', '0', 'b', 'f', 'b', 'c']);
            }
            "#c0bfbc"
        },
        3 => {
            proof {
                reveal_strlit("#ffffff");
                assert("#ffffff"@ =~= seq!['#', 'f', 'f', 'f', 'f', 'f', 'f']);
            }
            "#ffffff"
        },
        4 => {
            proof {
                reveal_strlit("#fafafa");
                assert("#fafafa"@ =~= seq!['#', 'f', 'a', 'f', 'a', 'f', 'a']);
            }
            "#fafafa"
        },
        5 => {
            proof {
                reveal_strlit("#f2f1ef");
                assert("#f2f1ef"@ =~= seq!['#', 'f', '2', 'f', '1', 'e', 'f']);
            }
            "#f2f1ef"
        },
        6 => {
            proof {
                reveal_strlit("#fcfcfc");
                assert("#fcfcfc"@ =~= seq!['#', 'f', 'c', 'f', 'c', 'f', 'c']);
            }
            "#fcfcfc"
        },
        7 => {
            proof {
                reveal_strlit("#333333");
                assert("#333333"@ =~= seq!['#', '3', '3', '3', '3', '3', '3']);
            }
            "#333333"
        },
        8 => {
            proof {
                reveal_strlit("#77767b");
                assert("#77767b"@ =~= seq!['#', '7', '7', '7', '6', '7', 'b']);
            }
            "#77767b"
        },
        9 => {
            proof {
                reveal_strlit("#241f31");
                assert("#241f31"@ =~= seq!['#', '2', '4', '1', 'f', '3', '1']);
            }
            "#241f31"
        },
        10 => {
            proof {
                reveal_strlit("#1a1a1a");
                assert("#1a1a1a"@ =~= seq!['#', '1', 'a', '1', 'a', '1', 'a']);
            }
            "#1a1a1a"
        },
        11 => {
            proof {
                reveal_strlit("#c01c28");
                assert("#c01c28"@ =~= seq!['#', 'c', '0', '1', 'c', '2', '8']);
            }
            "#c01c28"
        },
        12 => {
            proof {
                reveal_strlit("#a08000");
                assert("#a08000"@ =~= seq!['#', 'a', '0', '8', '0', '0', '0']);
            }
            "#a08000"
        },
        13 => {
            proof {
                reveal_strlit("#e66100");
                assert("#e66100"@ =~= seq!['#', 'e', '6', '6', '1', '0', '0']);
            }
            "#e66100"
        },
        14 => {
            proof {
                reveal_strlit("#26a269");
                assert("#26a269"@ =~= seq!['#', '2', '6', 'a', '2', '6', '9']);
            }
            "#26a269"
        },
        15 => {
            proof {
                reveal_strlit("#218787");
                assert("#218787"@ =~= seq!['#', '2', '1', '8', '7', '8', '7']);
            }
            "#218787"
        },
        16 => {
            proof {
                reveal_strlit("#1c71d8");
                assert("#1c71d8"@ =~= seq!['#', '1', 'c', '7', '1', 'd', '8']);
            }
            "#1c71d8"
        },
        17 => {
            proof {
                reveal_strlit("#813d9c");
                assert("#813d9c"@ =~= seq!['#', '8', '1', '3', 'd', '9', 'c']);
            }
            "#813d9c"
        },
        18 => {
            proof {
                reveal_strlit("#865e3c");
                assert("#865e3c"@ =~= seq!['#', '8', '6', '5', 'e', '3', 'c']);
            }
            "#865e3c"
        },
        19 => {
            proof {
                reveal_strlit("#e01b24");
                assert("#e01b24"@ =~= seq!['#', 'e', '0', '1', 'b', '2', '4']);
            }
            "#e01b24"
        },
        20 => {
            proof {
                reveal_strlit("#b89000");
                assert("#b89000"@ =~= seq!['#', 'b', '8', '9', '0', '0', '0']);
            }
            "#b89000"
        },
        21 => {
            proof {
                reveal_strlit("#2ec27e");
                assert("#2ec27e"@ =~= seq!['#', '2', 'e', 'c', '2', '7', 'e']);
            }
            "#2ec27e"
        },
        22 => {
            proof {
                reveal_strlit("#33a7a7");
                assert("#33a7a7"@ =~= seq!['#', '3', '3', 'a', '7', 'a', '7']);
            }
            "#33a7a7"
        },
        23 => {
            proof {
                reveal_strlit("#3584e4");
                assert("#3584e4"@ =~= seq!['#', '3', '5', '8', '4', 'e', '4']);
            }
            "#3584e4"
        },
        _ => {
            proof {
                reveal_strlit("#9141ac");
                assert("#9141ac"@ =~= seq!['#', '9', '1', '4', '1', 'a', 'c']);
            }
            "#9141ac"
        },
    }
}

/// The built-in palette chosen by the light/dark bit, slot by slot.
pub open spec fn fallback_value(dark: bool, i: int) -> Seq<char> {
    if dark {
        fallback_dark(i)
    } else {
        fallback_light(i)
    }
}

fn fallback_str(dark: bool, i: usize) -> (r: &'static str)
    requires
        i < 25,
    ensures
        r@ == fallback_value(dark, i as int),
{
    if dark {
        fallback_dark_str(i)
    } else {
        fallback_light_str(i)
    }
}

/// The slot of `key`, searching from slot `i`.
pub open spec fn key_index(key: Seq<char>, i: int) -> Option<int>
    decreases 25 - i,
{
    if i < 0 || i >= 25 {
        None
    } else if palette_key(i) == key {
        Some(i)
    } else {
        key_index(key, i + 1)
    }
}

proof fn lemma_key_index_bounds(key: Seq<char>, i: int)
    ensures
        key_index(key, i) matches Some(k) ==> 0 <= k < 25 && palette_key(k) == key,
    decreases 25 - i,
{
    if 0 <= i < 25 && palette_key(i) != key {
        lemma_key_index_bounds(key, i + 1);
    }
}

/// What `get` answers for a key that is not a palette key.
pub open spec fn missing_colour(dark: bool) -> Seq<char> {
    if dark {
        "#ffffff"@
    } else {
        "#000000"@
    }
}

// ---------------------------------------------------------------------
// hex colours
// ---------------------------------------------------------------------

/// Two hex digits read as a byte (`None` unless both are ASCII hex digits).
pub open spec fn hex_pair(a: char, b: char) -> Option<int> {
    match (digit_value(a, 16), digit_value(b, 16)) {
        (Some(x), Some(y)) => Some(x * 16 + y),
        _ => None,
    }
}

/// `#` followed by exactly six ASCII hex digits, read as three bytes;
/// `None` for any other text.
pub open spec fn spec_parse_hex(s: Seq<char>) -> Option<(int, int, int)> {
    if s.len() != 7 || s[0] != '#' {
        None
    } else {
        match (hex_pair(s[1], s[2]), hex_pair(s[3], s[4]), hex_pair(s[5], s[6])) {
            (Some(r), Some(g), Some(b)) => Some((r, g, b)),
            _ => None,
        }
    }
}

fn hex_pair_exec(a: char, b: char) -> (r: Option<u8>)
    ensures
        r matches Some(x) ==> hex_pair(a, b) == Some(x as int),
        r is None ==> hex_pair(a, b) is None,
{
    match (digit_value_exec(a, 16), digit_value_exec(b, 16)) {
        (Some(x), Some(y)) => Some((x * 16 + y) as u8),
        _ => None,
    }
}

/// `#rrggbb` read as three bytes; `None` for anything else (never a
/// panic, whatever the text).
pub fn parse_hex(s: &str) -> (r: Option<(u8, u8, u8)>)
    ensures
        r matches Some(t) ==> spec_parse_hex(s@) == Some((t.0 as int, t.1 as int, t.2 as int)),
        r is None ==> spec_parse_hex(s@) is None,
{
    let v = chars_of(s);
    if v.len() != 7 || v[0] != '#' {
        return None;
    }
    let r = match hex_pair_exec(v[1], v[2]) {
        Some(x) => x,
        None => return None,
    };
    let g = match hex_pair_exec(v[3], v[4]) {
        Some(x) => x,
        None => return None,
    };
    let b = match hex_pair_exec(v[5], v[6]) {
        Some(x) => x,
        None => return None,
    };
    Some((r, g, b))
}

/// A hex digit's value does not depend on its case.
proof fn lemma_digit_ignores_case(c: char)
    ensures
        digit_value(ascii_lower_char(c), 16) == digit_value(c, 16),
{
}

/// Colours are read without regard to case: `#7AA2F7` is the colour
/// `#7aa2f7`, and a text that is no colour in one case is none in the
/// other.
pub proof fn lemma_parse_hex_ignores_case(s: Seq<char>)
    ensures
        spec_parse_hex(ascii_lower(s)) == spec_parse_hex(s),
{
    let l = ascii_lower(s);
    if s.len() == 7 {
        assert(l[0] == ascii_lower_char(s[0]));
        assert forall|k: int| 1 <= k < 7 implies digit_value(#[trigger] l[k], 16) == digit_value(
            s[k],
            16,
        ) by {
            lemma_digit_ignores_case(s[k]);
        }
    }
}

/// The three bytes written as `#` and two lowercase hex digits each (as
/// `{:02x}` writes them) read back as those bytes.
pub proof fn lemma_parse_hex_reads_written_colour(r: u8, g: u8, b: u8)
    ensures
        spec_parse_hex(seq!['#'] + hex2(r as int) + hex2(g as int) + hex2(b as int)) == Some(
            (r as int, g as int, b as int),
        ),
{
    let s = seq!['#'] + hex2(r as int) + hex2(g as int) + hex2(b as int);
    assert(s.len() == 7);
    lemma_hex2_reads_back(r as int);
    lemma_hex2_reads_back(g as int);
    lemma_hex2_reads_back(b as int);
    assert(s[1] == hex2(r as int)[0] && s[2] == hex2(r as int)[1]);
    assert(s[3] == hex2(g as int)[0] && s[4] == hex2(g as int)[1]);
    assert(s[5] == hex2(b as int)[0] && s[6] == hex2(b as int)[1]);
}

proof fn lemma_digit_char_value(d: int)
    requires
        0 <= d < 16,
    ensures
        digit_value(digit_char(d), 16) == Some(d),
{
}

proof fn lemma_hex2_reads_back(v: int)
    requires
        0 <= v < 256,
    ensures
        hex_pair(hex2(v)[0], hex2(v)[1]) == Some(v),
{
    lemma_digit_char_value(v / 16);
    lemma_digit_char_value(v % 16);
}

/// `hex` with a two-digit alpha suffix when it is a `#rrggbb` colour,
/// unchanged otherwise.
pub open spec fn spec_with_alpha(hex: Seq<char>, alpha: int) -> Seq<char> {
    if spec_parse_hex(hex) is Some {
        hex + hex2(alpha)
    } else {
        hex
    }
}

pub fn with_alpha(hex: &str, alpha: u8) -> (r: String)
    ensures
        r@ == spec_with_alpha(hex@, alpha as int),
{
    if parse_hex(hex).is_some() {
        let mut v = chars_of(hex);
        push_hex2(&mut v, alpha);
        string_of(&v)
    } else {
        hex.to_owned()
    }
}

} // verus!

verus! {

pub const CSS_0: &'static str = ":root {\n    --font-body: ";
pub const CSS_1: &'static str = ";\n    --font-heading: ";
pub const CSS_2: &'static str = ";\n    --font-code: ";
pub const CSS_3: &'static str = ";\n    --font-size-base: ";
pub const CSS_4: &'static str = "px;\n    --line-height: 1.6;\n    --paragraph-spacing: 1em;\n    --max-width: 800px;\n    --text-align: left;\n    --bg-color: ";
pub const CSS_5: &'static str = ";\n    --bg-color-rgb: ";
pub const CSS_6: &'static str = ", ";
pub const CSS_7: &'static str = ", ";
pub const CSS_8: &'static str = ";\n    --text-color: ";
pub const CSS_9: &'static str = ";\n    --heading-color: ";
pub const CSS_10: &'static str = ";\n    --heading2-color: ";
pub const CSS_11: &'static str = ";\n    --border-color: ";
pub const CSS_12: &'static str = ";\n    --code-bg: ";
pub const CSS_13: &'static str = ";\n    --code-color: ";
pub const CSS_14: &'static str = ";\n    --link-color: ";
pub const CSS_15: &'static str = ";\n    --accent-color: ";
pub const CSS_16: &'static str = ";\n    --accent-dim: ";
pub const CSS_17: &'static str = ";\n    --selection-color: ";
pub const CSS_18: &'static str = ";\n    --blockquote-color: ";
pub const CSS_19: &'static str = ";\n    --table-header-bg: ";
pub const CSS_20: &'static str = ";\n    --table-border: ";
pub const CSS_21: &'static str = ";\n    --file-info-bg: ";
pub const CSS_22: &'static str = ";\n    --file-info-color: ";
pub const CSS_23: &'static str = ";\n    --secondary-text: ";
pub const CSS_24: &'static str = ";\n    --error-color: ";
pub const CSS_25: &'static str = ";\n    --mermaid-btn-bg: ";
pub const CSS_26: &'static str = ";\n    --mermaid-btn-hover: ";
pub const CSS_27: &'static str = ";\n    --ansi-red: ";
pub const CSS_28: &'static str = ";\n    --ansi-yellow: ";
pub const CSS_29: &'static str = ";\n    --ansi-orange: ";
pub const CSS_30: &'static str = ";\n    --ansi-green: ";
pub const CSS_31: &'static str = ";\n    --ansi-cyan: ";
pub const CSS_32: &'static str = ";\n    --ansi-blue: ";
pub const CSS_33: &'static str = ";\n    --ansi-magenta: ";
pub const CSS_34: &'static str = ";\n    --ansi-bright-red: ";
pub const CSS_35: &'static str = ";\n    --ansi-bright-yellow: ";
pub const CSS_36: &'static str = ";\n    --ansi-bright-green: ";
pub const CSS_37: &'static str = ";\n    --ansi-bright-cyan: ";
pub const CSS_38: &'static str = ";\n    --ansi-bright-blue: ";
pub const CSS_39: &'static str = ";\n    --ansi-bright-magenta: ";
pub const CSS_40: &'static str = ";\n}\n";
pub const MERMAID_0: &'static str = "{\"fontFamily\": \"\\\"iA Writer Quattro S\\\", \\\"Noto Sans\\\", sans-serif\", \"darkMode\": ";
pub const MERMAID_1: &'static str = ", \"background\": \"";
pub const MERMAID_2: &'static str = "\", \"primaryColor\": \"";
pub const MERMAID_3: &'static str = "\", \"primaryTextColor\": \"";
pub const MERMAID_4: &'static str = "\", \"primaryBorderColor\": \"";
pub const MERMAID_5: &'static str = "\", \"secondaryColor\": \"";
pub const MERMAID_6: &'static str = "\", \"secondaryTextColor\": \"";
pub const MERMAID_7: &'static str = "\", \"tertiaryColor\": \"";
pub const MERMAID_8: &'static str = "\", \"tertiaryTextColor\": \"";
pub const MERMAID_9: &'static str = "\", \"lineColor\": \"";
pub const MERMAID_10: &'static str = "\", \"textColor\": \"";
pub const MERMAID_11: &'static str = "\", \"mainBkg\": \"";
pub const MERMAID_12: &'static str = "\", \"clusterBkg\": \"";
pub const MERMAID_13: &'static str = "\", \"clusterBorder\": \"";
pub const MERMAID_14: &'static str = "\", \"titleColor\": \"";
pub const MERMAID_15: &'static str = "\", \"edgeLabelBackground\": \"";
pub const MERMAID_16: &'static str = "\", \"noteBkgColor\": \"";
pub const MERMAID_17: &'static str = "\", \"noteTextColor\": \"";
pub const MERMAID_18: &'static str = "\", \"noteBorderColor\": \"";
pub const MERMAID_19: &'static str = "\", \"errorBkgColor\": \"";
pub const MERMAID_20: &'static str = "\", \"errorTextColor\": \"";
pub const MERMAID_21: &'static str = "\"}";

/// Pieces of the style sheet of the window chrome (see `chrome_css`).
pub const CHROME_0: &'static str = "\nwindow { background-color: ";
pub const CHROME_1: &'static str = "; color: ";
pub const CHROME_2: &'static str = "; }\n.moremaid-sidebar { background-color: ";
pub const CHROME_3: &'static str = "; color: ";
pub const CHROME_4: &'static str = "; font-family: ";
pub const CHROME_5: &'static str = "; border-right: 1px solid ";
pub const CHROME_6: &'static str = "; }\n.moremaid-sidebar listview, .moremaid-sidebar listview row { background: transparent; }\n.moremaid-sidebar listview row:selected { background-color: ";
pub const CHROME_7: &'static str = "; }\n.moremaid-sidebar listview row:hover { background-color: ";
pub const CHROME_8: &'static str = "; }\n.moremaid-heading-row { color: ";
pub const CHROME_9: &'static str = "; font-size: 90%; }\npaned > separator { background-color: ";
pub const CHROME_10: &'static str = "; min-width: 1px; }\n.moremaid-overlay { background-color: ";
pub const CHROME_11: &'static str = "; color: ";
pub const CHROME_12: &'static str = "; border: 1px solid ";
pub const CHROME_13: &'static str = "; border-radius: 8px; padding: 10px; }\n.moremaid-overlay entry { background-color: ";
pub const CHROME_14: &'static str = "; color: ";
pub const CHROME_15: &'static str = "; caret-color: ";
pub const CHROME_16: &'static str = "; border: 1px solid ";
pub const CHROME_17: &'static str = "; }\n.moremaid-overlay entry selection { background-color: ";
pub const CHROME_18: &'static str = "; }\n.moremaid-overlay listview, .moremaid-overlay listview row { background: transparent; }\n.moremaid-overlay listview row:selected { background-color: ";
pub const CHROME_19: &'static str = "; }\n.moremaid-overlay-mode { color: ";
pub const CHROME_20: &'static str = "; font-size: 90%; }\n.moremaid-overlay-snippet { color: ";
pub const CHROME_21: &'static str = "; font-size: 90%; font-family: monospace; }\n.moremaid-topbar { background-color: ";
pub const CHROME_22: &'static str = "; color: ";
pub const CHROME_23: &'static str = "; border-bottom: 1px solid ";
pub const CHROME_24: &'static str = "; padding: 4px 8px; font-family: ";
pub const CHROME_25: &'static str = "; }\n.moremaid-topbar button { background: transparent; border: none; box-shadow: none; color: ";
pub const CHROME_26: &'static str = "; min-width: 28px; min-height: 28px; }\n.moremaid-topbar button:disabled { color: ";
pub const CHROME_27: &'static str = "; }\n.moremaid-topbar button:hover { background-color: ";
pub const CHROME_28: &'static str = "; }\n.moremaid-topbar-title { color: ";
pub const CHROME_29: &'static str = "; font-size: 95%; }\n";

// ---------------------------------------------------------------------
// the palette
// ---------------------------------------------------------------------

/// A palette: the light/dark bit and one colour per palette key.
pub struct Palette {
    pub dark: bool,
    values: Vec<String>,
}

impl View for Palette {
    type V = (bool, Seq<Seq<char>>);

    /// The light/dark bit and the colours, slot by slot (see `palette_key`).
    closed spec fn view(&self) -> (bool, Seq<Seq<char>>) {
        (self.dark, self.values@.map_values(|s: String| s@))
    }
}

/// The colour `get` answers for `key`.
pub open spec fn palette_get(p: Palette, key: Seq<char>) -> Seq<char> {
    match key_index(key, 0) {
        Some(i) => if i < p@.1.len() {
            p@.1[i]
        } else {
            missing_colour(p@.0)
        },
        None => missing_colour(p@.0),
    }
}

/// Raised surface: code blocks, tables.
pub open spec fn palette_raised(p: Palette) -> Seq<char> {
    if p@.0 {
        palette_get(p, "lighter_background"@)
    } else {
        palette_get(p, "darker_background"@)
    }
}

/// All 25 built-in colours for the light/dark bit.
pub open spec fn fallback_values(dark: bool) -> Seq<Seq<char>> {
    Seq::new(25, |i: int| fallback_value(dark, i))
}

/// The background as three bytes, black when it is no `#rrggbb` colour.
pub open spec fn rgb_of(s: Seq<char>) -> (int, int, int) {
    match spec_parse_hex(s) {
        Some(t) => t,
        None => (0, 0, 0),
    }
}

pub open spec fn bool_text(b: bool) -> Seq<char> {
    if b {
        "true"@
    } else {
        "false"@
    }
}

/// The `:root` custom-property block of a page.
pub open spec fn css_block_spec(p: Palette, size: u32) -> Seq<char> {
    CSS_0@ + FONT_BODY@ + CSS_1@ + FONT_BODY@ + CSS_2@ + FONT_CODE@ + CSS_3@ + decimal(size as nat)
        + CSS_4@ + palette_get(p, "background"@) + CSS_5@
        + decimal(rgb_of(palette_get(p, "background"@)).0 as nat) + CSS_6@
        + decimal(rgb_of(palette_get(p, "background"@)).1 as nat) + CSS_7@
        + decimal(rgb_of(palette_get(p, "background"@)).2 as nat) + CSS_8@
        + palette_get(p, "foreground"@) + CSS_9@ + palette_get(p, "bright_foreground"@) + CSS_10@
        + palette_get(p, "light_foreground"@) + CSS_11@ + palette_get(p, "muted"@) + CSS_12@
        + palette_raised(p) + CSS_13@ + palette_get(p, "red"@) + CSS_14@ + palette_get(p, "accent"@)
        + CSS_15@ + palette_get(p, "accent"@) + CSS_16@
        + spec_with_alpha(palette_get(p, "accent"@), 0x66) + CSS_17@ + palette_get(p, "selection"@)
        + CSS_18@ + palette_get(p, "dark_foreground"@) + CSS_19@ + palette_raised(p) + CSS_20@
        + palette_get(p, "muted"@) + CSS_21@ + palette_raised(p) + CSS_22@
        + palette_get(p, "dark_foreground"@) + CSS_23@ + palette_get(p, "dark_foreground"@) + CSS_24@
        + palette_get(p, "red"@) + CSS_25@ + spec_with_alpha(palette_get(p, "accent"@), 0xcc)
        + CSS_26@ + palette_get(p, "accent"@) + CSS_27@ + palette_get(p, "red"@) + CSS_28@
        + palette_get(p, "yellow"@) + CSS_29@ + palette_get(p, "orange"@) + CSS_30@
        + palette_get(p, "green"@) + CSS_31@ + palette_get(p, "cyan"@) + CSS_32@
        + palette_get(p, "blue"@) + CSS_33@ + palette_get(p, "magenta"@) + CSS_34@
        + palette_get(p, "bright_red"@) + CSS_35@ + palette_get(p, "bright_yellow"@) + CSS_36@
        + palette_get(p, "bright_green"@) + CSS_37@ + palette_get(p, "bright_cyan"@) + CSS_38@
        + palette_get(p, "bright_blue"@) + CSS_39@ + palette_get(p, "bright_magenta"@) + CSS_40@
}

/// The Mermaid theme variables, a JSON object.
pub open spec fn mermaid_vars_spec(p: Palette) -> Seq<char> {
    MERMAID_0@ + bool_text(p@.0) + MERMAID_1@ + palette_get(p, "background"@) + MERMAID_2@
        + palette_get(p, "accent"@) + MERMAID_3@ + palette_get(p, "background"@) + MERMAID_4@
        + palette_get(p, "muted"@) + MERMAID_5@ + palette_raised(p) + MERMAID_6@
        + palette_get(p, "foreground"@) + MERMAID_7@ + palette_get(p, "background"@) + MERMAID_8@
        + palette_get(p, "foreground"@) + MERMAID_9@ + palette_get(p, "foreground"@) + MERMAID_10@
        + palette_get(p, "foreground"@) + MERMAID_11@ + palette_get(p, "accent"@) + MERMAID_12@
        + palette_raised(p) + MERMAID_13@ + palette_get(p, "muted"@) + MERMAID_14@
        + palette_get(p, "bright_foreground"@) + MERMAID_15@ + palette_get(p, "background"@)
        + MERMAID_16@ + palette_raised(p) + MERMAID_17@ + palette_get(p, "foreground"@) + MERMAID_18@
        + palette_get(p, "muted"@) + MERMAID_19@ + palette_get(p, "red"@) + MERMAID_20@
        + palette_get(p, "background"@) + MERMAID_21@
}

/// The style sheet of the window chrome (Navigator, search overlay, top
/// bar): the page palette's colours and the body font stack.
pub open spec fn chrome_css_spec(p: Palette, fonts: (Seq<char>, Seq<char>, Seq<char>, u32)) -> Seq<char> {
    CHROME_0@ + palette_get(p, "background"@) + CHROME_1@ + palette_get(p, "foreground"@)
        + CHROME_2@ + palette_get(p, "background"@) + CHROME_3@ + palette_get(p, "foreground"@)
        + CHROME_4@ + fonts.0 + CHROME_5@ + palette_get(p, "muted"@) + CHROME_6@
        + palette_get(p, "selection"@) + CHROME_7@ + palette_get(p, "selection"@) + CHROME_8@
        + palette_get(p, "dark_foreground"@) + CHROME_9@ + palette_get(p, "muted"@) + CHROME_10@
        + palette_raised(p) + CHROME_11@ + palette_get(p, "foreground"@) + CHROME_12@
        + palette_get(p, "muted"@) + CHROME_13@ + palette_get(p, "background"@) + CHROME_14@
        + palette_get(p, "foreground"@) + CHROME_15@ + palette_get(p, "foreground"@) + CHROME_16@
        + palette_get(p, "muted"@) + CHROME_17@ + palette_get(p, "selection"@) + CHROME_18@
        + palette_get(p, "selection"@) + CHROME_19@ + palette_get(p, "dark_foreground"@)
        + CHROME_20@ + palette_get(p, "dark_foreground"@) + CHROME_21@ + palette_raised(p)
        + CHROME_22@ + palette_get(p, "foreground"@) + CHROME_23@ + palette_get(p, "muted"@)
        + CHROME_24@ + fonts.0 + CHROME_25@ + palette_get(p, "foreground"@) + CHROME_26@
        + palette_get(p, "muted"@) + CHROME_27@ + palette_get(p, "selection"@) + CHROME_28@
        + palette_get(p, "dark_foreground"@) + CHROME_29@
}

// ---------------------------------------------------------------------
// theme files
// ---------------------------------------------------------------------

#[verifier::external_type_specification]
#[verifier::external_body]
#[verifier::reject_recursive_types(K)]
#[verifier::reject_recursive_types(V)]
pub struct ExTomlMap<K, V>(toml::map::Map<K, V>);

#[verifier::external_type_specification]
#[verifier::external_body]
pub struct ExTomlValue(toml::Value);

/// What a `toml::Table` holds: its keys whose values are TOML strings, with
/// those strings.
pub uninterp spec fn table_strings(t: toml::Table) -> Map<Seq<char>, Seq<char>>;

/// What `text.parse::<toml::Table>()` gives, seen through `table_strings`:
/// `None` when the text is no TOML document.
pub uninterp spec fn toml_table_of(text: Seq<char>) -> Option<Map<Seq<char>, Seq<char>>>;

/// Calls `str::parse::<toml::Table>`. Claimed: `Some` exactly when
/// `toml_table_of` of the text is, and then the table's string entries are
/// what it names. Which texts parse (the TOML grammar) is not stated.
#[verifier::external_body]
fn parse_table(text: &str) -> (r: Option<toml::Table>)
    ensures
        match r {
            Some(t) => toml_table_of(text@) == Some(table_strings(t)),
            None => toml_table_of(text@) is None,
        },
{
    text.parse::<toml::Table>().ok()
}

/// Calls `toml::map::Map::get` and keeps a `Value::String`. Claimed: the
/// string entry for `key` when the table has one (`table_strings`), `None`
/// for an absent key or a value of another kind.
#[verifier::external_body]
fn table_get_str(t: &toml::Table, key: &str) -> (r: Option<String>)
    ensures
        r is Some <==> table_strings(*t).contains_key(key@),
        r matches Some(v) ==> v@ == table_strings(*t)[key@],
{
    match t.get(key) {
        Some(toml::Value::String(s)) => Some(s.clone()),
        _ => None,
    }
}

/// The light/dark bit of a theme: dark unless `mode` is `"light"`.
pub open spec fn mode_dark(strs: Map<Seq<char>, Seq<char>>) -> bool {
    if strs.contains_key("mode"@) {
        strs["mode"@] != "light"@
    } else {
        true
    }
}

/// Slot `i` of a theme's palette: the theme's colour when it is a valid
/// `#rrggbb`, else the built-in one.
pub open spec fn theme_value(strs: Map<Seq<char>, Seq<char>>, i: int) -> Seq<char> {
    let k = palette_key(i);
    if strs.contains_key(k) && spec_parse_hex(strs[k]) is Some {
        strs[k]
    } else {
        fallback_value(mode_dark(strs), i)
    }
}

pub open spec fn theme_values(strs: Map<Seq<char>, Seq<char>>) -> Seq<Seq<char>> {
    Seq::new(25, |i: int| theme_value(strs, i))
}

impl Palette {
    /// Whether the palette is a dark one.
    pub fn is_dark(&self) -> (r: bool)
        ensures
            r == self@.0,
    {
        self.dark
    }

    /// The built-in palette for the light/dark bit.
    pub fn fallback(dark: bool) -> (r: Palette)
        ensures
            r@.0 == dark,
            r@.1 == fallback_values(dark),
    {
        let mut values: Vec<String> = Vec::new();
        let mut i: usize = 0;
        while i < PALETTE_LEN
            invariant
                i <= 25,
                values.len() == i,
                forall|j: int| 0 <= j < i ==> #[trigger] values@[j]@ == fallback_value(dark, j),
            decreases 25 - i,
        {
            values.push(fallback_str(dark, i).to_owned());
            i += 1;
        }
        let p = Palette { dark, values };
        assert(p@.1 =~= fallback_values(dark));
        p
    }

    /// The colour for `key`; a key outside the palette gives white on a dark
    /// palette and black on a light one.
    pub fn get(&self, key: &str) -> (r: &str)
        ensures
            r@ == palette_get(*self, key@),
    {
        let k = chars_of(key);
        let mut i: usize = 0;
        while i < PALETTE_LEN
            invariant
                i <= 25,
                k@ == key@,
                key_index(key@, 0) == key_index(key@, i as int),
            decreases 25 - i,
        {
            if eq_lit(&k, palette_key_str(i)) {
                if i < self.values.len() {
                    return self.values[i].as_str();
                } else {
                    return if self.dark {
                        "#ffffff"
                    } else {
                        "#000000"
                    };
                }
            }
            i += 1;
        }
        if self.dark {
            "#ffffff"
        } else {
            "#000000"
        }
    }

    /// Whether `key` is one of the palette's keys.
    pub fn contains_key(&self, key: &str) -> (r: bool)
        ensures
            r == (key_index(key@, 0) matches Some(i) && i < self@.1.len()),
    {
        let k = chars_of(key);
        let mut i: usize = 0;
        while i < PALETTE_LEN
            invariant
                i <= 25,
                k@ == key@,
                key_index(key@, 0) == key_index(key@, i as int),
            decreases 25 - i,
        {
            if eq_lit(&k, palette_key_str(i)) {
                return i < self.values.len();
            }
            i += 1;
        }
        false
    }

    /// Raised surface: code blocks, tables.
    fn raised(&self) -> (r: &str)
        ensures
            r@ == palette_raised(*self),
    {
        if self.dark {
            self.get("lighter_background")
        } else {
            self.get("darker_background")
        }
    }

    /// The style sheet of the window chrome (see `chrome_css_spec`).
    pub fn chrome_css(&self, fonts: &Fonts) -> (out: String)
        ensures
            out@ == chrome_css_spec(*self, fonts@),
    {
        let mut out = String::new();
        out.append(CHROME_0);
        out.append(self.get("background"));
        out.append(CHROME_1);
        out.append(self.get("foreground"));
        out.append(CHROME_2);
        out.append(self.get("background"));
        out.append(CHROME_3);
        out.append(self.get("foreground"));
        out.append(CHROME_4);
        out.append(fonts.body_stack.as_str());
        out.append(CHROME_5);
        out.append(self.get("muted"));
        out.append(CHROME_6);
        out.append(self.get("selection"));
        out.append(CHROME_7);
        out.append(self.get("selection"));
        out.append(CHROME_8);
        out.append(self.get("dark_foreground"));
        out.append(CHROME_9);
        out.append(self.get("muted"));
        out.append(CHROME_10);
        out.append(self.raised());
        out.append(CHROME_11);
        out.append(self.get("foreground"));
        out.append(CHROME_12);
        out.append(self.get("muted"));
        out.append(CHROME_13);
        out.append(self.get("background"));
        out.append(CHROME_14);
        out.append(self.get("foreground"));
        out.append(CHROME_15);
        out.append(self.get("foreground"));
        out.append(CHROME_16);
        out.append(self.get("muted"));
        out.append(CHROME_17);
        out.append(self.get("selection"));
        out.append(CHROME_18);
        out.append(self.get("selection"));
        out.append(CHROME_19);
        out.append(self.get("dark_foreground"));
        out.append(CHROME_20);
        out.append(self.get("dark_foreground"));
        out.append(CHROME_21);
        out.append(self.raised());
        out.append(CHROME_22);
        out.append(self.get("foreground"));
        out.append(CHROME_23);
        out.append(self.get("muted"));
        out.append(CHROME_24);
        out.append(fonts.body_stack.as_str());
        out.append(CHROME_25);
        out.append(self.get("foreground"));
        out.append(CHROME_26);
        out.append(self.get("muted"));
        out.append(CHROME_27);
        out.append(self.get("selection"));
        out.append(CHROME_28);
        out.append(self.get("dark_foreground"));
        out.append(CHROME_29);
        out
    }

    /// The palette of a parsed theme file: the `mode` key picks the light or
    /// dark built-in palette, and each palette key with a valid `#rrggbb`
    /// string replaces its built-in colour.
    pub fn from_table(table: &toml::Table) -> (r: Palette)
        ensures
            r@.0 == mode_dark(table_strings(*table)),
            r@.1 == theme_values(table_strings(*table)),
    {
        let ghost strs = table_strings(*table);
        let dark = match table_get_str(table, "mode") {
            Some(m) => !str_eq(m.as_str(), "light"),
            None => true,
        };
        let mut values: Vec<String> = Vec::new();
        let mut i: usize = 0;
        while i < PALETTE_LEN
            invariant
                i <= 25,
                strs == table_strings(*table),
                dark == mode_dark(strs),
                values.len() == i,
                forall|j: int| 0 <= j < i ==> #[trigger] values@[j]@ == theme_value(strs, j),
            decreases 25 - i,
        {
            let key = palette_key_str(i);
            let fb = fallback_str(dark, i);
            match table_get_str(table, key) {
                Some(v) => {
                    if parse_hex(v.as_str()).is_some() {
                        values.push(v);
                    } else {
                        values.push(fb.to_owned());
                    }
                },
                None => {
                    values.push(fb.to_owned());
                },
            }
            i += 1;
        }
        let p = Palette { dark, values };
        assert(p@.1 =~= theme_values(strs));
        p
    }

    /// The palette of a theme file's text: `None` when it is no TOML
    /// document, the palette of its table otherwise.
    pub fn from_toml(text: &str) -> (r: Option<Palette>)
        ensures
            r is None <==> toml_table_of(text@) is None,
            r matches Some(p) ==> p@.0 == mode_dark(toml_table_of(text@).unwrap()) && p@.1
                == theme_values(toml_table_of(text@).unwrap()),
    {
        match parse_table(text) {
            Some(t) => Some(Palette::from_table(&t)),
            None => None,
        }
    }

    /// The `:root` custom-property block interpolated into every page.
    pub fn css_block(&self, font_size_px: u32) -> (out: String)
        ensures
            out@ == css_block_spec(*self, font_size_px),
    {
        let size = font_size_px;
        let (r, g, b) = match parse_hex(self.get("background")) {
            Some(t) => t,
            None => (0, 0, 0),
        };
        let mut out = String::new();
        out.append(CSS_0);
        out.append(FONT_BODY);
        out.append(CSS_1);
        out.append(FONT_BODY);
        out.append(CSS_2);
        out.append(FONT_CODE);
        out.append(CSS_3);
        out.append(decimal_string(font_size_px as u64).as_str());
        out.append(CSS_4);
        out.append(self.get("background"));
        out.append(CSS_5);
        out.append(decimal_string(r as u64).as_str());
        out.append(CSS_6);
        out.append(decimal_string(g as u64).as_str());
        out.append(CSS_7);
        out.append(decimal_string(b as u64).as_str());
        out.append(CSS_8);
        out.append(self.get("foreground"));
        out.append(CSS_9);
        out.append(self.get("bright_foreground"));
        out.append(CSS_10);
        out.append(self.get("light_foreground"));
        out.append(CSS_11);
        out.append(self.get("muted"));
        out.append(CSS_12);
        out.append(self.raised());
        out.append(CSS_13);
        out.append(self.get("red"));
        out.append(CSS_14);
        out.append(self.get("accent"));
        out.append(CSS_15);
        out.append(self.get("accent"));
        out.append(CSS_16);
        out.append(with_alpha(self.get("accent"), 0x66).as_str());
        out.append(CSS_17);
        out.append(self.get("selection"));
        out.append(CSS_18);
        out.append(self.get("dark_foreground"));
        out.append(CSS_19);
        out.append(self.raised());
        out.append(CSS_20);
        out.append(self.get("muted"));
        out.append(CSS_21);
        out.append(self.raised());
        out.append(CSS_22);
        out.append(self.get("dark_foreground"));
        out.append(CSS_23);
        out.append(self.get("dark_foreground"));
        out.append(CSS_24);
        out.append(self.get("red"));
        out.append(CSS_25);
        out.append(with_alpha(self.get("accent"), 0xcc).as_str());
        out.append(CSS_26);
        out.append(self.get("accent"));
        out.append(CSS_27);
        out.append(self.get("red"));
        out.append(CSS_28);
        out.append(self.get("yellow"));
        out.append(CSS_29);
        out.append(self.get("orange"));
        out.append(CSS_30);
        out.append(self.get("green"));
        out.append(CSS_31);
        out.append(self.get("cyan"));
        out.append(CSS_32);
        out.append(self.get("blue"));
        out.append(CSS_33);
        out.append(self.get("magenta"));
        out.append(CSS_34);
        out.append(self.get("bright_red"));
        out.append(CSS_35);
        out.append(self.get("bright_yellow"));
        out.append(CSS_36);
        out.append(self.get("bright_green"));
        out.append(CSS_37);
        out.append(self.get("bright_cyan"));
        out.append(CSS_38);
        out.append(self.get("bright_blue"));
        out.append(CSS_39);
        out.append(self.get("bright_magenta"));
        out.append(CSS_40);
        out
    }

    /// Mermaid theme variables derived from the same roles, so prose, code
    /// and diagrams are one palette. The explicit `fontFamily` is
    /// load-bearing: WebKitGTK's SVG renderer can drop every label when
    /// Mermaid uses generic families.
    pub fn mermaid_vars_json(&self) -> (out: String)
        ensures
            out@ == mermaid_vars_spec(*self),
    {
        let mut out = String::new();
        out.append(MERMAID_0);
        out.append(if self.dark { "true" } else { "false" });
        out.append(MERMAID_1);
        out.append(self.get("background"));
        out.append(MERMAID_2);
        out.append(self.get("accent"));
        out.append(MERMAID_3);
        out.append(self.get("background"));
        out.append(MERMAID_4);
        out.append(self.get("muted"));
        out.append(MERMAID_5);
        out.append(self.raised());
        out.append(MERMAID_6);
        out.append(self.get("foreground"));
        out.append(MERMAID_7);
        out.append(self.get("background"));
        out.append(MERMAID_8);
        out.append(self.get("foreground"));
        out.append(MERMAID_9);
        out.append(self.get("foreground"));
        out.append(MERMAID_10);
        out.append(self.get("foreground"));
        out.append(MERMAID_11);
        out.append(self.get("accent"));
        out.append(MERMAID_12);
        out.append(self.raised());
        out.append(MERMAID_13);
        out.append(self.get("muted"));
        out.append(MERMAID_14);
        out.append(self.get("bright_foreground"));
        out.append(MERMAID_15);
        out.append(self.get("background"));
        out.append(MERMAID_16);
        out.append(self.raised());
        out.append(MERMAID_17);
        out.append(self.get("foreground"));
        out.append(MERMAID_18);
        out.append(self.get("muted"));
        out.append(MERMAID_19);
        out.append(self.get("red"));
        out.append(MERMAID_20);
        out.append(self.get("background"));
        out.append(MERMAID_21);
        out
    }
}

} // verus!
