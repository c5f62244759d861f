//! HTML page assembly: the assets the caller read from the web directory,
//! a handful of values substituted into fixed templates, and the escaping
//! that keeps documents from breaking out of their markup or script blocks.

use vstd::prelude::*;
use crate::text::{
    chars_of, decimal, decimal_string, hex2, push_hex2, string_of, utf8_bytes, char_utf8_len,
    code_of, trim, trim_start, skip_ws, trim_range,
};
use crate::headings::{split_lines, lines_of};
use crate::theme::{
    Palette, FONT_BODY, bool_text, css_block_spec, mermaid_vars_spec, palette_get,
    palette_raised,
};
use crate::langmap::{language_for_file, spec_language_for_file};

verus! {

/// Above this many bytes a document renders plain (no Mermaid, no Prism)
/// behind a banner.
pub const PLAIN_SIZE_LIMIT: usize = 5242880;

/// Above this many Mermaid fences a document renders plain. The diagram
/// count is the real trigger.
pub const PLAIN_DIAGRAM_LIMIT: usize = 50;

/// The web assets a page embeds, as read from the assets directory.
pub struct Assets {
    pub base_css: String,
    pub prism_css: String,
    pub page_js: String,
}

// ---------------------------------------------------------------------
// escaping
// ---------------------------------------------------------------------

spec fn quot_tail() -> Seq<char> {
    seq!['q', 'u', 'o', 't', ';']
}

/// The HTML escape of one character.
pub open spec fn html_escape_char(c: char) -> Seq<char> {
    if c == '&' {
        seq!['&', 'a', 'm', 'p', ';']
    } else if c == '<' {
        seq!['&', 'l', 't', ';']
    } else if c == '>' {
        seq!['&', 'g', 't', ';']
    } else if c == '"' {
        seq!['&', 'q', 'u', 'o', 't', ';']
    } else if c == '\'' {
        seq!['&', '#', '3', '9', ';']
    } else {
        seq![c]
    }
}

/// `s` with `&`, `<`, `>`, `"` and `'` replaced by character references.
pub open spec fn spec_html_escape(s: Seq<char>) -> Seq<char>
    decreases s.len(),
{
    if s.len() == 0 {
        Seq::empty()
    } else {
        spec_html_escape(s.drop_last()) + html_escape_char(s.last())
    }
}

fn push_chars(out: &mut Vec<char>, Ghost(cs): Ghost<Seq<char>>, a: char, b: char, c: char, d: char, e: char, n: usize)
    requires
        1 <= n <= 5,
        cs =~= seq![a, b, c, d, e].take(n as int),
    ensures
        final(out)@ == old(out)@ + cs,
{
    out.push(a);
    if n >= 2 {
        out.push(b);
    }
    if n >= 3 {
        out.push(c);
    }
    if n >= 4 {
        out.push(d);
    }
    if n >= 5 {
        out.push(e);
    }
    assert(out@ =~= old(out)@ + cs);
}

pub fn html_escape(s: &str) -> (r: String)
    ensures
        r@ == spec_html_escape(s@),
{
    let v = chars_of(s);
    let mut out: Vec<char> = Vec::new();
    let mut i: usize = 0;
    while i < v.len()
        invariant
            i <= v.len(),
            out@ == spec_html_escape(v@.take(i as int)),
        decreases v.len() - i,
    {
        let c = v[i];
        assert(v@.take(i + 1).drop_last() == v@.take(i as int));
        if c == '&' {
            push_chars(&mut out, Ghost(html_escape_char(c)), '&', 'a', 'm', 'p', ';', 5);
        } else if c == '<' {
            push_chars(&mut out, Ghost(html_escape_char(c)), '&', 'l', 't', ';', ' ', 4);
        } else if c == '>' {
            push_chars(&mut out, Ghost(html_escape_char(c)), '&', 'g', 't', ';', ' ', 4);
        } else if c == '"' {
            out.push('&');
            push_chars(&mut out, Ghost(quot_tail()), 'q', 'u', 'o', 't', ';', 5);
            assert(seq!['&'] + quot_tail() =~= html_escape_char(c));
        } else if c == '\'' {
            push_chars(&mut out, Ghost(html_escape_char(c)), '&', '#', '3', '9', ';', 5);
        } else {
            out.push(c);
        }
        i += 1;
    }
    assert(v@.take(v.len() as int) == v@);
    string_of(&out)
}

/// The JSON escape of one character, safe inside a `<script>` block: `<`
/// and the JavaScript line terminators U+2028/U+2029 escaped too.
pub open spec fn json_escape_char(c: char) -> Seq<char> {
    if c == '"' {
        seq!['\\', '"']
    } else if c == '\\' {
        seq!['\\', '\\']
    } else if c == '\n' {
        seq!['\\', 'n']
    } else if c == '\r' {
        seq!['\\', 'r']
    } else if c == '\t' {
        seq!['\\', 't']
    } else if c == '<' {
        seq!['\\', 'u', '0', '0', '3', 'c']
    } else if c == '\u{2028}' {
        seq!['\\', 'u', '2', '0', '2', '8']
    } else if c == '\u{2029}' {
        seq!['\\', 'u', '2', '0', '2', '9']
    } else if (c as int) < 0x20 {
        seq!['\\', 'u', '0', '0'] + hex2(c as int)
    } else {
        seq![c]
    }
}

pub open spec fn json_body(s: Seq<char>) -> Seq<char>
    decreases s.len(),
{
    if s.len() == 0 {
        Seq::empty()
    } else {
        json_body(s.drop_last()) + json_escape_char(s.last())
    }
}

/// A JSON string literal holding `s`.
pub open spec fn spec_json_str(s: Seq<char>) -> Seq<char> {
    seq!['"'] + json_body(s) + seq!['"']
}

fn push_json_escape(out: &mut Vec<char>, c: char)
    ensures
        final(out)@ == old(out)@ + json_escape_char(c),
{
    let code = code_of(c);
    if c == '"' {
        out.push('\\');
        out.push('"');
    } else if c == '\\' {
        out.push('\\');
        out.push('\\');
    } else if c == '\n' {
        out.push('\\');
        out.push('n');
    } else if c == '\r' {
        out.push('\\');
        out.push('r');
    } else if c == '\t' {
        out.push('\\');
        out.push('t');
    } else if c == '<' {
        out.push('\\');
        out.push('u');
        out.push('0');
        out.push('0');
        out.push('3');
        out.push('c');
    } else if c == '\u{2028}' {
        out.push('\\');
        out.push('u');
        out.push('2');
        out.push('0');
        out.push('2');
        out.push('8');
    } else if c == '\u{2029}' {
        out.push('\\');
        out.push('u');
        out.push('2');
        out.push('0');
        out.push('2');
        out.push('9');
    } else if code < 0x20 {
        out.push('\\');
        out.push('u');
        out.push('0');
        out.push('0');
        push_hex2(out, code as u8);
    } else {
        out.push(c);
    }
    assert(out@ =~= old(out)@ + json_escape_char(c));
}

/// JSON string literal, safe for embedding inside a `<script>` block (`<`
/// escaped so a literal `</script>` in the document cannot end the block).
pub fn json_str(s: &str) -> (r: String)
    ensures
        r@ == spec_json_str(s@),
{
    let v = chars_of(s);
    let mut out: Vec<char> = Vec::new();
    out.push('"');
    let mut i: usize = 0;
    while i < v.len()
        invariant
            i <= v.len(),
            out@ == seq!['"'] + json_body(v@.take(i as int)),
        decreases v.len() - i,
    {
        assert(v@.take(i + 1).drop_last() == v@.take(i as int));
        push_json_escape(&mut out, v[i]);
        i += 1;
    }
    assert(v@.take(v.len() as int) == v@);
    out.push('"');
    string_of(&out)
}

// ---------------------------------------------------------------------
// Mermaid fences
// ---------------------------------------------------------------------

/// `s` without its leading run of backticks and tildes.
pub open spec fn trim_ticks(s: Seq<char>) -> Seq<char>
    decreases s.len(),
{
    if s.len() > 0 && (s[0] == '`' || s[0] == '~') {
        trim_ticks(s.drop_first())
    } else {
        s
    }
}

pub open spec fn three_backticks() -> Seq<char> {
    seq!['`', '`', '`']
}

pub open spec fn three_tildes() -> Seq<char> {
    seq!['~', '~', '~']
}

pub open spec fn mermaid_word() -> Seq<char> {
    seq!['m', 'e', 'r', 'm', 'a', 'i', 'd']
}

pub open spec fn starts_with(s: Seq<char>, p: Seq<char>) -> bool {
    s.len() >= p.len() && s.take(p.len() as int) == p
}

/// A line that opens a Mermaid fence: after leading whitespace, three
/// backticks or tildes, then (past the whole run and whitespace) `mermaid`.
pub open spec fn is_mermaid_fence(line: Seq<char>) -> bool {
    let t = trim_start(line);
    (starts_with(t, three_backticks()) || starts_with(t, three_tildes())) && starts_with(
        trim(trim_ticks(t)),
        mermaid_word(),
    )
}

pub open spec fn count_fences(lines: Seq<Seq<char>>) -> nat
    decreases lines.len(),
{
    if lines.len() == 0 {
        0
    } else {
        count_fences(lines.drop_last()) + if is_mermaid_fence(lines.last()) {
            1nat
        } else {
            0nat
        }
    }
}

fn starts_with_at(v: &Vec<char>, lo: usize, Ghost(p): Ghost<Seq<char>>, a: char, b: char, c: char, d: char, e: char, f: char, g: char, n: usize) -> (r: bool)
    requires
        lo <= v.len(),
        1 <= n <= 7,
        p =~= seq![a, b, c, d, e, f, g].take(n as int),
    ensures
        r == starts_with(v@.skip(lo as int), p),
{
    let ghost t = v@.skip(lo as int);
    if v.len() - lo < n {
        return false;
    }
    let cs = [a, b, c, d, e, f, g];
    let mut k: usize = 0;
    while k < n
        invariant
            k <= n <= 7,
            lo + n <= v.len(),
            t == v@.skip(lo as int),
            cs@ == seq![a, b, c, d, e, f, g],
            p == cs@.take(n as int),
            forall|j: int| 0 <= j < k ==> t[j] == p[j],
        decreases n - k,
    {
        if v[lo + k] != cs[k] {
            assert(t.take(n as int)[k as int] != p[k as int]);
            return false;
        }
        k += 1;
    }
    assert(t.take(n as int) =~= p);
    true
}

fn mermaid_line(line: &Vec<char>) -> (r: bool)
    ensures
        r == is_mermaid_fence(line@),
{
    let s = skip_ws(line, 0);
    assert(line@.subrange(0, line.len() as int) == line@);
    assert(trim_start(line@) == line@.skip(s as int));
    let ghost ts = trim_start(line@);
    let fence = starts_with_at(line, s, Ghost(three_backticks()), '`', '`', '`', ' ', ' ', ' ', ' ', 3)
        || starts_with_at(line, s, Ghost(three_tildes()), '~', '~', '~', ' ', ' ', ' ', ' ', 3);
    if !fence {
        return false;
    }
    let mut j = s;
    while j < line.len() && (line[j] == '`' || line[j] == '~')
        invariant
            s <= j <= line.len(),
            trim_ticks(line@.skip(s as int)) == trim_ticks(line@.skip(j as int)),
        decreases line.len() - j,
    {
        assert(line@.skip(j as int).drop_first() == line@.skip(j + 1));
        j += 1;
    }
    let t = trim_range(line, j, line.len());
    assert(line@.subrange(j as int, line.len() as int) == line@.skip(j as int));
    assert(t@.skip(0) == t@);
    assert(t@ == trim(trim_ticks(trim_start(line@))));
    let word = starts_with_at(&t, 0, Ghost(mermaid_word()), 'm', 'e', 'r', 'm', 'a', 'i', 'd', 7);
    word
}

/// The number of lines opening a Mermaid fence.
pub fn count_mermaid_fences(markdown: &str) -> (n: usize)
    ensures
        n == count_fences(split_lines(markdown@)),
{
    let md = chars_of(markdown);
    let lines = lines_of(&md);
    let ghost ls = crate::text::seqs_of(lines@);
    let mut n: usize = 0;
    let mut i: usize = 0;
    assert(ls.take(0) =~= Seq::<Seq<char>>::empty());
    while i < lines.len()
        invariant
            i <= lines.len(),
            ls == crate::text::seqs_of(lines@),
            n == count_fences(ls.take(i as int)),
            n <= i,
        decreases lines.len() - i,
    {
        assert(ls.take(i + 1).drop_last() == ls.take(i as int));
        assert(ls.take(i + 1).last() == lines@[i as int]@);
        if mermaid_line(&lines[i]) {
            n += 1;
        }
        i += 1;
    }
    assert(ls.take(lines.len() as int) == ls);
    n
}

/// Whether `s` takes more than `limit` bytes in UTF-8.
fn bytes_exceed(s: &Vec<char>, limit: usize) -> (r: bool)
    requires
        limit <= 0xFFFF_FFFF,
    ensures
        r == (utf8_bytes(s@) > limit),
{
    let mut total: u64 = 0;
    let mut i: usize = 0;
    while i < s.len()
        invariant
            i <= s.len(),
            limit <= 0xFFFF_FFFF,
            total == utf8_bytes(s@.take(i as int)),
            total <= limit,
        decreases s.len() - i,
    {
        assert(s@.take(i + 1).drop_last() == s@.take(i as int));
        total = total + char_utf8_len(s[i]) as u64;
        i += 1;
        if total > limit as u64 {
            proof {
                lemma_bytes_prefix(s@, i as int);
            }
            return true;
        }
    }
    assert(s@.take(s.len() as int) == s@);
    false
}

proof fn lemma_bytes_prefix(s: Seq<char>, i: int)
    requires
        0 <= i <= s.len(),
    ensures
        utf8_bytes(s.take(i)) <= utf8_bytes(s),
    decreases s.len() - i,
{
    if i < s.len() {
        lemma_bytes_prefix(s, i + 1);
        assert(s.take(i + 1).drop_last() == s.take(i));
    } else {
        assert(s.take(i) == s);
    }
}

// ---------------------------------------------------------------------
// pages
// ---------------------------------------------------------------------

pub const HEAD_0: &'static str = "<meta charset=\"UTF-8\">\n    <meta name=\"viewport\" content=\"width=device-width, initial-scale=1.0\">\n    <title>";
pub const HEAD_1: &'static str = "</title>\n    <style>\n";
pub const HEAD_2: &'static str = "\n";
pub const HEAD_3: &'static str = "\n";
pub const HEAD_4: &'static str = "\n    </style>";
pub const MD_0: &'static str = "<!DOCTYPE html>\n<html lang=\"en\" data-theme=\"";
pub const MD_1: &'static str = "\">\n<head>\n    ";
pub const MD_2: &'static str = "\n    <script src=\"moremaid://assets/vendor/markdown-it.min.js\"></script>\n    <script src=\"moremaid://assets/vendor/markdown-it-task-lists.min.js\"></script>\n</head>\n<body>\n    ";
pub const MD_3: &'static str = "<div class=\"container\"><div id=\"content\"></div></div>\n    <script>\nvar __MOREMAID__ = { mermaidVars: ";
pub const MD_4: &'static str = ", plain: ";
pub const MD_5: &'static str = " };\nvar rawMarkdown = ";
pub const MD_6: &'static str = ";\nvar documentTitle = ";
pub const MD_7: &'static str = ";\n";
pub const MD_8: &'static str = "\n    </script>\n</body>\n</html>";
pub const CODE_0: &'static str = "<!DOCTYPE html>\n<html lang=\"en\" data-theme=\"";
pub const CODE_1: &'static str = "\">\n<head>\n    ";
pub const CODE_2: &'static str = "\n</head>\n<body>\n    <div class=\"container\"><pre><code class=\"language-";
pub const CODE_3: &'static str = "\">";
pub const CODE_4: &'static str = "</code></pre></div>\n    <script>\nvar __MOREMAID__ = { mermaidVars: ";
pub const CODE_5: &'static str = ", plain: false };\nvar documentTitle = ";
pub const CODE_6: &'static str = ";\n";
pub const CODE_7: &'static str = "\n    </script>\n</body>\n</html>";
pub const DIAG_0: &'static str = "<!DOCTYPE html>\n<html lang=\"en\" data-theme=\"";
pub const DIAG_1: &'static str = "\">\n<head>\n    <meta charset=\"UTF-8\">\n    <title>Mermaid Diagram</title>\n    <script src=\"moremaid://assets/vendor/mermaid.min.js\"></script>\n    <style>\n    html, body {\n        margin: 0; height: 100%; overflow: hidden;\n        background: ";
pub const DIAG_2: &'static str = ";\n        font-family: ";
pub const DIAG_3: &'static str = ";\n    }\n    #viewport { position: absolute; inset: 0; overflow: hidden; cursor: grab; }\n    #viewport.panning { cursor: grabbing; }\n    #stage { position: absolute; top: 0; left: 0; transform-origin: 0 0; }\n    #stage svg { display: block; }\n    #toolbar {\n        position: fixed; top: 12px; right: 12px; z-index: 10;\n        display: flex; align-items: center; gap: 4px;\n        background: ";
pub const DIAG_4: &'static str = "; color: ";
pub const DIAG_5: &'static str = ";\n        border: 1px solid ";
pub const DIAG_6: &'static str = "; border-radius: 8px;\n        padding: 4px 6px; box-shadow: 0 2px 8px rgba(0,0,0,0.25);\n        -webkit-user-select: none; user-select: none;\n    }\n    #toolbar button {\n        background: transparent; color: inherit; border: none; border-radius: 5px;\n        width: 24px; height: 24px; font-size: 15px; line-height: 1; cursor: pointer;\n    }\n    #toolbar button:hover { background: ";
pub const DIAG_7: &'static str = "; }\n    #zoomSelect {\n        background: transparent; color: inherit;\n        border: 1px solid ";
pub const DIAG_8: &'static str = "; border-radius: 5px;\n        font-size: 12px; padding: 2px 4px; cursor: pointer;\n    }\n    #error {\n        color: ";
pub const DIAG_9: &'static str = "; padding: 20px; margin: 40px auto; max-width: 600px;\n        background: ";
pub const DIAG_10: &'static str = "; border-radius: 5px; font-size: 14px;\n        white-space: pre-wrap;\n    }\n    </style>\n</head>\n<body>\n    <div id=\"viewport\"><div id=\"stage\"></div></div>\n    <div id=\"toolbar\">\n        <button id=\"zoomOutBtn\" title=\"Zoom Out (-)\">&minus;</button>\n        <select id=\"zoomSelect\" title=\"Zoom\">\n            <option value=\"fit\">Fit</option>\n            <option id=\"zoomCustom\" hidden></option>\n            <option value=\"50\">50%</option>\n            <option value=\"75\">75%</option>\n            <option value=\"100\">100%</option>\n            <option value=\"125\">125%</option>\n            <option value=\"150\">150%</option>\n            <option value=\"200\">200%</option>\n            <option value=\"300\">300%</option>\n            <option value=\"400\">400%</option>\n        </select>\n        <button id=\"zoomInBtn\" title=\"Zoom In (+)\">+</button>\n    </div>\n    <script>\n    var graphDefinition = ";
pub const DIAG_11: &'static str = ";\n    mermaid.initialize({ startOnLoad: false, theme: 'base', themeVariables: ";
pub const DIAG_12: &'static str = " });\n\n    var viewport = document.getElementById('viewport');\n    var stage = document.getElementById('stage');\n    var zoomSelect = document.getElementById('zoomSelect');\n    var zoomCustom = document.getElementById('zoomCustom');\n    var MIN_SCALE = 0.1, MAX_SCALE = 8, STEP = 1.25;\n    var scale = 1, tx = 0, ty = 0;\n    var contentW = 0, contentH = 0;\n    var fitMode = true;\n\n    function applyTransform() {\n        stage.style.transform = 'translate(' + tx + 'px,' + ty + 'px) scale(' + scale + ')';\n        updateZoomSelect();\n    }\n\n    function updateZoomSelect() {\n        if (fitMode) { zoomCustom.hidden = true; zoomSelect.value = 'fit'; return; }\n        var pct = String(Math.round(scale * 100));\n        var presets = ['50','75','100','125','150','200','300','400'];\n        if (presets.indexOf(pct) >= 0) {\n            zoomCustom.hidden = true;\n        } else {\n            zoomCustom.hidden = false;\n            zoomCustom.value = pct;\n            zoomCustom.textContent = pct + '%';\n        }\n        zoomSelect.value = pct;\n    }\n\n    function setScale(newScale, cx, cy) {\n        newScale = Math.max(MIN_SCALE, Math.min(MAX_SCALE, newScale));\n        if (cx === undefined) { cx = viewport.clientWidth / 2; cy = viewport.clientHeight / 2; }\n        var k = newScale / scale;\n        tx = cx - (cx - tx) * k;\n        ty = cy - (cy - ty) * k;\n        scale = newScale;\n        fitMode = false;\n        applyTransform();\n    }\n\n    function fitToWindow() {\n        if (!contentW || !contentH) return;\n        var pad = 40;\n        var vw = Math.max(50, viewport.clientWidth - pad);\n        var vh = Math.max(50, viewport.clientHeight - pad);\n        scale = Math.max(MIN_SCALE, Math.min(MAX_SCALE, Math.min(vw / contentW, vh / contentH)));\n        tx = (viewport.clientWidth - contentW * scale) / 2;\n        ty = (viewport.clientHeight - contentH * scale) / 2;\n        fitMode = true;\n        applyTransform();\n    }\n\n    window.moremaidDiagramZoomIn = function() { setScale(scale * STEP); };\n    window.moremaidDiagramZoomOut = function() { setScale(scale / STEP); };\n    window.moremaidDiagramZoomReset = function() { setScale(1); };\n\n    document.getElementById('zoomInBtn').onclick = function() { moremaidDiagramZoomIn(); };\n    document.getElementById('zoomOutBtn').onclick = function() { moremaidDiagramZoomOut(); };\n    zoomSelect.addEventListener('change', function() {\n        if (zoomSelect.value === 'fit') fitToWindow();\n        else setScale(parseFloat(zoomSelect.value) / 100);\n        zoomSelect.blur();\n    });\n\n    var panning = false, lastX = 0, lastY = 0;\n    viewport.addEventListener('mousedown', function(e) {\n        if (e.button !== 0) return;\n        panning = true; lastX = e.clientX; lastY = e.clientY;\n        viewport.classList.add('panning');\n        e.preventDefault();\n    });\n    window.addEventListener('mousemove', function(e) {\n        if (!panning) return;\n        tx += e.clientX - lastX; ty += e.clientY - lastY;\n        lastX = e.clientX; lastY = e.clientY;\n        fitMode = false;\n        applyTransform();\n    });\n    window.addEventListener('mouseup', function() {\n        panning = false;\n        viewport.classList.remove('panning');\n    });\n\n    viewport.addEventListener('wheel', function(e) {\n        e.preventDefault();\n        if (e.ctrlKey) {\n            setScale(scale * Math.pow(1.01, -e.deltaY), e.clientX, e.clientY);\n        } else {\n            tx -= e.deltaX; ty -= e.deltaY;\n            fitMode = false;\n            applyTransform();\n        }\n    }, { passive: false });\n\n    document.addEventListener('keydown', function(e) {\n        if (e.target === zoomSelect) return;\n        if (e.key === '+' || e.key === '=') { moremaidDiagramZoomIn(); e.preventDefault(); }\n        else if (e.key === '-') { moremaidDiagramZoomOut(); e.preventDefault(); }\n        else if (e.key === '0') { fitToWindow(); e.preventDefault(); }\n        else if (e.key === '1') { moremaidDiagramZoomReset(); e.preventDefault(); }\n        else if (e.key === 'ArrowLeft') { tx += 40; fitMode = false; applyTransform(); e.preventDefault(); }\n        else if (e.key === 'ArrowRight') { tx -= 40; fitMode = false; applyTransform(); e.preventDefault(); }\n        else if (e.key === 'ArrowUp') { ty += 40; fitMode = false; applyTransform(); e.preventDefault(); }\n        else if (e.key === 'ArrowDown') { ty -= 40; fitMode = false; applyTransform(); e.preventDefault(); }\n    });\n\n    window.addEventListener('resize', function() { if (fitMode) fitToWindow(); });\n\n    (async function() {\n        try {\n            var result = await mermaid.render('diagram', graphDefinition);\n            stage.innerHTML = result.svg;\n            var svg = stage.querySelector('svg');\n            svg.style.maxWidth = 'none';\n            var vb = svg.viewBox && svg.viewBox.baseVal;\n            if (vb && vb.width && vb.height) {\n                contentW = vb.width; contentH = vb.height;\n                svg.setAttribute('width', vb.width);\n                svg.setAttribute('height', vb.height);\n            } else {\n                var r = svg.getBoundingClientRect();\n                contentW = r.width; contentH = r.height;\n            }\n            fitToWindow();\n        } catch (error) {\n            document.getElementById('toolbar').style.display = 'none';\n            var div = document.createElement('div');\n            div.id = 'error';\n            div.textContent = 'Error rendering diagram: ' + error.message;\n            document.body.appendChild(div);\n        }\n    })();\n    </script>\n</body>\n</html>";
pub const AI_ROW_0: &'static str = "<tr data-name=\"";
pub const AI_ROW_1: &'static str = "\" data-size=\"";
pub const AI_ROW_2: &'static str = "\" data-date=\"";
pub const AI_ROW_3: &'static str = "\"><td><a href=\"";
pub const AI_ROW_4: &'static str = "\">";
pub const AI_ROW_5: &'static str = "</a></td><td class=\"ai-size\">";
pub const AI_ROW_6: &'static str = "</td><td class=\"ai-date\">";
pub const AI_ROW_7: &'static str = "</td></tr>";
pub const AI_TABLE_0: &'static str = "<table class=\"auto-index\">\n<thead><tr><th class=\"ai-sortable\" data-sort=\"name\">Name</th><th class=\"ai-sortable\" data-sort=\"size\">Size</th><th class=\"ai-sortable\" data-sort=\"modified\">Modified</th></tr></thead>\n<tbody>";
pub const AI_TABLE_1: &'static str = "</tbody>\n</table>";
pub const AI_PAGE_0: &'static str = "<!DOCTYPE html>\n<html lang=\"en\" data-theme=\"";
pub const AI_PAGE_1: &'static str = "\">\n<head>\n    ";
pub const AI_PAGE_2: &'static str = "\n</head>\n<body>\n    <div class=\"container\">";
pub const AI_PAGE_3: &'static str = "<h1>";
pub const AI_PAGE_4: &'static str = "</h1>";
pub const AI_PAGE_5: &'static str = "</div>\n    <script>\nvar __MOREMAID__ = { mermaidVars: ";
pub const AI_PAGE_6: &'static str = ", plain: false };\nvar documentTitle = ";
pub const AI_PAGE_7: &'static str = ";\n";
pub const AI_PAGE_8: &'static str = "\n    </script>\n</body>\n</html>";
pub const AI_NAV_0: &'static str = "<div class=\"nav-bar\"><a href=\"";
pub const AI_NAV_1: &'static str = "\">&uarr; ..</a></div>";
pub const BANNER: &'static str = "<div class=\"moremaid-banner\">Large document &mdash; rendered without diagrams or syntax highlighting. Press Ctrl+Shift+R to render fully.</div>";
pub const AI_EMPTY: &'static str = "<p class=\"file-info\">No markdown files here.</p>";

/// `dark` or `light`, the page's `data-theme`.
pub open spec fn mode_text(p: Palette) -> Seq<char> {
    if p@.0 {
        "dark"@
    } else {
        "light"@
    }
}

fn mode_str(palette: &Palette) -> (r: &'static str)
    ensures
        r@ == mode_text(*palette),
{
    if palette.is_dark() {
        "dark"
    } else {
        "light"
    }
}

/// The `<head>` contents every page shares.
pub open spec fn head_spec(a: Assets, p: Palette, title: Seq<char>) -> Seq<char> {
    HEAD_0@ + spec_html_escape(title) + HEAD_1@ + css_block_spec(p, 16) + HEAD_2@ + a.base_css@
        + HEAD_3@ + a.prism_css@ + HEAD_4@
}

fn head_common(assets: &Assets, palette: &Palette, title: &str) -> (out: String)
    ensures
        out@ == head_spec(*assets, *palette, title@),
{
    let mut out = String::new();
    out.append(HEAD_0);
    out.append(html_escape(title).as_str());
    out.append(HEAD_1);
    out.append(palette.css_block(16).as_str());
    out.append(HEAD_2);
    out.append(assets.base_css.as_str());
    out.append(HEAD_3);
    out.append(assets.prism_css.as_str());
    out.append(HEAD_4);
    out
}

/// Whether a document renders plain: not forced full, and over the size or
/// the diagram limit.
pub open spec fn renders_plain(md: Seq<char>, force_full: bool) -> bool {
    !force_full && (utf8_bytes(md) > PLAIN_SIZE_LIMIT || count_fences(split_lines(md))
        > PLAIN_DIAGRAM_LIMIT)
}

pub open spec fn banner_text(plain: bool) -> Seq<char> {
    if plain {
        BANNER@
    } else {
        Seq::empty()
    }
}

/// The page for a markdown document.
pub open spec fn markdown_page_spec(
    a: Assets,
    p: Palette,
    title: Seq<char>,
    md: Seq<char>,
    force_full: bool,
) -> Seq<char> {
    let plain = renders_plain(md, force_full);
    MD_0@ + mode_text(p) + MD_1@ + head_spec(a, p, title) + MD_2@ + banner_text(plain) + MD_3@
        + mermaid_vars_spec(p) + MD_4@ + bool_text(plain) + MD_5@ + spec_json_str(md) + MD_6@
        + spec_json_str(title) + MD_7@ + a.page_js@ + MD_8@
}

/// The page for a markdown document: rendered by the page script, or plain
/// behind a banner when it is over the size or diagram limit and not forced.
pub fn markdown_page(
    assets: &Assets,
    palette: &Palette,
    title: &str,
    markdown: &str,
    force_full: bool,
) -> (out: String)
    ensures
        out@ == markdown_page_spec(*assets, *palette, title@, markdown@, force_full),
{
    let md = chars_of(markdown);
    let plain = !force_full && (bytes_exceed(&md, PLAIN_SIZE_LIMIT) || count_mermaid_fences(markdown)
        > PLAIN_DIAGRAM_LIMIT);
    let mut out = String::new();
    out.append(MD_0);
    out.append(mode_str(palette));
    out.append(MD_1);
    out.append(head_common(assets, palette, title).as_str());
    out.append(MD_2);
    if plain {
        out.append(BANNER);
    }
    out.append(MD_3);
    out.append(palette.mermaid_vars_json().as_str());
    out.append(MD_4);
    out.append(if plain { "true" } else { "false" });
    out.append(MD_5);
    out.append(json_str(markdown).as_str());
    out.append(MD_6);
    out.append(json_str(title).as_str());
    out.append(MD_7);
    out.append(assets.page_js.as_str());
    out.append(MD_8);
    out
}

/// The page for any other text file: escaped, highlighted by Prism.
pub open spec fn code_page_spec(a: Assets, p: Palette, file_name: Seq<char>, content: Seq<char>) -> Seq<char> {
    CODE_0@ + mode_text(p) + CODE_1@ + head_spec(a, p, file_name) + CODE_2@
        + spec_language_for_file(file_name) + CODE_3@ + spec_html_escape(content) + CODE_4@
        + mermaid_vars_spec(p) + CODE_5@ + spec_json_str(file_name) + CODE_6@ + a.page_js@
        + CODE_7@
}

pub fn code_page(assets: &Assets, palette: &Palette, file_name: &str, content: &str) -> (out: String)
    ensures
        out@ == code_page_spec(*assets, *palette, file_name@, content@),
{
    let language = language_for_file(file_name);
    let mut out = String::new();
    out.append(CODE_0);
    out.append(mode_str(palette));
    out.append(CODE_1);
    out.append(head_common(assets, palette, file_name).as_str());
    out.append(CODE_2);
    out.append(language);
    out.append(CODE_3);
    out.append(html_escape(content).as_str());
    out.append(CODE_4);
    out.append(palette.mermaid_vars_json().as_str());
    out.append(CODE_5);
    out.append(json_str(file_name).as_str());
    out.append(CODE_6);
    out.append(assets.page_js.as_str());
    out.append(CODE_7);
    out
}

/// The standalone diagram viewer (zoom, pan), fed by the palette.
pub open spec fn diagram_page_spec(p: Palette, definition: Seq<char>) -> Seq<char> {
    DIAG_0@ + mode_text(p) + DIAG_1@ + palette_get(p, "background"@) + DIAG_2@ + FONT_BODY@
        + DIAG_3@ + palette_raised(p) + DIAG_4@ + palette_get(p, "foreground"@) + DIAG_5@
        + palette_get(p, "muted"@) + DIAG_6@ + palette_get(p, "muted"@) + DIAG_7@
        + palette_get(p, "muted"@) + DIAG_8@ + palette_get(p, "red"@) + DIAG_9@
        + palette_raised(p) + DIAG_10@ + spec_json_str(definition) + DIAG_11@
        + mermaid_vars_spec(p) + DIAG_12@
}

pub fn diagram_page(palette: &Palette, definition: &str) -> (out: String)
    ensures
        out@ == diagram_page_spec(*palette, definition@),
{
    let raised = if palette.is_dark() {
        palette.get("lighter_background")
    } else {
        palette.get("darker_background")
    };
    let mut out = String::new();
    out.append(DIAG_0);
    out.append(mode_str(palette));
    out.append(DIAG_1);
    out.append(palette.get("background"));
    out.append(DIAG_2);
    out.append(FONT_BODY);
    out.append(DIAG_3);
    out.append(raised);
    out.append(DIAG_4);
    out.append(palette.get("foreground"));
    out.append(DIAG_5);
    out.append(palette.get("muted"));
    out.append(DIAG_6);
    out.append(palette.get("muted"));
    out.append(DIAG_7);
    out.append(palette.get("muted"));
    out.append(DIAG_8);
    out.append(palette.get("red"));
    out.append(DIAG_9);
    out.append(raised);
    out.append(DIAG_10);
    out.append(json_str(definition).as_str());
    out.append(DIAG_11);
    out.append(palette.mermaid_vars_json().as_str());
    out.append(DIAG_12);
    out
}

// ---------------------------------------------------------------------
// the directory listing
// ---------------------------------------------------------------------

/// One row of the directory listing.
pub struct IndexEntry {
    pub name: String,
    pub is_dir: bool,
    pub size: u64,
    pub modified_epoch: i64,
    pub href: String,
}

/// `(name, is_dir, size, modified_epoch, href)`.
pub type EntryView = (Seq<char>, bool, nat, int, Seq<char>);

impl View for IndexEntry {
    type V = EntryView;

    open spec fn view(&self) -> EntryView {
        (self.name@, self.is_dir, self.size as nat, self.modified_epoch as int, self.href@)
    }
}

/// `{}` of a signed integer.
pub open spec fn signed_decimal(x: int) -> Seq<char> {
    if x < 0 {
        seq!['-'] + decimal((-x) as nat)
    } else {
        decimal(x as nat)
    }
}

fn signed_decimal_string(x: i64) -> (r: String)
    ensures
        r@ == signed_decimal(x as int),
{
    if x < 0 {
        let m: u64 = if x == i64::MIN {
            9223372036854775808
        } else {
            (-x) as u64
        };
        let mut v: Vec<char> = Vec::new();
        v.push('-');
        crate::text::push_decimal(&mut v, m);
        string_of(&v)
    } else {
        decimal_string(x as u64)
    }
}

/// The name shown: directories get a trailing `/`.
pub open spec fn display_name(e: EntryView) -> Seq<char> {
    if e.1 {
        e.0.push('/')
    } else {
        e.0
    }
}

/// One table row (directories sort under Size as 0 and show no size);
/// `date` is the modification time as the reader's clock shows it.
pub open spec fn row_spec(e: EntryView, date: Seq<char>) -> Seq<char> {
    AI_ROW_0@ + spec_html_escape(e.0) + AI_ROW_1@ + decimal(if e.1 { 0 } else { e.2 })
        + AI_ROW_2@ + signed_decimal(e.3) + AI_ROW_3@ + spec_html_escape(e.4) + AI_ROW_4@
        + spec_html_escape(display_name(e)) + AI_ROW_5@ + (if e.1 {
        Seq::empty()
    } else {
        human_size_spec(e.2)
    }) + AI_ROW_6@ + date + AI_ROW_7@
}

pub open spec fn index_rows(es: Seq<EntryView>, cs: Seq<Seq<char>>) -> Seq<char>
    decreases es.len(),
{
    if es.len() == 0 {
        Seq::empty()
    } else {
        index_rows(es.drop_last(), cs) + row_spec(es.last(), cs[es.len() - 1])
    }
}

/// The listing: a table of the entries, or a message when there are none.
pub open spec fn index_body(es: Seq<EntryView>, cs: Seq<Seq<char>>) -> Seq<char> {
    if es.len() == 0 {
        AI_EMPTY@
    } else {
        AI_TABLE_0@ + index_rows(es, cs) + AI_TABLE_1@
    }
}

/// The link to the parent directory, outside the sortable table.
pub open spec fn nav_spec(parent: Option<Seq<char>>) -> Seq<char> {
    match parent {
        Some(href) => AI_NAV_0@ + spec_html_escape(href) + AI_NAV_1@,
        None => Seq::empty(),
    }
}

pub open spec fn entries_view(v: Seq<IndexEntry>) -> Seq<EntryView> {
    v.map_values(|e: IndexEntry| e@)
}

pub open spec fn texts_view(v: Seq<String>) -> Seq<Seq<char>> {
    v.map_values(|t: String| t@)
}

pub open spec fn opt_view(o: Option<&str>) -> Option<Seq<char>> {
    match o {
        Some(h) => Some(h@),
        None => None,
    }
}

/// The directory listing page.
pub open spec fn auto_index_page_spec(
    a: Assets,
    p: Palette,
    title: Seq<char>,
    es: Seq<EntryView>,
    cs: Seq<Seq<char>>,
    parent: Option<Seq<char>>,
) -> Seq<char> {
    AI_PAGE_0@ + mode_text(p) + AI_PAGE_1@ + head_spec(a, p, title) + AI_PAGE_2@
        + nav_spec(parent) + AI_PAGE_3@ + spec_html_escape(title) + AI_PAGE_4@
        + index_body(es, cs) + AI_PAGE_5@ + mermaid_vars_spec(p) + AI_PAGE_6@
        + spec_json_str(title) + AI_PAGE_7@ + a.page_js@ + AI_PAGE_8@
}

fn index_row(e: &IndexEntry, date: &String) -> (out: String)
    ensures
        out@ == row_spec(e@, date@),
{
    let mut display = e.name.clone();
    if e.is_dir {
        display.push('/');
    }
    let mut out = String::new();
    out.append(AI_ROW_0);
    out.append(html_escape(e.name.as_str()).as_str());
    out.append(AI_ROW_1);
    out.append(decimal_string(if e.is_dir { 0 } else { e.size }).as_str());
    out.append(AI_ROW_2);
    out.append(signed_decimal_string(e.modified_epoch).as_str());
    out.append(AI_ROW_3);
    out.append(html_escape(e.href.as_str()).as_str());
    out.append(AI_ROW_4);
    out.append(html_escape(display.as_str()).as_str());
    out.append(AI_ROW_5);
    if !e.is_dir {
        out.append(human_size(e.size).as_str());
    }
    out.append(AI_ROW_6);
    out.append(date.as_str());
    out.append(AI_ROW_7);
    out
}

fn index_body_exec(entries: &Vec<IndexEntry>, dates: &Vec<String>) -> (body: String)
    requires
        dates.len() == entries.len(),
    ensures
        body@ == index_body(entries_view(entries@), texts_view(dates@)),
{
    let ghost es = entries_view(entries@);
    let ghost cs = texts_view(dates@);
    if entries.len() == 0 {
        AI_EMPTY.to_owned()
    } else {
        let mut rows = String::new();
        let mut i: usize = 0;
        assert(es.take(0) =~= Seq::<EntryView>::empty());
        while i < entries.len()
            invariant
                i <= entries.len() == dates.len(),
                es == entries_view(entries@),
                cs == texts_view(dates@),
                rows@ == index_rows(es.take(i as int), cs),
            decreases entries.len() - i,
        {
            assert(es.take(i + 1).drop_last() == es.take(i as int));
            let row = index_row(&entries[i], &dates[i]);
            rows.append(row.as_str());
            i += 1;
        }
        assert(es.take(entries.len() as int) == es);
        let mut out = String::new();
        out.append(AI_TABLE_0);
        out.append(rows.as_str());
        out.append(AI_TABLE_1);
        out
    }
}

fn nav_exec(parent_href: Option<&str>) -> (nav: String)
    ensures
        nav@ == nav_spec(opt_view(parent_href)),
{
    match parent_href {
        Some(href) => {
            let mut out = String::new();
            out.append(AI_NAV_0);
            out.append(html_escape(href).as_str());
            out.append(AI_NAV_1);
            out
        },
        None => String::new(),
    }
}

/// The listing shown when a directory is opened; table markup matches what
/// the page script's sorting expects. `dates[i]` is the modification time
/// of `entries[i]` as the reader's local clock shows it.
pub fn auto_index_page(
    assets: &Assets,
    palette: &Palette,
    title: &str,
    entries: &Vec<IndexEntry>,
    dates: &Vec<String>,
    parent_href: Option<&str>,
) -> (out: String)
    requires
        dates.len() == entries.len(),
    ensures
        out@ == auto_index_page_spec(
            *assets,
            *palette,
            title@,
            entries_view(entries@),
            texts_view(dates@),
            opt_view(parent_href),
        ),
{
    let body = index_body_exec(entries, dates);
    let nav = nav_exec(parent_href);
    let mut out = String::new();
    out.append(AI_PAGE_0);
    out.append(mode_str(palette));
    out.append(AI_PAGE_1);
    out.append(head_common(assets, palette, title).as_str());
    out.append(AI_PAGE_2);
    out.append(nav.as_str());
    out.append(AI_PAGE_3);
    out.append(html_escape(title).as_str());
    out.append(AI_PAGE_4);
    out.append(body.as_str());
    out.append(AI_PAGE_5);
    out.append(palette.mermaid_vars_json().as_str());
    out.append(AI_PAGE_6);
    out.append(json_str(title).as_str());
    out.append(AI_PAGE_7);
    out.append(assets.page_js.as_str());
    out.append(AI_PAGE_8);
    out
}

// ---------------------------------------------------------------------
// laws of escaping
// ---------------------------------------------------------------------

/// A character that may stand in a `<script>` block's JSON without ending
/// the block or the line: no `<`, no control character, no U+2028/U+2029.
pub open spec fn script_safe(c: char) -> bool {
    c != '<' && (c as int) >= 0x20 && c != '\u{2028}' && c != '\u{2029}'
}

pub open spec fn all_script_safe(t: Seq<char>) -> bool {
    forall|k: int| 0 <= k < t.len() ==> script_safe(#[trigger] t[k])
}

/// A character that cannot open a tag or end an attribute value.
pub open spec fn markup_safe(c: char) -> bool {
    c != '<' && c != '>' && c != '"' && c != '\''
}

pub open spec fn all_markup_safe(t: Seq<char>) -> bool {
    forall|k: int| 0 <= k < t.len() ==> markup_safe(#[trigger] t[k])
}

proof fn lemma_concat_script_safe(a: Seq<char>, b: Seq<char>)
    requires
        all_script_safe(a),
        all_script_safe(b),
    ensures
        all_script_safe(a + b),
{
    assert forall|k: int| 0 <= k < (a + b).len() implies script_safe(#[trigger] (a + b)[k]) by {
        if k < a.len() {
            assert((a + b)[k] == a[k]);
        } else {
            assert((a + b)[k] == b[k - a.len()]);
        }
    }
}

proof fn lemma_concat_markup_safe(a: Seq<char>, b: Seq<char>)
    requires
        all_markup_safe(a),
        all_markup_safe(b),
    ensures
        all_markup_safe(a + b),
{
    assert forall|k: int| 0 <= k < (a + b).len() implies markup_safe(#[trigger] (a + b)[k]) by {
        if k < a.len() {
            assert((a + b)[k] == a[k]);
        } else {
            assert((a + b)[k] == b[k - a.len()]);
        }
    }
}

proof fn lemma_json_body_safe(s: Seq<char>)
    ensures
        all_script_safe(json_body(s)),
    decreases s.len(),
{
    if s.len() > 0 {
        lemma_json_body_safe(s.drop_last());
        let c = s.last();
        let e = json_escape_char(c);
        if (c as int) < 0x20 && c != '\n' && c != '\r' && c != '\t' {
            let h = hex2(c as int);
            assert(all_script_safe(h));
            lemma_concat_script_safe(seq!['\\', 'u', '0', '0'], h);
        }
        assert(all_script_safe(e));
        lemma_concat_script_safe(json_body(s.drop_last()), e);
    }
}

/// `json_str` output is script-safe: no `<` (so no `</script>`), no raw
/// control character and no U+2028/U+2029 anywhere in it.
pub proof fn lemma_json_str_script_safe(s: Seq<char>)
    ensures
        all_script_safe(spec_json_str(s)),
        spec_json_str(s).len() >= 2,
        spec_json_str(s)[0] == '"',
        spec_json_str(s).last() == '"',
{
    lemma_json_body_safe(s);
    lemma_concat_script_safe(seq!['"'], json_body(s));
    lemma_concat_script_safe(seq!['"'] + json_body(s), seq!['"']);
}

/// `html_escape` output holds no `<`, `>`, `"` or `'`: escaped text can
/// neither open a tag nor end a quoted attribute.
pub proof fn lemma_html_escape_safe(s: Seq<char>)
    ensures
        all_markup_safe(spec_html_escape(s)),
    decreases s.len(),
{
    if s.len() > 0 {
        lemma_html_escape_safe(s.drop_last());
        assert(all_markup_safe(html_escape_char(s.last())));
        lemma_concat_markup_safe(spec_html_escape(s.drop_last()), html_escape_char(s.last()));
    }
}

/// Text without markup characters or `&` comes out of `html_escape`
/// unchanged.
pub proof fn lemma_html_escape_plain(s: Seq<char>)
    requires
        all_markup_safe(s),
        !s.contains('&'),
    ensures
        spec_html_escape(s) == s,
    decreases s.len(),
{
    if s.len() > 0 {
        assert(all_markup_safe(s.drop_last()));
        assert(!s.drop_last().contains('&')) by {
            if s.drop_last().contains('&') {
                let k = choose|k: int| 0 <= k < s.drop_last().len() && s.drop_last()[k] == '&';
                assert(s[k] == '&');
            }
        }
        assert(markup_safe(s[s.len() - 1]));
        assert(s.last() != '&') by {
            if s.last() == '&' {
                assert(s[s.len() - 1] == '&');
            }
        }
        lemma_html_escape_plain(s.drop_last());
        assert(s.drop_last().push(s.last()) =~= s);
    }
}

} // verus!

verus! {

// ---------------------------------------------------------------------
// sizes
// ---------------------------------------------------------------------

/// The largest integer below 2^53: every integer up to it is an exact
/// double.
pub const EXACT_LIMIT: u128 = 0x20_0000_0000_0000;

/// `n / d` rounded to the nearest integer, ties to the even one.
pub open spec fn round_half_even(n: nat, d: nat) -> nat {
    let q = n / d;
    let r = n % d;
    if 2 * r > d || (2 * r == d && q % 2 == 1) {
        q + 1
    } else {
        q
    }
}

/// The power of two at which `n` is cut to 53 significant bits.
pub open spec fn double_scale(n: nat) -> nat
    decreases n,
{
    if n < EXACT_LIMIT {
        1
    } else {
        2 * double_scale(n / 2)
    }
}

/// The value of `n as f64`: `n` rounded to 53 significant bits, ties to
/// even.
pub open spec fn double_value(n: nat) -> nat {
    round_half_even(n, double_scale(n)) * double_scale(n)
}

/// `t` tenths written with one decimal place.
pub open spec fn tenths_text(t: nat) -> Seq<char> {
    decimal(t / 10) + seq!['.', crate::text::digit_char((t % 10) as int)]
}

/// A byte count as the listing shows it: bytes below 1 KiB, else KiB or
/// MiB with one decimal place, the decimal rounded to nearest with ties to
/// even (what `{:.1}` prints for the quotient as an `f64`).
pub open spec fn human_size_spec(bytes: nat) -> Seq<char> {
    if bytes >= 1048576 {
        tenths_text(round_half_even(double_value(bytes) * 10, 1048576)) + " MB"@
    } else if bytes >= 1024 {
        tenths_text(round_half_even(bytes * 10, 1024)) + " KB"@
    } else {
        decimal(bytes) + " B"@
    }
}

fn round_half_even_exec(n: u128, d: u128) -> (r: u128)
    requires
        d > 0,
        n < u128::MAX / 2,
        d < u128::MAX / 2,
    ensures
        r == round_half_even(n as nat, d as nat),
{
    let q = n / d;
    let r = n % d;
    if 2 * r > d || (2 * r == d && q % 2 == 1) {
        q + 1
    } else {
        q
    }
}

proof fn lemma_double_scale_bound(n: nat)
    requires
        n < 0x1_0000_0000_0000_0000,
    ensures
        1 <= double_scale(n) <= 2048,
{
    lemma_double_scale_pos(n);
    if n >= EXACT_LIMIT {
        lemma_double_scale_at_most(n);
    }
}

proof fn lemma_double_scale_pos(n: nat)
    ensures
        double_scale(n) >= 1,
    decreases n,
{
    if n >= EXACT_LIMIT {
        lemma_double_scale_pos(n / 2);
    }
}

proof fn lemma_double_scale_at_most(n: nat)
    requires
        EXACT_LIMIT <= n < 0x1_0000_0000_0000_0000,
    ensures
        double_scale(n) <= 2048,
    decreases n,
{
    reveal_with_fuel(double_scale, 13);
    let n1 = n / 2;
    let n2 = n1 / 2;
    let n3 = n2 / 2;
    let n4 = n3 / 2;
    let n5 = n4 / 2;
    let n6 = n5 / 2;
    let n7 = n6 / 2;
    let n8 = n7 / 2;
    let n9 = n8 / 2;
    let n10 = n9 / 2;
    let n11 = n10 / 2;
    assert(n11 < EXACT_LIMIT);
}

/// The scale at which `n` is cut to a double (see `double_scale`).
fn double_scale_exec(n: u64) -> (p: u128)
    ensures
        p == double_scale(n as nat),
        1 <= p <= 2048,
{
    proof {
        lemma_double_scale_bound(n as nat);
    }
    let mut m: u128 = n as u128;
    let mut p: u128 = 1;
    while m >= EXACT_LIMIT
        invariant
            m <= n,
            1 <= p,
            double_scale(n as nat) == p * double_scale(m as nat),
            double_scale(n as nat) <= 2048,
        decreases m,
    {
        let ghost s = double_scale((m / 2) as nat);
        assert(double_scale(m as nat) == 2 * s);
        assert(p * (2 * s) == (2 * p) * s) by (nonlinear_arith);
        assert(s >= 1) by {
            lemma_double_scale_bound((m / 2) as nat);
        }
        assert(2 * p <= 2048) by (nonlinear_arith)
            requires
                p * (2 * s) <= 2048,
                s >= 1,
                p >= 1,
        ;
        m = m / 2;
        p = p * 2;
    }
    assert(double_scale(m as nat) == 1);
    assert(p * double_scale(m as nat) == p) by (nonlinear_arith)
        requires
            double_scale(m as nat) == 1,
    ;
    p
}

fn push_tenths(out: &mut Vec<char>, t: u64)
    ensures
        final(out)@ == old(out)@ + tenths_text(t as nat),
{
    crate::text::push_decimal(out, t / 10);
    out.push('.');
    out.push(crate::text::digit(t % 10));
}

/// A byte count for the listing (see `human_size_spec`).
pub fn human_size(bytes: u64) -> (r: String)
    ensures
        r@ == human_size_spec(bytes as nat),
{
    let mut out: Vec<char> = Vec::new();
    if bytes >= 1048576 {
        let p = double_scale_exec(bytes);
        let n = bytes as u128;
        let q = round_half_even_exec(n, p);
        assert(q <= n / p + 1);
        assert(q * p <= n + p) by (nonlinear_arith)
            requires
                q <= n / p + 1,
                p >= 1,
        ;
        let f = q * p;
        assert(f * 10 < u128::MAX / 2);
        let t = round_half_even_exec(f * 10, 1048576);
        assert(t <= 0xFFFF_FFFF_FFFF_FFFF);
        push_tenths(&mut out, t as u64);
        crate::text::push_str_chars(&mut out, " MB");
    } else if bytes >= 1024 {
        let t = round_half_even_exec(bytes as u128 * 10, 1024);
        push_tenths(&mut out, t as u64);
        crate::text::push_str_chars(&mut out, " KB");
    } else {
        crate::text::push_decimal(&mut out, bytes);
        crate::text::push_str_chars(&mut out, " B");
    }
    string_of(&out)
}

// ---------------------------------------------------------------------
// laws of fence counting
// ---------------------------------------------------------------------

proof fn lemma_split_lines_join(a: Seq<char>, b: Seq<char>)
    ensures
        split_lines(a + seq!['\n'] + b) == split_lines(a) + split_lines(b),
    decreases b.len(),
{
    let x = a + seq!['\n'] + b;
    if b.len() == 0 {
        assert(x == a.push('\n'));
        assert(a.push('\n').drop_last() == a);
        assert(split_lines(a) + split_lines(b) =~= split_lines(a).push(Seq::<char>::empty()));
    } else {
        assert(x.drop_last() == a + seq!['\n'] + b.drop_last());
        assert(x.last() == b.last());
        lemma_split_lines_join(a, b.drop_last());
        crate::headings::lemma_split_lines_nonempty(b.drop_last());
        let sa = split_lines(a);
        let sb = split_lines(b.drop_last());
        if b.last() == '\n' {
            assert((sa + sb).push(Seq::<char>::empty()) =~= sa + sb.push(Seq::<char>::empty()));
        } else {
            let whole = sa + sb;
            assert(whole.update(whole.len() - 1, whole.last().push(b.last())) =~= sa + sb.update(
                sb.len() - 1,
                sb.last().push(b.last()),
            ));
        }
    }
}

proof fn lemma_count_fences_concat(x: Seq<Seq<char>>, y: Seq<Seq<char>>)
    ensures
        count_fences(x + y) == count_fences(x) + count_fences(y),
    decreases y.len(),
{
    if y.len() == 0 {
        assert(x + y == x);
    } else {
        assert((x + y).drop_last() == x + y.drop_last());
        assert((x + y).last() == y.last());
        lemma_count_fences_concat(x, y.drop_last());
    }
}

/// Mermaid fences add up over a newline join: the fences of `a`, a newline
/// and `b` are those of `a` and those of `b`.
pub proof fn lemma_mermaid_fences_add(a: Seq<char>, b: Seq<char>)
    ensures
        count_fences(split_lines(a + seq!['\n'] + b)) == count_fences(split_lines(a))
            + count_fences(split_lines(b)),
{
    lemma_split_lines_join(a, b);
    lemma_count_fences_concat(split_lines(a), split_lines(b));
}

// ---------------------------------------------------------------------
// a JSON string literal reads back as its text
// ---------------------------------------------------------------------

/// The character a one-letter JSON escape (`\"`, `\\`, `\/`, `\b`, `\f`,
/// `\n`, `\r`, `\t`) stands for.
pub open spec fn json_simple_escape(e: char) -> Option<char> {
    if e == '"' {
        Some('"')
    } else if e == '\\' {
        Some('\\')
    } else if e == '/' {
        Some('/')
    } else if e == 'b' {
        Some('\u{8}')
    } else if e == 'f' {
        Some('\u{c}')
    } else if e == 'n' {
        Some('\n')
    } else if e == 'r' {
        Some('\r')
    } else if e == 't' {
        Some('\t')
    } else {
        None
    }
}

/// The value of the four hex digits `t[i..i + 4]`.
pub open spec fn hex4(t: Seq<char>, i: int) -> Option<int> {
    match (
        crate::headings::digit_value(t[i], 16),
        crate::headings::digit_value(t[i + 1], 16),
        crate::headings::digit_value(t[i + 2], 16),
        crate::headings::digit_value(t[i + 3], 16),
    ) {
        (Some(a), Some(b), Some(c), Some(d)) => Some(a * 4096 + b * 256 + c * 16 + d),
        _ => None,
    }
}

/// What a JSON decoder reads from the text between the quotes of a string
/// literal (RFC 8259, section 7): `None` where it is no valid string body.
/// A `\u` escape of a lone UTF-16 surrogate half reads as `None` here
/// (pairs of them are not read).
pub open spec fn json_unescape(t: Seq<char>) -> Option<Seq<char>>
    decreases t.len(),
{
    if t.len() == 0 {
        Some(Seq::empty())
    } else if t[0] == '\\' {
        if t.len() >= 2 && json_simple_escape(t[1]) is Some {
            match json_unescape(t.skip(2)) {
                Some(r) => Some(seq![json_simple_escape(t[1])->0] + r),
                None => None,
            }
        } else if t.len() >= 6 && t[1] == 'u' {
            match hex4(t, 2) {
                Some(v) => if crate::text::is_scalar_value(v) {
                    match json_unescape(t.skip(6)) {
                        Some(r) => Some(seq![v as char] + r),
                        None => None,
                    }
                } else {
                    None
                },
                None => None,
            }
        } else {
            None
        }
    } else if t[0] == '"' || (t[0] as int) < 0x20 {
        None
    } else {
        match json_unescape(t.skip(1)) {
            Some(r) => Some(seq![t[0]] + r),
            None => None,
        }
    }
}

proof fn lemma_hex_digit(d: int)
    requires
        0 <= d < 16,
    ensures
        crate::headings::digit_value(crate::text::digit_char(d), 16) == Some(d),
{
}

proof fn lemma_json_body_concat(a: Seq<char>, b: Seq<char>)
    ensures
        json_body(a + b) == json_body(a) + json_body(b),
    decreases b.len(),
{
    if b.len() == 0 {
        assert(a + b == a);
        assert(json_body(a) + Seq::<char>::empty() =~= json_body(a));
    } else {
        assert((a + b).drop_last() == a + b.drop_last());
        assert((a + b).last() == b.last());
        lemma_json_body_concat(a, b.drop_last());
        assert(json_body(a) + json_body(b.drop_last()) + json_escape_char(b.last()) =~= json_body(a)
            + (json_body(b.drop_last()) + json_escape_char(b.last())));
    }
}

proof fn lemma_unescape_escaped_char(c: char, r: Seq<char>)
    ensures
        json_unescape(json_escape_char(c) + r) == match json_unescape(r) {
            Some(x) => Some(seq![c] + x),
            None => None::<Seq<char>>,
        },
{
    let e = json_escape_char(c);
    let t = e + r;
    assert(t.skip(e.len() as int) =~= r);
    if c == '"' || c == '\\' || c == '\n' || c == '\r' || c == '\t' {
        assert(t[0] == '\\');
        assert(json_simple_escape(t[1]) == Some(c));
    } else if c == '<' || c == '\u{2028}' || c == '\u{2029}' || (c as int) < 0x20 {
        assert(t[0] == '\\' && t[1] == 'u');
        if c == '<' {
            assert(hex4(t, 2) == Some(0x3cint));
        } else if c == '\u{2028}' {
            assert(hex4(t, 2) == Some(0x2028int));
        } else if c == '\u{2029}' {
            assert(hex4(t, 2) == Some(0x2029int));
        } else {
            let v = c as int;
            lemma_hex_digit(v / 16);
            lemma_hex_digit(v % 16);
            assert(t[4] == crate::text::digit_char(v / 16));
            assert(t[5] == crate::text::digit_char(v % 16));
            assert(hex4(t, 2) == Some(v));
        }
    } else {
        assert(e =~= seq![c]);
        assert(t[0] == c);
    }
}

proof fn lemma_unescape_body(s: Seq<char>)
    ensures
        json_unescape(json_body(s)) == Some(s),
    decreases s.len(),
{
    if s.len() > 0 {
        let t = s.drop_first();
        assert(s == seq![s[0]] + t);
        lemma_json_body_concat(seq![s[0]], t);
        let one = seq![s[0]];
        assert(one.drop_last() =~= Seq::<char>::empty());
        assert(one.last() == s[0]);
        assert(json_body(one.drop_last()) =~= Seq::<char>::empty());
        assert(json_body(one) =~= json_escape_char(s[0]));
        lemma_unescape_escaped_char(s[0], json_body(t));
        lemma_unescape_body(t);
    }
}

/// `json_str` writes a JSON string literal of its text: quotes at both
/// ends, and what a JSON decoder reads between them is the text itself.
pub proof fn lemma_json_str_decodes(s: Seq<char>)
    ensures
        spec_json_str(s)[0] == '"',
        spec_json_str(s).last() == '"',
        json_unescape(spec_json_str(s).subrange(1, spec_json_str(s).len() - 1)) == Some(s),
{
    let r = spec_json_str(s);
    assert(r.subrange(1, r.len() - 1) =~= json_body(s));
    lemma_unescape_body(s);
}

} // verus!
