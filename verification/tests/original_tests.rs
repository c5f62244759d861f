use moremaid::config::{Config, FontConfig, DEFAULT_BODY};
use moremaid::headings::{extract_headings, extract_headings_html, slugify};
use moremaid::html::{count_mermaid_fences, html_escape, json_str};
use moremaid::langmap::{is_html, is_markdown, language_for_file};
use moremaid::search::fuzzy_rank;
use moremaid::theme::{palette_key_str, with_alpha, Palette, PALETTE_LEN};

/// A `Config` as serde fills it from TOML: `[font]` keys present replace
/// the defaults, absent ones keep them.
fn config_from_toml(text: &str) -> Config {
    let table: toml::Table = text.parse().unwrap();
    let mut font = FontConfig::default();
    if let Some(f) = table.get("font").and_then(|v| v.as_table()) {
        if let Some(b) = f.get("body").and_then(|v| v.as_str()) {
            font.body = b.to_string();
        }
        if let Some(m) = f.get("mono").and_then(|v| v.as_str()) {
            font.mono = m.to_string();
        }
        if let Some(s) = f.get("size").and_then(|v| v.as_integer()) {
            font.size = u32::try_from(s).unwrap();
        }
    }
    Config { font }
}

#[test]
fn partial_config_keeps_other_defaults() {
    let config = config_from_toml("[font]\nsize = 18");
    let fonts = config.fonts();
    assert_eq!(fonts.size, 18);
    assert_eq!(fonts.body_family, DEFAULT_BODY);
    assert_eq!(fonts.mono_stack, "monospace");
}

#[test]
fn named_mono_gets_generic_fallback() {
    let config = config_from_toml("[font]\nmono = \"JetBrains Mono\"\nbody = \"Inter\"");
    let fonts = config.fonts();
    assert_eq!(fonts.mono_stack, "\"JetBrains Mono\", monospace");
    assert_eq!(fonts.body_stack, "\"Inter\", \"Noto Sans\", sans-serif");
    assert_eq!(fonts.body_family, "Inter");
}

#[test]
fn size_clamped() {
    let config = config_from_toml("[font]\nsize = 500");
    assert_eq!(config.fonts().size, 64);
}

#[test]
fn slugify_matches_js_semantics() {
    assert_eq!(slugify("Hello World"), "hello-world");
    assert_eq!(slugify("a -- b"), "a-b");
    assert_eq!(slugify("--x--"), "x");
    assert_eq!(slugify("???"), "");
    assert_eq!(slugify("snake_case ok"), "snake_case-ok");
}

#[test]
fn fence_close_requires_no_info_string() {
    let md = "```text\n```python\n# still fenced\n```\n\n# real\n";
    let hs = extract_headings(md);
    assert_eq!(hs.len(), 1);
    assert_eq!(hs[0].id, "real");
}

#[test]
fn mermaid_fence_counting() {
    let md = "```mermaid\ngraph TD\n```\n\n```rust\nfn x() {}\n```\n\n~~~mermaid\npie\n~~~\n";
    assert_eq!(count_mermaid_fences(md), 2);
}

#[test]
fn json_escaping_script_safe() {
    let s = json_str("a</script>\"b\"\n");
    assert!(!s.contains("</script>"));
    assert!(s.contains("\\u003c/script"));
    assert!(s.contains("\\\"b\\\""));
}

#[test]
fn html_escaping() {
    assert_eq!(html_escape("<a & \"b\">"), "&lt;a &amp; &quot;b&quot;&gt;");
}

#[test]
fn extensions() {
    assert_eq!(language_for_file("main.rs"), "rust");
    assert_eq!(language_for_file("a/b/script.PY"), "python");
    assert_eq!(language_for_file("notes.weird"), "plaintext");
}

#[test]
fn special_filenames() {
    assert_eq!(language_for_file("Dockerfile"), "docker");
    assert_eq!(language_for_file("src/Makefile"), "makefile");
    assert_eq!(language_for_file(".zshrc"), "bash");
    assert_eq!(language_for_file("README"), "plaintext");
}

#[test]
fn markdown_detection() {
    assert!(is_markdown("README.md"));
    assert!(is_markdown("notes.MARKDOWN"));
    assert!(!is_markdown("main.rs"));
}

#[test]
fn html_detection() {
    assert!(is_html("page.html"));
    assert!(is_html("INDEX.HTM"));
    assert!(!is_html("page.html.bak"));
    assert!(!is_html("README.md"));
}

#[test]
fn fuzzy_ranking_prefers_tighter_matches() {
    let candidates = vec![
        "docs/architecture/decisions.md".to_string(),
        "readme.md".to_string(),
        "docs/readme-first.md".to_string(),
    ];
    let ranked = fuzzy_rank(&candidates, "readme");
    assert_eq!(ranked[0], 1, "exact filename should rank first");
    assert!(ranked.contains(&2));
    assert!(!ranked.contains(&0), "no 'readme' subsequence in candidate 0");

    let all = fuzzy_rank(&candidates, "");
    assert_eq!(all.len(), 3, "empty query returns everything");
}

#[test]
fn fallback_covers_all_keys() {
    for dark in [true, false] {
        let p = Palette::fallback(dark);
        for i in 0..PALETTE_LEN {
            let key = palette_key_str(i);
            assert!(p.contains_key(key), "missing {key} in fallback");
        }
    }
}

#[test]
fn per_key_fallback() {
    let table: toml::Table = "mode = \"dark\"\naccent = \"#123456\"".parse().unwrap();
    let p = Palette::from_table(&table);
    assert_eq!(p.get("accent"), "#123456");
    // unset key falls back to the built-in dark palette, not to nothing
    assert_eq!(p.get("green"), "#8ff0a4");
}

#[test]
fn invalid_hex_rejected() {
    let table: toml::Table = "accent = \"not-a-colour\"".parse().unwrap();
    let p = Palette::from_table(&table);
    assert_eq!(p.get("accent"), "#62a0ea");
}

#[test]
fn alpha_suffix() {
    assert_eq!(with_alpha("#7aa2f7", 0x66), "#7aa2f766");
}

#[test]
fn html_headings_basics() {
    let html = r#"<html><body>
            <nav><h1>Site nav</h1></nav>
            <h1>Title</h1>
            <h2 id="custom-id">Has &amp; keeps its id</h2>
            <h2>Dup</h2>
            <h2>Dup</h2>
            <pre><h3>inside pre, ignored</h3></pre>
            <script>document.write("<h4>scripted</h4>")</script>
            <h3><em>Nested</em> markup</h3>
        </body></html>"#;
    let hs = extract_headings_html(html);
    let got: Vec<(u8, &str, &str)> =
        hs.iter().map(|h| (h.level, h.text.as_str(), h.id.as_str())).collect();
    assert_eq!(
        got,
        vec![
            (1, "Title", "title"),
            (2, "Has & keeps its id", "custom-id"),
            (2, "Dup", "dup"),
            (2, "Dup", "dup-1"),
            (3, "Nested markup", "nested-markup"),
        ]
    );
}

#[test]
fn html_main_tag_wins() {
    let html = r#"<header><h1>Chrome</h1></header>
            <main><h1>Real</h1></main>
            <footer><h2>Footer</h2></footer>"#;
    let hs = extract_headings_html(html);
    assert_eq!(hs.len(), 1);
    assert_eq!(hs[0].text, "Real");
}
