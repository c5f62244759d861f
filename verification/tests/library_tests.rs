use moremaid::bridge::{
    headings_from_rows, highlight_script, message_kind, refresh_reloads, refresh_script,
    scroll_script, window_title, HeadingRow, MessageKind,
};
use moremaid::headings::{decode_entities, extract_headings, extract_headings_html, slugify};
use moremaid::html::{html_escape, json_str, IndexEntry};
use moremaid::langmap::{is_markdown, language_for_extension};
use moremaid::links::{
    link_action, listed_in_index, looks_binary, newest_first, opens_new_window, route_link,
    route_scheme, LinkAction, LinkRoute, SchemeRoute,
};
use moremaid::nav::{Delivery, History, HistoryEntry, LoadTracker};
use moremaid::navtree::{activation, heading_indent, heading_rows, Activation, NavTree, Node, TreeEdit};
use moremaid::overlay::{
    content_query_wanted, filename_results, highlight_parts, markup_with_span, match_title,
    moved_selection, Mode,
};
use moremaid::search::{escape_literal, matching_lines, rank_by_scores};
use moremaid::theme::{parse_hex, with_alpha, Palette};

fn file(p: &str) -> HistoryEntry {
    HistoryEntry::File(p.to_string())
}

fn shown(h: &History) -> Option<String> {
    match h.current() {
        Some(HistoryEntry::File(p)) | Some(HistoryEntry::Dir(p)) => Some(p),
        None => None,
    }
}

// ---------------------------------------------------------------- slugs

#[test]
fn slug_is_idempotent() {
    for s in ["Hello World", "  --A  b--  ", "Ünïcode Title!", "snake_case ok", "x"] {
        let once = slugify(s);
        assert_eq!(slugify(&once), once);
    }
}

#[test]
fn slug_has_no_edge_or_double_dashes() {
    let s = slugify("  Spaces -- and __under__ !! ");
    assert_eq!(s, "spaces-and-__under__");
    assert!(!s.starts_with('-') && !s.ends_with('-') && !s.contains("--"));
}

#[test]
fn markdown_heading_ids_are_deduplicated() {
    let hs = extract_headings("# a\n# a\n## a\n");
    let ids: Vec<&str> = hs.iter().map(|h| h.id.as_str()).collect();
    assert_eq!(ids, vec!["a", "a-1", "a-2"]);
    let levels: Vec<u8> = hs.iter().map(|h| h.level).collect();
    assert_eq!(levels, vec![1, 1, 2]);
}

#[test]
fn markdown_heading_text_is_trimmed_and_level_bounded() {
    let hs = extract_headings("###   Spaced   \n####### not a heading\n");
    assert_eq!(hs.len(), 1);
    assert_eq!(hs[0].level, 3);
    assert_eq!(hs[0].text, "Spaced");
}

#[test]
fn underscore_emphasis_needs_a_word_boundary() {
    let hs = extract_headings("# _em_ and snake_case_name\n");
    assert_eq!(hs[0].text, "em and snake_case_name");
}

#[test]
fn entities_decode() {
    assert_eq!(decode_entities("a &amp; b"), "a & b");
    assert_eq!(decode_entities("&#65;&#x42;"), "AB");
    assert_eq!(decode_entities("&bogus; &"), "&bogus; &");
}

#[test]
fn html_heading_without_text_is_skipped_and_empty_slug_uses_heading() {
    let hs = extract_headings_html("<h2></h2><h2>!!!</h2><h3>!!!</h3>");
    let got: Vec<(u8, &str, &str)> =
        hs.iter().map(|h| (h.level, h.text.as_str(), h.id.as_str())).collect();
    assert_eq!(got, vec![(2, "!!!", "heading"), (3, "!!!", "heading-1")]);
}

#[test]
fn html_heading_needs_matching_close() {
    let hs = extract_headings_html("<h2>open</h3> <h4 id='kept'>x &lt; y</H4>");
    let got: Vec<(u8, &str, &str)> =
        hs.iter().map(|h| (h.level, h.text.as_str(), h.id.as_str())).collect();
    assert_eq!(got, vec![(4, "x < y", "kept")]);
}

// ---------------------------------------------------------------- escaping

#[test]
fn json_string_never_closes_a_script() {
    let j = json_str("</script><!-- \u{2028}");
    assert!(!j.contains("</"));
    assert!(!j.contains("<!--"));
    assert!(j.starts_with('"') && j.ends_with('"'));
}

#[test]
fn html_escape_leaves_no_markup() {
    let e = html_escape("<b>\"x\" & 'y'</b>");
    assert!(!e.contains('<') && !e.contains('>') && !e.contains('"'));
    assert_eq!(html_escape("plain text"), "plain text");
}

// ---------------------------------------------------------------- theme

#[test]
fn hex_colours_parse() {
    assert_eq!(parse_hex("#7aa2f7"), Some((0x7a, 0xa2, 0xf7)));
    assert_eq!(parse_hex("7aa2f7"), None);
    assert_eq!(parse_hex("#7aa2f"), None);
    // never a panic: a colour whose bytes split a character is no colour
    assert_eq!(parse_hex("#aé123"), None);
    assert_eq!(parse_hex("#aébcd"), None);
    assert_eq!(parse_hex("#1e1e22"), Some((30, 30, 34)));
    assert_eq!(parse_hex("#12345"), None);
    // a sign is no hex digit
    assert_eq!(parse_hex("#+1+2+3"), None);
    assert_eq!(with_alpha("#+1+2+3", 0x66), "#+1+2+3");
    assert_eq!(with_alpha("#aé123", 0x66), "#aé123");
    assert_eq!(parse_hex("#aé1234"), None);
    assert_eq!(with_alpha("#000000", 255), "#000000ff");
}

#[test]
fn theme_file_outcomes() {
    assert!(Palette::from_toml("not = [valid").is_none());
    let p = Palette::from_toml("mode = \"light\"").unwrap();
    assert!(!p.is_dark());
    let d = Palette::from_toml("accent = \"#123456\"").unwrap();
    assert!(d.is_dark());
    assert_eq!(d.get("accent"), "#123456");
}

// ---------------------------------------------------------------- search

#[test]
fn literal_escaping() {
    assert_eq!(escape_literal("a+b"), "a\\+b");
    assert_eq!(escape_literal("a b.c"), "a b\\.c");
    assert_eq!(escape_literal("é"), "é");
}

#[test]
fn scores_rank_best_first_ties_in_order() {
    let r = rank_by_scores(&vec![Some(5), None, Some(9), Some(5)]);
    assert_eq!(r, vec![2, 0, 3]);
}

#[test]
fn filename_results_are_capped() {
    let rels: Vec<String> = (0..150).map(|i| format!("f{i}.md")).collect();
    let all = filename_results(&rels, "");
    assert_eq!(all.len(), 100);
    assert_eq!(all[0], 0);
    assert_eq!(all[99], 99);
    let some = filename_results(&rels, "f149");
    assert_eq!(some[0], 149);
}

// ---------------------------------------------------------------- languages

#[test]
fn extension_lookup_is_case_sensitive_table() {
    assert_eq!(language_for_extension("rs"), "rust");
    assert_eq!(language_for_extension("nope"), "plaintext");
    assert!(is_markdown("X.MD"));
}

// ---------------------------------------------------------------- history

#[test]
fn history_records_and_truncates_forward() {
    let mut h = History::new();
    assert!(!h.can_go_back() && !h.can_go_forward());
    h.record(file("/a"));
    h.record(file("/b"));
    h.record(file("/c"));
    assert_eq!(shown(&h).as_deref(), Some("/c"));
    assert!(h.can_go_back());
    let back = h.jump(-1);
    assert!(matches!(back, Some(HistoryEntry::File(ref p)) if p == "/b"));
    h.record(file("/b"));
    h.end_jump();
    assert!(h.can_go_forward());
    h.record(file("/d"));
    assert_eq!(shown(&h).as_deref(), Some("/d"));
    assert!(!h.can_go_forward());
    assert!(h.jump(1).is_none());
    assert!(h.jump(-5).is_none());
}

#[test]
fn history_back_then_forward_returns() {
    let mut h = History::new();
    h.record(file("/a"));
    h.record(HistoryEntry::Dir("/d".to_string()));
    h.jump(-1).unwrap();
    h.end_jump();
    let fwd = h.jump(1).unwrap();
    h.end_jump();
    assert!(matches!(fwd, HistoryEntry::Dir(ref p) if p == "/d"));
    assert_eq!(shown(&h).as_deref(), Some("/d"));
}

#[test]
fn recording_the_shown_entry_changes_nothing() {
    let mut h = History::new();
    h.record(file("/a"));
    h.record(file("/b"));
    h.jump(-1).unwrap();
    h.end_jump();
    h.record(file("/a"));
    assert!(h.can_go_forward());
}

// ---------------------------------------------------------------- loads

#[test]
fn stale_page_cannot_take_pending_work() {
    let mut t = LoadTracker::new();
    let first = t.begin_document();
    t.set_anchor("intro".to_string());
    let second = t.begin_document();
    assert_eq!(second, first + 1);
    t.set_anchor("usage".to_string());
    t.set_search("query".to_string());
    assert!(t.page_loaded(Some(first)).is_none());
    assert!(!t.is_complete());
    let got = t.page_loaded(Some(second)).unwrap();
    assert_eq!(got, (Some("usage".to_string()), Some("query".to_string())));
    assert!(t.is_complete());
    assert_eq!(t.page_loaded(Some(second)).unwrap(), (None, None));
    assert!(t.page_loaded(None).is_none());
}

#[test]
fn navigation_drops_pending_anchor_but_source_reload_keeps_it() {
    let mut t = LoadTracker::new();
    t.set_anchor("a".to_string());
    let s = t.begin_source();
    assert_eq!(t.page_loaded(Some(s)).unwrap().0, Some("a".to_string()));
    t.set_anchor("b".to_string());
    let d = t.begin_document();
    assert_eq!(t.page_loaded(Some(d)).unwrap().0, None);
}

#[test]
fn delivery_depends_on_document_and_completion() {
    let mut t = LoadTracker::new();
    t.begin_document();
    assert_eq!(t.delivery(true), Delivery::Pend);
    assert_eq!(t.delivery(false), Delivery::LoadThenPend);
    t.set_anchor("x".to_string());
    assert_eq!(t.html_loaded(true), Some("x".to_string()));
    assert_eq!(t.delivery(true), Delivery::Now);
    assert_eq!(t.html_loaded(false), None);
}

// ---------------------------------------------------------------- links

#[test]
fn links_route_by_scheme_and_base() {
    assert_eq!(route_link("https://example.org", "moremaid://doc/x/"), LinkRoute::External);
    assert_eq!(route_link("mailto:a@b", "moremaid://doc/x/"), LinkRoute::Pass);
    assert_eq!(
        route_link("moremaid://doc/x/a.md#sec", "moremaid://doc/x/"),
        LinkRoute::Document { path: "/x/a.md".to_string(), anchor: Some("sec".to_string()) }
    );
    assert_eq!(
        route_link("moremaid://doc/x/a.md#", "moremaid://doc/x/"),
        LinkRoute::Document { path: "/x/a.md".to_string(), anchor: None }
    );
    assert_eq!(route_link("moremaid://doc/x/#top", "moremaid://doc/x/"), LinkRoute::SameDocument);
}

#[test]
fn link_actions_and_new_windows() {
    assert!(opens_new_window(2, 0, 4, 1));
    assert!(opens_new_window(1, 4, 4, 1));
    assert!(opens_new_window(1, 1, 4, 1));
    assert!(!opens_new_window(1, 8, 4, 1));
    assert_eq!(link_action(true, false, false), LinkAction::ShowListing);
    assert_eq!(link_action(true, false, true), LinkAction::SpawnWindow);
    assert_eq!(link_action(false, true, false), LinkAction::LoadDocument);
    assert_eq!(link_action(false, false, true), LinkAction::Pass);
}

#[test]
fn scheme_requests_route_by_host() {
    assert_eq!(route_scheme("moremaid://assets/js/page.js?v=1"), SchemeRoute::Asset("js/page.js".to_string()));
    assert_eq!(route_scheme("moremaid://doc/home/u/a%20b.png#x"), SchemeRoute::Doc("home/u/a%20b.png".to_string()));
    assert_eq!(route_scheme("moremaid://doc"), SchemeRoute::Doc(String::new()));
    assert_eq!(route_scheme("moremaid://other/x"), SchemeRoute::NotFound);
    assert_eq!(route_scheme("file:///etc"), SchemeRoute::NotFound);
}

#[test]
fn index_listing_filter_and_order() {
    assert!(listed_in_index("notes.md", false));
    assert!(listed_in_index("page.HTML", false));
    assert!(listed_in_index("sub", true));
    assert!(!listed_in_index(".git", true));
    assert!(!listed_in_index("node_modules", true));
    assert!(!listed_in_index("image.png", false));
    let e = |name: &str, t: i64| IndexEntry {
        name: name.to_string(),
        is_dir: false,
        size: 1,
        modified_epoch: t,
        href: String::new(),
    };
    let sorted = newest_first(&vec![e("a", 5), e("b", 9), e("c", 5), e("d", -1)]);
    let names: Vec<&str> = sorted.iter().map(|x| x.name.as_str()).collect();
    assert_eq!(names, vec!["b", "a", "c", "d"]);
}

#[test]
fn binary_sniffing_looks_at_the_head_only() {
    assert!(!looks_binary(b"plain text"));
    assert!(looks_binary(b"a\0b"));
    let mut big = vec![b'a'; 9000];
    big[8500] = 0;
    assert!(!looks_binary(&big));
    big[8191] = 0;
    assert!(looks_binary(&big));
}

// ---------------------------------------------------------------- overlay

#[test]
fn overlay_modes_and_selection() {
    assert_eq!(Mode::Filename.toggled(), Mode::Content);
    assert_eq!(Mode::Content.toggled().label(), "Files");
    assert_eq!(moved_selection(0, 0, 1), None);
    assert_eq!(moved_selection(0, 5, -1), Some(0));
    assert_eq!(moved_selection(3, 5, 1), Some(4));
    assert_eq!(moved_selection(4, 5, 1), Some(4));
    assert_eq!(moved_selection(u32::MAX, 5, 1), Some(4));
    assert!(!content_query_wanted("a"));
    assert!(content_query_wanted("ab"));
    assert!(content_query_wanted("é"));
}

#[test]
fn match_lines_split_on_char_boundaries() {
    let line = "héllo world";
    assert_eq!(
        highlight_parts(line, (1, 3)),
        Some(("h".to_string(), "é".to_string(), "llo world".to_string()))
    );
    assert_eq!(highlight_parts(line, (2, 3)), None);
    assert_eq!(highlight_parts(line, (3, 3)), None);
    assert_eq!(highlight_parts(line, (0, 99)), None);
    assert_eq!(
        markup_with_span("a", "#fff", "b", "c"),
        "a<span foreground=\"#fff\" weight=\"bold\">b</span>c"
    );
    assert_eq!(match_title("docs/a.md", 42), "docs/a.md:42");
}

// ---------------------------------------------------------------- bridge

#[test]
fn page_scripts() {
    assert_eq!(scroll_script("intro"), "location.hash = ''; location.hash = '#' + \"intro\";");
    assert_eq!(highlight_script("a\"b"), "highlightSearchQuery(\"a\\\"b\");");
    assert_eq!(
        refresh_script("a.md", false, Some("# x")),
        "moremaidClearBanner(); reRenderMarkdown(\"# x\");"
    );
    assert_eq!(
        refresh_script("a.md", true, Some("x")),
        "moremaidClearBanner(); reRenderCode(\"x\", \"markdown\");"
    );
    assert_eq!(
        refresh_script("a.rs", false, None),
        "moremaidShowBanner(\"a.rs is gone \u{2014} keeping the last good render. It will reload if the file returns.\");"
    );
    assert!(refresh_reloads("p.html", false, true));
    assert!(!refresh_reloads("p.html", true, true));
    assert!(!refresh_reloads("p.md", false, true));
    assert_eq!(window_title("a.md"), "a.md \u{2014} Moremaid");
}

#[test]
fn page_messages() {
    assert_eq!(message_kind("{\"type\":\"loadComplete\",\"token\":3}"), MessageKind::LoadComplete);
    assert_eq!(message_kind("{\"type\":\"headings\",\"headings\":[]}"), MessageKind::Headings);
    assert_eq!(message_kind("{\"type\":\"firstRender\"}"), MessageKind::FirstRender);
    assert_eq!(message_kind("{ \"type\":\"headings\"}"), MessageKind::Other);
    let rows = vec![
        HeadingRow { level: Some(2), text: Some("A".to_string()), id: Some("a".to_string()) },
        HeadingRow { level: None, text: Some("B".to_string()), id: Some("b".to_string()) },
        HeadingRow { level: Some(258), text: Some("C".to_string()), id: Some("c".to_string()) },
    ];
    let hs = headings_from_rows(&rows);
    let got: Vec<(u8, &str)> = hs.iter().map(|h| (h.level, h.id.as_str())).collect();
    assert_eq!(got, vec![(2, "a"), (2, "c")]);
}

// ---------------------------------------------------------------- navigator

fn row_names(t: &NavTree, list: usize) -> Vec<String> {
    t.list_rows(list)
        .into_iter()
        .map(|n| match n {
            Node::Folder { name, .. } => format!("{name}/"),
            Node::File { name, .. } => name,
            Node::Heading { text, .. } => text,
        })
        .collect()
}

#[test]
fn navigator_sorts_folders_first_then_names() {
    let mut t = NavTree::new();
    t.add_file(&vec![], "zeta.md".to_string(), "/r/zeta.md".to_string());
    t.add_file(&vec![], "Alpha.md".to_string(), "/r/Alpha.md".to_string());
    let edits = t.add_file(&vec!["docs".to_string(), "deep".to_string()], "b.md".to_string(), "/r/docs/deep/b.md".to_string());
    assert_eq!(edits.len(), 5);
    assert!(matches!(edits[0], TreeEdit::NewList));
    assert!(matches!(edits[1], TreeEdit::NewList));
    assert!(matches!(edits[2], TreeEdit::Insert { list: 0, position: 0, .. }));
    // the deepest directory's list is made first, then its parent's
    assert!(matches!(edits[3], TreeEdit::Insert { list: 2, position: 0, .. }));
    assert!(matches!(edits[4], TreeEdit::Insert { list: 1, position: 0, .. }));
    assert_eq!(row_names(&t, 0), vec!["docs/", "Alpha.md", "zeta.md"]);
    assert_eq!(row_names(&t, 2), vec!["deep/"]);
    assert_eq!(row_names(&t, 1), vec!["b.md"]);
    let more = t.add_file(&vec!["docs".to_string()], "a.md".to_string(), "/r/docs/a.md".to_string());
    assert_eq!(more.len(), 1);
    assert_eq!(row_names(&t, 2), vec!["deep/", "a.md"]);
    assert_eq!(t.list_count(), 3);
}

#[test]
fn navigator_rows_and_activation() {
    let hs = extract_headings("# One\n## Two\n");
    let rows = heading_rows("/r/a.md", &hs);
    assert_eq!(rows.len(), 2);
    assert_eq!(heading_indent(1), 0);
    assert_eq!(heading_indent(3), 20);
    assert!(matches!(activation(&rows[1]), Activation::Jump { ref file, ref id } if file == "/r/a.md" && id == "two"));
    let f = Node::File { name: "a.md".to_string(), path: "/r/a.md".to_string() };
    assert!(matches!(activation(&f), Activation::ExpandAndOpen(ref p) if p == "/r/a.md"));
    let d = Node::Folder { name: "docs".to_string(), dir: 1 };
    assert!(matches!(activation(&d), Activation::Toggle));
}

// ---------------------------------------------------------------- keys

use moremaid::keys::{
    mouse_history_step, new_window_target, reload_target, vim_key, Key, KeyResponse, Reload,
    TO_END, TO_TOP,
};

#[test]
fn vim_keys_scroll_and_gg() {
    assert_eq!(vim_key(Key::J, false, false, false, true), (KeyResponse::Scroll("window.scrollBy(0, 80);"), false));
    assert_eq!(vim_key(Key::J, true, false, false, true), (KeyResponse::Pass, false));
    assert_eq!(vim_key(Key::D, true, false, false, true).0, KeyResponse::Scroll("window.scrollBy(0, window.innerHeight / 2);"));
    assert_eq!(vim_key(Key::BigG, false, false, false, true), (KeyResponse::Scroll(TO_END), false));
    let (first, waiting) = vim_key(Key::G, false, false, false, true);
    assert_eq!((first, waiting), (KeyResponse::Take, true));
    assert_eq!(vim_key(Key::G, false, waiting, false, true), (KeyResponse::Scroll(TO_TOP), false));
    assert_eq!(vim_key(Key::K, false, true, false, true).1, false);
    assert_eq!(vim_key(Key::J, false, true, true, true), (KeyResponse::Pass, true));
    assert_eq!(vim_key(Key::Slash, false, false, false, true).0, KeyResponse::QuickOpen);
    assert_eq!(vim_key(Key::Slash, false, false, false, false).0, KeyResponse::Pass);
    assert_eq!(vim_key(Key::Question, true, false, false, false).0, KeyResponse::Shortcuts);
}

#[test]
fn window_actions() {
    assert_eq!(mouse_history_step(8), Some(-1));
    assert_eq!(mouse_history_step(9), Some(1));
    assert_eq!(mouse_history_step(1), None);
    assert_eq!(reload_target(true, true), Reload::Document);
    assert_eq!(reload_target(false, true), Reload::Stdin);
    assert_eq!(reload_target(false, false), Reload::Nothing);
    assert_eq!(new_window_target(Some("/r".into()), Some("/r/a.md".into())), Some("/r".to_string()));
    assert_eq!(new_window_target(None, Some("/r/a.md".into())), Some("/r/a.md".to_string()));
}

// ---------------------------------------------------------------- paths and messages

use moremaid::links::{binary_file_message, doc_base_uri, doc_uri, missing_path_message, scan_keeps, walk_enters};

#[test]
fn addresses_and_messages() {
    assert_eq!(doc_uri("/home/u/a%20b.md"), "moremaid://doc/home/u/a%20b.md");
    assert_eq!(doc_base_uri("/home/u"), "moremaid://doc/home/u/");
    assert_eq!(missing_path_message("x.md"), "x.md: no such file or directory");
    assert_eq!(
        binary_file_message("/tmp/a.bin", 1234),
        "/tmp/a.bin is a binary file (1234 bytes) \u{2014} Moremaid reads text documents"
    );
    assert!(!walk_enters(".git"));
    assert!(!walk_enters("node_modules"));
    assert!(walk_enters(".github"));
    assert!(scan_keeps(true, "Notes.Markdown"));
    assert!(!scan_keeps(false, "dir.md"));
    assert!(!scan_keeps(true, "notes.txt"));
}

// ---------------------------------------------------------------- chrome

use moremaid::config::Config;

#[test]
fn chrome_css_uses_palette_and_body_font() {
    let p = Palette::fallback(true);
    let fonts = moremaid::config::load(None).fonts();
    let css = p.chrome_css(&fonts);
    assert!(css.starts_with("\nwindow { background-color: "));
    assert!(css.contains(&format!("window {{ background-color: {}; color: {}; }}", p.get("background"), p.get("foreground"))));
    assert!(css.contains(&format!("font-family: {};", fonts.body_stack)));
    assert!(css.contains(&format!(".moremaid-overlay {{ background-color: {};", p.get("lighter_background"))));
    let light = Palette::fallback(false);
    assert!(light.chrome_css(&fonts).contains(&format!(".moremaid-topbar {{ background-color: {};", light.get("darker_background"))));
    let _ = Config { font: moremaid::config::FontConfig::default() };
}

#[test]
fn html_heading_text_is_squeezed() {
    let hs = extract_headings_html("<h1>  a <b>b</b>\n\t c  </h1>");
    assert_eq!(hs.len(), 1);
    assert_eq!(hs[0].text, "a b c");
    assert_eq!(hs[0].id, "a-b-c");
}

#[test]
fn theme_colour_that_splits_a_character_falls_back() {
    let p = Palette::from_toml("accent = \"#aé123\"").unwrap();
    assert_eq!(p.get("accent"), Palette::fallback(true).get("accent"));
    let q = Palette::from_toml("accent = \"#aé1234\"").unwrap();
    assert_eq!(q.get("accent"), Palette::fallback(true).get("accent"));
}

// ---------------------------------------------------------------- sizes

use moremaid::html::human_size;

fn float_size(bytes: u64) -> String {
    if bytes >= 1024 * 1024 {
        format!("{:.1} MB", bytes as f64 / (1024.0 * 1024.0))
    } else if bytes >= 1024 {
        format!("{:.1} KB", bytes as f64 / 1024.0)
    } else {
        format!("{bytes} B")
    }
}

#[test]
fn sizes_read_like_the_float_formatting() {
    assert_eq!(human_size(0), "0 B");
    assert_eq!(human_size(1023), "1023 B");
    assert_eq!(human_size(1024), "1.0 KB");
    assert_eq!(human_size(1536), "1.5 KB");
    assert_eq!(human_size(1048576), "1.0 MB");
    let mut probes: Vec<u64> = (0..5000u64).map(|i| i * 211).collect();
    // exact halves of a tenth: ties
    for k in 0..200u64 {
        probes.push(1024 * k + 51);
        probes.push(1024 * k + 52);
        probes.push((1 << 20) * k + (1 << 20) / 20);
        probes.push((1 << 20) * k + (1 << 20) / 20 * 3);
    }
    for shift in 40..64u32 {
        let b = 1u64 << shift;
        for d in [0u64, 1, 2, 3, 1023, 1024, 2047, 2048, 4095] {
            probes.push(b.wrapping_add(d));
            probes.push(b.wrapping_sub(d));
        }
    }
    probes.push(u64::MAX);
    probes.push(u64::MAX - 1024);
    for b in probes {
        assert_eq!(human_size(b), float_size(b), "bytes = {b}");
    }
}

// ---------------------------------------------------------------- review follow-ups

use moremaid::bridge::parse_headings_message;
use moremaid::html::count_mermaid_fences;
use moremaid::langmap::language_for_file;
use moremaid::overlay::{search_goes_on, MAX_CONTENT_RESULTS};

#[test]
fn escaped_query_matches_literally() {
    assert_eq!(escape_literal("<a>"), "<a>");
    assert_eq!(escape_literal("a<b"), "a<b");
    let queries = ["a+b", "<div>", "x\\y", "(a|b)", "[x]", "a.b", "$1", "^a", "{2}", "a#b", "tab\tx", "<", ">"];
    let hays = [
        "value is a+b here", "aab", "<div> tag", "div", "x\\y z", "xy", "(a|b)", "a", "[x]", "x",
        "a.b", "acb", "$1", "^a", "a{2}", "aa", "a#b", "tab\tx", "<", ">", "a <b> c", "word",
    ];
    for q in queries {
        let re = regex::RegexBuilder::new(&escape_literal(q)).case_insensitive(true).build().unwrap();
        for h in hays {
            assert_eq!(re.is_match(h), h.to_lowercase().contains(&q.to_lowercase()), "query {q:?} in {h:?}");
        }
    }
}

#[test]
fn page_messages_are_read_in_the_library() {
    let hs = parse_headings_message(
        "{\"type\":\"headings\",\"headings\":[{\"level\":2,\"text\":\"A\",\"id\":\"a\"},{\"text\":\"B\",\"id\":\"b\"}]}",
    )
    .unwrap();
    let got: Vec<(u8, &str, &str)> = hs.iter().map(|h| (h.level, h.text.as_str(), h.id.as_str())).collect();
    assert_eq!(got, vec![(2, "A", "a")]);
    assert!(parse_headings_message("{\"type\":\"headings\"}").is_none());
    assert!(parse_headings_message("not json").is_none());

    let mut t = LoadTracker::new();
    let n = t.begin_document();
    t.set_anchor("x".to_string());
    // no token: not the current load's report
    assert!(t.message_loaded("{\"type\":\"loadComplete\"}").is_none());
    assert!(t.message_loaded(&format!("{{\"type\":\"loadComplete\",\"token\":{}}}", n + 1)).is_none());
    let got = t.message_loaded(&format!("{{\"type\":\"loadComplete\",\"token\":{n}}}")).unwrap();
    assert_eq!(got, (Some("x".to_string()), None));
}

#[test]
fn content_search_cap() {
    assert!(search_goes_on(true, 1));
    assert!(search_goes_on(true, MAX_CONTENT_RESULTS - 1));
    assert!(!search_goes_on(true, MAX_CONTENT_RESULTS));
    assert!(!search_goes_on(false, 1));
}

#[test]
fn escaping_round_trips() {
    for s in ["", "plain", "<a href=\"x\">'&amp;'</a>", "&lt;", "é & ü", "&#39;;"] {
        assert_eq!(decode_entities(&html_escape(s)), s);
        let j = json_str(s);
        let back: String = serde_json::from_str(&j).unwrap();
        assert_eq!(back, s);
    }
    let ctl: String = (0u32..0x20).filter_map(char::from_u32).chain("\u{2028}\u{2029}</script>".chars()).collect();
    let back: String = serde_json::from_str(&json_str(&ctl)).unwrap();
    assert_eq!(back, ctl);
}

#[test]
fn fence_counts_add_over_a_newline() {
    let a = "```mermaid\ngraph TD\n```";
    let b = "~~~mermaid\npie\n~~~\n```rust\n```";
    assert_eq!(count_mermaid_fences(&format!("{a}\n{b}")), count_mermaid_fences(a) + count_mermaid_fences(b));
    assert_eq!(count_mermaid_fences(&format!("{a}\n{b}")), 2);
}

#[test]
fn language_ignores_directory_and_extension_case() {
    assert_eq!(language_for_file("a/b/c/script.py"), language_for_file("script.py"));
    assert_eq!(language_for_file("x/Makefile"), language_for_file("Makefile"));
    assert_eq!(language_for_file("notes.MD"), language_for_file("notes.md"));
    assert_eq!(language_for_file("Main.Rs"), "rust");
}

#[test]
fn finds_case_insensitive_literal_with_span() {
    let matches = matching_lines("# Title\n\nThe Mermaid diagram cache.\n", "mermaid", usize::MAX);
    assert_eq!(matches.len(), 1);
    assert_eq!(matches[0].0, 3);
    assert_eq!(matches[0].1, "The Mermaid diagram cache.");
    assert_eq!(&matches[0].1[matches[0].2 .0..matches[0].2 .1], "Mermaid");
}

#[test]
fn regex_metacharacters_are_literal() {
    let matches = matching_lines("value is a+b (not ab)\nplain aab here\n", "a+b", usize::MAX);
    assert_eq!(matches.len(), 1);
    assert_eq!(matches[0].0, 1);
}

#[test]
fn result_cap_stops_search() {
    let matches = matching_lines("hit\nhit\nhit\nhit\n", "hit", 2);
    assert_eq!(matches.len(), 2);
    assert_eq!(matches[1].0, 2);
}

#[test]
fn matching_lines_edges() {
    // no query, no lines
    assert!(matching_lines("anything\n", "", usize::MAX).is_empty());
    assert!(matching_lines("", "a", usize::MAX).is_empty());
    // a last line without a newline counts; CRLF and trailing blanks are trimmed
    let m = matching_lines("one\r\ntwo  \nthree", "T", usize::MAX);
    assert_eq!(
        m,
        vec![(2, "two".to_string(), (0, 1)), (3, "three".to_string(), (0, 1))]
    );
    // a match that runs into the trailing blanks is cut to the trimmed text
    let m = matching_lines("ab  \n", "b ", usize::MAX);
    assert_eq!(m, vec![(1, "ab".to_string(), (1, 2))]);
    // spans count bytes
    let m = matching_lines("éé x\n", "X", usize::MAX);
    assert_eq!(m, vec![(1, "éé x".to_string(), (5, 6))]);
    // angle brackets are searched for as text
    let m = matching_lines("a <b> c\nab\n", "<b>", usize::MAX);
    assert_eq!(m, vec![(1, "a <b> c".to_string(), (2, 5))]);
    // nothing once the cap is spent
    assert!(matching_lines("hit\n", "hit", 0).is_empty());
}

#[test]
fn history_compares_paths_by_component() {
    assert!(file("/x").same(&file("/x/")));
    assert!(file("/a//b/./c").same(&file("/a/b/c")));
    assert!(file("./a").same(&file("./a/")));
    assert!(!file("./a").same(&file("a")));
    assert!(!file("/a").same(&file("a")));
    assert!(!file("/a/..").same(&file("/")));
    assert!(!file("/x").same(&HistoryEntry::Dir("/x".to_string())));
    let mut h = History::new();
    h.record(file("/docs/a.md"));
    h.record(file("/docs//a.md"));
    assert!(!h.can_go_back());
    assert_eq!(shown(&h), Some("/docs/a.md".to_string()));
    h.record(file("/docs/b.md"));
    assert!(h.can_go_back());
}
