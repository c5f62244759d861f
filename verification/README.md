# moremaid

A markdown reader for Omarchy/Hyprland: one window per document or
directory, documents rendered by a web view from pages this library builds.

- `src/` is the library, verified with Verus:
  - `headings` — headings of markdown and HTML documents, slugs and ids;
  - `html`, `theme`, `config`, `langmap` — page assembly and escaping, the
    palette, fonts, the language table, listing sizes;
  - `search`, `overlay` — the full-text search of a text (matching lines,
    spans), fuzzy ranking and the search overlay's rules;
  - `nav`, `links`, `keys`, `bridge` — back/forward history, page-load
    bookkeeping, link and scheme routing, key bindings, page scripts;
  - `navtree` — the Navigator's tree of folders, files and headings;
  - `text`, `pattern` — character-level helpers and regex matching.
  Outside crates (`toml`, `regex`, `grep-regex`, `nucleo-matcher`,
  `serde_json`) are called through a few trusted wrappers whose contracts
  stand next to them.
- `app/` is the GTK/WebKit program around it: windows, widgets, files,
  directory scanning, file watching, and reading the files that the
  full-text search goes through.
- `tests/` exercises the library.
