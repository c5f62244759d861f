//! File name to Prism language, and the markdown/HTML tests on file names.
//! Pure data: the vendored Prism autoloader resolves grammars at render time.

use vstd::prelude::*;
use crate::text::{chars_of, eq_lit, str_lowercase, to_lowercase, slice_of};

verus! {

/// Number of extension rows.
pub const EXT_ROWS: usize = 107;

/// Number of whole-file-name rows.
pub const NAME_ROWS: usize = 15;

/// Extensions with a Prism language, in table order.
pub open spec fn ext_key(i: int) -> Seq<char> {
    if i == 0 {
        "js"@
    } else if i == 1 {
        "mjs"@
    } else if i == 2 {
        "cjs"@
    } else if i == 3 {
        "ts"@
    } else if i == 4 {
        "jsx"@
    } else if i == 5 {
        "tsx"@
    } else if i == 6 {
        "html"@
    } else if i == 7 {
        "htm"@
    } else if i == 8 {
        "xml"@
    } else if i == 9 {
        "svg"@
    } else if i == 10 {
        "css"@
    } else if i == 11 {
        "scss"@
    } else if i == 12 {
        "sass"@
    } else if i == 13 {
        "less"@
    } else if i == 14 {
        "json"@
    } else if i == 15 {
        "jsonc"@
    } else if i == 16 {
        "graphql"@
    } else if i == 17 {
        "gql"@
    } else if i == 18 {
        "vue"@
    } else if i == 19 {
        "svelte"@
    } else if i == 20 {
        "toml"@
    } else if i == 21 {
        "yaml"@
    } else if i == 22 {
        "yml"@
    } else if i == 23 {
        "ini"@
    } else if i == 24 {
        "cfg"@
    } else if i == 25 {
        "conf"@
    } else if i == 26 {
        "properties"@
    } else if i == 27 {
        "env"@
    } else if i == 28 {
        "hcl"@
    } else if i == 29 {
        "tf"@
    } else if i == 30 {
        "tfvars"@
    } else if i == 31 {
        "nginx"@
    } else if i == 32 {
        "sh"@
    } else if i == 33 {
        "bash"@
    } else if i == 34 {
        "zsh"@
    } else if i == 35 {
        "fish"@
    } else if i == 36 {
        "bat"@
    } else if i == 37 {
        "cmd"@
    } else if i == 38 {
        "ps1"@
    } else if i == 39 {
        "psm1"@
    } else if i == 40 {
        "c"@
    } else if i == 41 {
        "h"@
    } else if i == 42 {
        "cpp"@
    } else if i == 43 {
        "cxx"@
    } else if i == 44 {
        "cc"@
    } else if i == 45 {
        "hpp"@
    } else if i == 46 {
        "hxx"@
    } else if i == 47 {
        "rs"@
    } else if i == 48 {
        "go"@
    } else if i == 49 {
        "zig"@
    } else if i == 50 {
        "java"@
    } else if i == 51 {
        "kt"@
    } else if i == 52 {
        "kts"@
    } else if i == 53 {
        "scala"@
    } else if i == 54 {
        "groovy"@
    } else if i == 55 {
        "gradle"@
    } else if i == 56 {
        "cs"@
    } else if i == 57 {
        "fs"@
    } else if i == 58 {
        "fsx"@
    } else if i == 59 {
        "vb"@
    } else if i == 60 {
        "swift"@
    } else if i == 61 {
        "m"@
    } else if i == 62 {
        "mm"@
    } else if i == 63 {
        "dart"@
    } else if i == 64 {
        "py"@
    } else if i == 65 {
        "pyw"@
    } else if i == 66 {
        "rb"@
    } else if i == 67 {
        "php"@
    } else if i == 68 {
        "pl"@
    } else if i == 69 {
        "pm"@
    } else if i == 70 {
        "lua"@
    } else if i == 71 {
        "r"@
    } else if i == 72 {
        "jl"@
    } else if i == 73 {
        "ex"@
    } else if i == 74 {
        "exs"@
    } else if i == 75 {
        "erl"@
    } else if i == 76 {
        "clj"@
    } else if i == 77 {
        "cljs"@
    } else if i == 78 {
        "hs"@
    } else if i == 79 {
        "ml"@
    } else if i == 80 {
        "mli"@
    } else if i == 81 {
        "elm"@
    } else if i == 82 {
        "lisp"@
    } else if i == 83 {
        "scm"@
    } else if i == 84 {
        "rkt"@
    } else if i == 85 {
        "sql"@
    } else if i == 86 {
        "proto"@
    } else if i == 87 {
        "md"@
    } else if i == 88 {
        "markdown"@
    } else if i == 89 {
        "tex"@
    } else if i == 90 {
        "latex"@
    } else if i == 91 {
        "rst"@
    } else if i == 92 {
        "adoc"@
    } else if i == 93 {
        "pug"@
    } else if i == 94 {
        "handlebars"@
    } else if i == 95 {
        "hbs"@
    } else if i == 96 {
        "ejs"@
    } else if i == 97 {
        "dockerfile"@
    } else if i == 98 {
        "makefile"@
    } else if i == 99 {
        "cmake"@
    } else if i == 100 {
        "diff"@
    } else if i == 101 {
        "patch"@
    } else if i == 102 {
        "vim"@
    } else if i == 103 {
        "regex"@
    } else if i == 104 {
        "wasm"@
    } else if i == 105 {
        "txt"@
    } else if i == 106 {
        "log"@
    } else {
        ""@
    }
}

/// The Prism language of the extension in the same row.
pub open spec fn ext_lang(i: int) -> Seq<char> {
    if i == 0 {
        "javascript"@
    } else if i == 1 {
        "javascript"@
    } else if i == 2 {
        "javascript"@
    } else if i == 3 {
        "typescript"@
    } else if i == 4 {
        "jsx"@
    } else if i == 5 {
        "tsx"@
    } else if i == 6 {
        "markup"@
    } else if i == 7 {
        "markup"@
    } else if i == 8 {
        "markup"@
    } else if i == 9 {
        "markup"@
    } else if i == 10 {
        "css"@
    } else if i == 11 {
        "scss"@
    } else if i == 12 {
        "sass"@
    } else if i == 13 {
        "less"@
    } else if i == 14 {
        "json"@
    } else if i == 15 {
        "json"@
    } else if i == 16 {
        "graphql"@
    } else if i == 17 {
        "graphql"@
    } else if i == 18 {
        "markup"@
    } else if i == 19 {
        "markup"@
    } else if i == 20 {
        "toml"@
    } else if i == 21 {
        "yaml"@
    } else if i == 22 {
        "yaml"@
    } else if i == 23 {
        "ini"@
    } else if i == 24 {
        "ini"@
    } else if i == 25 {
        "ini"@
    } else if i == 26 {
        "properties"@
    } else if i == 27 {
        "bash"@
    } else if i == 28 {
        "hcl"@
    } else if i == 29 {
        "hcl"@
    } else if i == 30 {
        "hcl"@
    } else if i == 31 {
        "nginx"@
    } else if i == 32 {
        "bash"@
    } else if i == 33 {
        "bash"@
    } else if i == 34 {
        "bash"@
    } else if i == 35 {
        "bash"@
    } else if i == 36 {
        "batch"@
    } else if i == 37 {
        "batch"@
    } else if i == 38 {
        "powershell"@
    } else if i == 39 {
        "powershell"@
    } else if i == 40 {
        "c"@
    } else if i == 41 {
        "c"@
    } else if i == 42 {
        "cpp"@
    } else if i == 43 {
        "cpp"@
    } else if i == 44 {
        "cpp"@
    } else if i == 45 {
        "cpp"@
    } else if i == 46 {
        "cpp"@
    } else if i == 47 {
        "rust"@
    } else if i == 48 {
        "go"@
    } else if i == 49 {
        "zig"@
    } else if i == 50 {
        "java"@
    } else if i == 51 {
        "kotlin"@
    } else if i == 52 {
        "kotlin"@
    } else if i == 53 {
        "scala"@
    } else if i == 54 {
        "groovy"@
    } else if i == 55 {
        "groovy"@
    } else if i == 56 {
        "csharp"@
    } else if i == 57 {
        "fsharp"@
    } else if i == 58 {
        "fsharp"@
    } else if i == 59 {
        "visual-basic"@
    } else if i == 60 {
        "swift"@
    } else if i == 61 {
        "objectivec"@
    } else if i == 62 {
        "objectivec"@
    } else if i == 63 {
        "dart"@
    } else if i == 64 {
        "python"@
    } else if i == 65 {
        "python"@
    } else if i == 66 {
        "ruby"@
    } else if i == 67 {
        "php"@
    } else if i == 68 {
        "perl"@
    } else if i == 69 {
        "perl"@
    } else if i == 70 {
        "lua"@
    } else if i == 71 {
        "r"@
    } else if i == 72 {
        "julia"@
    } else if i == 73 {
        "elixir"@
    } else if i == 74 {
        "elixir"@
    } else if i == 75 {
        "erlang"@
    } else if i == 76 {
        "clojure"@
    } else if i == 77 {
        "clojure"@
    } else if i == 78 {
        "haskell"@
    } else if i == 79 {
        "ocaml"@
    } else if i == 80 {
        "ocaml"@
    } else if i == 81 {
        "elm"@
    } else if i == 82 {
        "lisp"@
    } else if i == 83 {
        "scheme"@
    } else if i == 84 {
        "scheme"@
    } else if i == 85 {
        "sql"@
    } else if i == 86 {
        "protobuf"@
    } else if i == 87 {
        "markdown"@
    } else if i == 88 {
        "markdown"@
    } else if i == 89 {
        "latex"@
    } else if i == 90 {
        "latex"@
    } else if i == 91 {
        "rest"@
    } else if i == 92 {
        "asciidoc"@
    } else if i == 93 {
        "pug"@
    } else if i == 94 {
        "handlebars"@
    } else if i == 95 {
        "handlebars"@
    } else if i == 96 {
        "ejs"@
    } else if i == 97 {
        "docker"@
    } else if i == 98 {
        "makefile"@
    } else if i == 99 {
        "cmake"@
    } else if i == 100 {
        "diff"@
    } else if i == 101 {
        "diff"@
    } else if i == 102 {
        "vim"@
    } else if i == 103 {
        "regex"@
    } else if i == 104 {
        "wasm"@
    } else if i == 105 {
        "plaintext"@
    } else if i == 106 {
        "plaintext"@
    } else {
        ""@
    }
}

fn ext_key_str(i: usize) -> (r: &'static str)
    requires
        i < 107,
    ensures
        r@ == ext_key(i as int),
{
    match i {
        0 => "js",
        1 => "mjs",
        2 => "cjs",
        3 => "ts",
        4 => "jsx",
        5 => "tsx",
        6 => "html",
        7 => "htm",
        8 => "xml",
        9 => "svg",
        10 => "css",
        11 => "scss",
        12 => "sass",
        13 => "less",
        14 => "json",
        15 => "jsonc",
        16 => "graphql",
        17 => "gql",
        18 => "vue",
        19 => "svelte",
        20 => "toml",
        21 => "yaml",
        22 => "yml",
        23 => "ini",
        24 => "cfg",
        25 => "conf",
        26 => "properties",
        27 => "env",
        28 => "hcl",
        29 => "tf",
        30 => "tfvars",
        31 => "nginx",
        32 => "sh",
        33 => "bash",
        34 => "zsh",
        35 => "fish",
        36 => "bat",
        37 => "cmd",
        38 => "ps1",
        39 => "psm1",
        40 => "c",
        41 => "h",
        42 => "cpp",
        43 => "cxx",
        44 => "cc",
        45 => "hpp",
        46 => "hxx",
        47 => "rs",
        48 => "go",
        49 => "zig",
        50 => "java",
        51 => "kt",
        52 => "kts",
        53 => "scala",
        54 => "groovy",
        55 => "gradle",
        56 => "cs",
        57 => "fs",
        58 => "fsx",
        59 => "vb",
        60 => "swift",
        61 => "m",
        62 => "mm",
        63 => "dart",
        64 => "py",
        65 => "pyw",
        66 => "rb",
        67 => "php",
        68 => "pl",
        69 => "pm",
        70 => "lua",
        71 => "r",
        72 => "jl",
        73 => "ex",
        74 => "exs",
        75 => "erl",
        76 => "clj",
        77 => "cljs",
        78 => "hs",
        79 => "ml",
        80 => "mli",
        81 => "elm",
        82 => "lisp",
        83 => "scm",
        84 => "rkt",
        85 => "sql",
        86 => "proto",
        87 => "md",
        88 => "markdown",
        89 => "tex",
        90 => "latex",
        91 => "rst",
        92 => "adoc",
        93 => "pug",
        94 => "handlebars",
        95 => "hbs",
        96 => "ejs",
        97 => "dockerfile",
        98 => "makefile",
        99 => "cmake",
        100 => "diff",
        101 => "patch",
        102 => "vim",
        103 => "regex",
        104 => "wasm",
        105 => "txt",
        _ => "log",
    }
}

fn ext_lang_str(i: usize) -> (r: &'static str)
    requires
        i < 107,
    ensures
        r@ == ext_lang(i as int),
{
    match i {
        0 => "javascript",
        1 => "javascript",
        2 => "javascript",
        3 => "typescript",
        4 => "jsx",
        5 => "tsx",
        6 => "markup",
        7 => "markup",
        8 => "markup",
        9 => "markup",
        10 => "css",
        11 => "scss",
        12 => "sass",
        13 => "less",
        14 => "json",
        15 => "json",
        16 => "graphql",
        17 => "graphql",
        18 => "markup",
        19 => "markup",
        20 => "toml",
        21 => "yaml",
        22 => "yaml",
        23 => "ini",
        24 => "ini",
        25 => "ini",
        26 => "properties",
        27 => "bash",
        28 => "hcl",
        29 => "hcl",
        30 => "hcl",
        31 => "nginx",
        32 => "bash",
        33 => "bash",
        34 => "bash",
        35 => "bash",
        36 => "batch",
        37 => "batch",
        38 => "powershell",
        39 => "powershell",
        40 => "c",
        41 => "c",
        42 => "cpp",
        43 => "cpp",
        44 => "cpp",
        45 => "cpp",
        46 => "cpp",
        47 => "rust",
        48 => "go",
        49 => "zig",
        50 => "java",
        51 => "kotlin",
        52 => "kotlin",
        53 => "scala",
        54 => "groovy",
        55 => "groovy",
        56 => "csharp",
        57 => "fsharp",
        58 => "fsharp",
        59 => "visual-basic",
        60 => "swift",
        61 => "objectivec",
        62 => "objectivec",
        63 => "dart",
        64 => "python",
        65 => "python",
        66 => "ruby",
        67 => "php",
        68 => "perl",
        69 => "perl",
        70 => "lua",
        71 => "r",
        72 => "julia",
        73 => "elixir",
        74 => "elixir",
        75 => "erlang",
        76 => "clojure",
        77 => "clojure",
        78 => "haskell",
        79 => "ocaml",
        80 => "ocaml",
        81 => "elm",
        82 => "lisp",
        83 => "scheme",
        84 => "scheme",
        85 => "sql",
        86 => "protobuf",
        87 => "markdown",
        88 => "markdown",
        89 => "latex",
        90 => "latex",
        91 => "rest",
        92 => "asciidoc",
        93 => "pug",
        94 => "handlebars",
        95 => "handlebars",
        96 => "ejs",
        97 => "docker",
        98 => "makefile",
        99 => "cmake",
        100 => "diff",
        101 => "diff",
        102 => "vim",
        103 => "regex",
        104 => "wasm",
        105 => "plaintext",
        _ => "plaintext",
    }
}

/// Whole file names with a Prism language, in table order.
pub open spec fn name_key(i: int) -> Seq<char> {
    if i == 0 {
        "Dockerfile"@
    } else if i == 1 {
        "Makefile"@
    } else if i == 2 {
        "Gemfile"@
    } else if i == 3 {
        "Rakefile"@
    } else if i == 4 {
        "CMakeLists.txt"@
    } else if i == 5 {
        "Vagrantfile"@
    } else if i == 6 {
        "Justfile"@
    } else if i == 7 {
        ".gitignore"@
    } else if i == 8 {
        ".gitattributes"@
    } else if i == 9 {
        ".editorconfig"@
    } else if i == 10 {
        ".dockerignore"@
    } else if i == 11 {
        ".bashrc"@
    } else if i == 12 {
        ".bash_profile"@
    } else if i == 13 {
        ".zshrc"@
    } else if i == 14 {
        ".profile"@
    } else {
        ""@
    }
}

/// The Prism language of the file name in the same row.
pub open spec fn name_lang(i: int) -> Seq<char> {
    if i == 0 {
        "docker"@
    } else if i == 1 {
        "makefile"@
    } else if i == 2 {
        "ruby"@
    } else if i == 3 {
        "ruby"@
    } else if i == 4 {
        "cmake"@
    } else if i == 5 {
        "ruby"@
    } else if i == 6 {
        "makefile"@
    } else if i == 7 {
        "git"@
    } else if i == 8 {
        "git"@
    } else if i == 9 {
        "editorconfig"@
    } else if i == 10 {
        "docker"@
    } else if i == 11 {
        "bash"@
    } else if i == 12 {
        "bash"@
    } else if i == 13 {
        "bash"@
    } else if i == 14 {
        "bash"@
    } else {
        ""@
    }
}

fn name_key_str(i: usize) -> (r: &'static str)
    requires
        i < 15,
    ensures
        r@ == name_key(i as int),
{
    match i {
        0 => "Dockerfile",
        1 => "Makefile",
        2 => "Gemfile",
        3 => "Rakefile",
        4 => "CMakeLists.txt",
        5 => "Vagrantfile",
        6 => "Justfile",
        7 => ".gitignore",
        8 => ".gitattributes",
        9 => ".editorconfig",
        10 => ".dockerignore",
        11 => ".bashrc",
        12 => ".bash_profile",
        13 => ".zshrc",
        _ => ".profile",
    }
}

fn name_lang_str(i: usize) -> (r: &'static str)
    requires
        i < 15,
    ensures
        r@ == name_lang(i as int),
{
    match i {
        0 => "docker",
        1 => "makefile",
        2 => "ruby",
        3 => "ruby",
        4 => "cmake",
        5 => "ruby",
        6 => "makefile",
        7 => "git",
        8 => "git",
        9 => "editorconfig",
        10 => "docker",
        11 => "bash",
        12 => "bash",
        13 => "bash",
        _ => "bash",
    }
}

/// The first row at or after `i` whose key is `k`, among `n` rows of `key`.
pub open spec fn ext_row(k: Seq<char>, i: int) -> Option<int>
    decreases 107 - i,
{
    if i < 0 || i >= 107 {
        None
    } else if ext_key(i) == k {
        Some(i)
    } else {
        ext_row(k, i + 1)
    }
}

pub open spec fn name_row(k: Seq<char>, i: int) -> Option<int>
    decreases 15 - i,
{
    if i < 0 || i >= 15 {
        None
    } else if name_key(i) == k {
        Some(i)
    } else {
        name_row(k, i + 1)
    }
}

/// Index of the last `c` in `s`.
pub open spec fn last_index(s: Seq<char>, c: char) -> Option<int>
    decreases s.len(),
{
    if s.len() == 0 {
        None
    } else if s.last() == c {
        Some(s.len() - 1)
    } else {
        last_index(s.drop_last(), c)
    }
}

proof fn lemma_last_index_bounds(s: Seq<char>, c: char)
    ensures
        last_index(s, c) matches Some(k) ==> 0 <= k < s.len() && s[k] == c,
    decreases s.len(),
{
    if s.len() > 0 && s.last() != c {
        lemma_last_index_bounds(s.drop_last(), c);
    }
}

fn find_last(v: &Vec<char>, c: char) -> (r: Option<usize>)
    ensures
        r matches Some(k) ==> last_index(v@, c) == Some(k as int),
        r is None ==> last_index(v@, c) is None,
{
    let mut j = v.len();
    assert(v@.take(j as int) == v@);
    while j > 0
        invariant
            j <= v.len(),
            last_index(v@, c) == last_index(v@.take(j as int), c),
        decreases j,
    {
        assert(v@.take(j as int).drop_last() == v@.take(j - 1));
        if v[j - 1] == c {
            return Some(j - 1);
        }
        j -= 1;
    }
    None
}

/// The part after the last `/`.
pub open spec fn basename(s: Seq<char>) -> Seq<char> {
    match last_index(s, '/') {
        Some(k) => s.skip(k + 1),
        None => s,
    }
}

/// The Prism language of an already lowercased extension: the first row of
/// the table with that extension, `plaintext` when there is none.
pub open spec fn spec_language_for_extension(ext: Seq<char>) -> Seq<char> {
    match ext_row(ext, 0) {
        Some(i) => ext_lang(i),
        None => "plaintext"@,
    }
}

/// The Prism language for a file name: a whole-name row for the part after
/// the last `/` wins; otherwise the lowercased extension after the last `.`
/// (a leading dot alone is no extension) is looked up.
pub open spec fn spec_language_for_file(f: Seq<char>) -> Seq<char> {
    let b = basename(f);
    match name_row(b, 0) {
        Some(i) => name_lang(i),
        None => match last_index(b, '.') {
            Some(k) => if k > 0 {
                spec_language_for_extension(str_lowercase(b.skip(k + 1)))
            } else {
                "plaintext"@
            },
            None => "plaintext"@,
        },
    }
}

/// The Prism language of a lowercased extension (see
/// `spec_language_for_extension`).
pub fn language_for_extension(ext: &str) -> (r: &'static str)
    ensures
        r@ == spec_language_for_extension(ext@),
{
    let e = chars_of(ext);
    let mut i: usize = 0;
    while i < EXT_ROWS
        invariant
            i <= 107,
            e@ == ext@,
            ext_row(ext@, 0) == ext_row(ext@, i as int),
        decreases 107 - i,
    {
        if eq_lit(&e, ext_key_str(i)) {
            return ext_lang_str(i);
        }
        i += 1;
    }
    "plaintext"
}

/// Resolve the Prism language for a file name.
pub fn language_for_file(file_name: &str) -> (r: &'static str)
    ensures
        r@ == spec_language_for_file(file_name@),
{
    let f = chars_of(file_name);
    let ghost fv = f@;
    let b = match find_last(&f, '/') {
        Some(k) => {
            proof {
                lemma_last_index_bounds(f@, '/');
            }
            slice_of(&f, k + 1, f.len())
        },
        None => f,
    };
    assert(b@ == basename(fv));
    let mut i: usize = 0;
    while i < NAME_ROWS
        invariant
            i <= 15,
            b@ == basename(file_name@),
            name_row(b@, 0) == name_row(b@, i as int),
        decreases 15 - i,
    {
        if eq_lit(&b, name_key_str(i)) {
            return name_lang_str(i);
        }
        i += 1;
    }
    match find_last(&b, '.') {
        Some(k) => {
            proof {
                lemma_last_index_bounds(b@, '.');
            }
            if k > 0 {
                let ext = slice_of(&b, k + 1, b.len());
                let ext_s = crate::text::string_of(&ext);
                let lower = to_lowercase(ext_s.as_str());
                language_for_extension(lower.as_str())
            } else {
                "plaintext"
            }
        },
        None => "plaintext",
    }
}

/// `s` ends with `suffix`.
pub open spec fn ends_with(s: Seq<char>, suffix: Seq<char>) -> bool {
    s.len() >= suffix.len() && s.skip(s.len() - suffix.len()) == suffix
}

fn ends_with_lit(v: &Vec<char>, suffix: &str) -> (r: bool)
    ensures
        r == ends_with(v@, suffix@),
{
    let w = chars_of(suffix);
    if v.len() < w.len() {
        return false;
    }
    let tail = slice_of(v, v.len() - w.len(), v.len());
    assert(tail@ == v@.skip(v.len() - w.len()));
    crate::text::chars_eq(&tail, &w)
}

/// A lowercased file name ends in `.md` or `.markdown`.
pub fn has_markdown_suffix(lower: &str) -> (r: bool)
    ensures
        r == (ends_with(lower@, ".md"@) || ends_with(lower@, ".markdown"@)),
{
    let v = chars_of(lower);
    ends_with_lit(&v, ".md") || ends_with_lit(&v, ".markdown")
}

/// A lowercased file name ends in `.html` or `.htm`.
pub fn has_html_suffix(lower: &str) -> (r: bool)
    ensures
        r == (ends_with(lower@, ".html"@) || ends_with(lower@, ".htm"@)),
{
    let v = chars_of(lower);
    ends_with_lit(&v, ".html") || ends_with_lit(&v, ".htm")
}

/// Markdown documents: `.md` / `.markdown`, in any case.
pub open spec fn spec_is_markdown(f: Seq<char>) -> bool {
    ends_with(str_lowercase(f), ".md"@) || ends_with(str_lowercase(f), ".markdown"@)
}

/// HTML documents: `.html` / `.htm`, in any case.
pub open spec fn spec_is_html(f: Seq<char>) -> bool {
    ends_with(str_lowercase(f), ".html"@) || ends_with(str_lowercase(f), ".htm"@)
}

/// Markdown documents: `.md` / `.markdown`, in any case.
pub fn is_markdown(file_name: &str) -> (r: bool)
    ensures
        r == spec_is_markdown(file_name@),
{
    let lower = to_lowercase(file_name);
    has_markdown_suffix(lower.as_str())
}

/// HTML files render as documents, not as highlighted markup.
pub fn is_html(file_name: &str) -> (r: bool)
    ensures
        r == spec_is_html(file_name@),
{
    let lower = to_lowercase(file_name);
    has_html_suffix(lower.as_str())
}

// ---------------------------------------------------------------------
// laws of the language table
// ---------------------------------------------------------------------

/// Whether `c` occurs in `s`.
pub open spec fn holds_char(s: Seq<char>, c: char) -> bool {
    exists|k: int| 0 <= k < s.len() && s[k] == c
}

proof fn lemma_last_index_after(p: Seq<char>, t: Seq<char>, c: char)
    requires
        p.len() > 0,
        p.last() == c,
        !holds_char(t, c),
    ensures
        last_index(p + t, c) == Some(p.len() - 1),
    decreases t.len(),
{
    if t.len() == 0 {
        assert(p + t == p);
    } else {
        assert((p + t).drop_last() == p + t.drop_last());
        assert((p + t).last() == t.last());
        assert(t.last() != c) by {
            if t.last() == c {
                assert(t[t.len() - 1] == c);
            }
        }
        assert(!holds_char(t.drop_last(), c)) by {
            if holds_char(t.drop_last(), c) {
                let k = choose|k: int| 0 <= k < t.drop_last().len() && t.drop_last()[k] == c;
                assert(t[k] == c);
            }
        }
        lemma_last_index_after(p, t.drop_last(), c);
    }
}

proof fn lemma_last_index_none(t: Seq<char>, c: char)
    requires
        !holds_char(t, c),
    ensures
        last_index(t, c) is None,
    decreases t.len(),
{
    if t.len() > 0 {
        assert(t.last() != c) by {
            if t.last() == c {
                assert(t[t.len() - 1] == c);
            }
        }
        assert(!holds_char(t.drop_last(), c)) by {
            if holds_char(t.drop_last(), c) {
                let k = choose|k: int| 0 <= k < t.drop_last().len() && t.drop_last()[k] == c;
                assert(t[k] == c);
            }
        }
        lemma_last_index_none(t.drop_last(), c);
    }
}

/// Only the part of a path after its last `/` picks the language: a file
/// name means the same in any directory.
pub proof fn lemma_language_ignores_directory(dir: Seq<char>, f: Seq<char>)
    requires
        !holds_char(f, '/'),
    ensures
        spec_language_for_file(dir + seq!['/'] + f) == spec_language_for_file(f),
{
    let p = dir + seq!['/'];
    assert(dir + seq!['/'] + f == p + f);
    lemma_last_index_after(p, f, '/');
    assert((p + f).skip(p.len() as int) == f);
    lemma_last_index_none(f, '/');
}

/// The extension is looked up lowercased: two names with the same stem
/// whose extensions lowercase alike (`str_lowercase`, the mapping of
/// `str::to_lowercase`) get the same language, unless a whole-name row
/// takes one of them.
pub proof fn lemma_language_by_lowercase_extension(stem: Seq<char>, e1: Seq<char>, e2: Seq<char>)
    requires
        stem.len() > 0,
        !holds_char(stem, '/'),
        !holds_char(e1, '/'),
        !holds_char(e2, '/'),
        !holds_char(e1, '.'),
        !holds_char(e2, '.'),
        str_lowercase(e1) == str_lowercase(e2),
        name_row(stem + seq!['.'] + e1, 0) is None,
        name_row(stem + seq!['.'] + e2, 0) is None,
    ensures
        spec_language_for_file(stem + seq!['.'] + e1) == spec_language_for_file(
            stem + seq!['.'] + e2,
        ),
{
    let p = stem + seq!['.'];
    assert(stem + seq!['.'] + e1 == p + e1);
    assert(stem + seq!['.'] + e2 == p + e2);
    assert(!holds_char(p + e1, '/')) by {
        if holds_char(p + e1, '/') {
            let k = choose|k: int| 0 <= k < (p + e1).len() && (p + e1)[k] == '/';
            if k < stem.len() {
                assert(stem[k] == '/');
            } else if k > stem.len() {
                assert(e1[k - p.len()] == '/');
            }
        }
    }
    assert(!holds_char(p + e2, '/')) by {
        if holds_char(p + e2, '/') {
            let k = choose|k: int| 0 <= k < (p + e2).len() && (p + e2)[k] == '/';
            if k < stem.len() {
                assert(stem[k] == '/');
            } else if k > stem.len() {
                assert(e2[k - p.len()] == '/');
            }
        }
    }
    lemma_last_index_none(p + e1, '/');
    lemma_last_index_none(p + e2, '/');
    lemma_last_index_after(p, e1, '.');
    lemma_last_index_after(p, e2, '.');
    assert((p + e1).skip(p.len() as int) == e1);
    assert((p + e2).skip(p.len() as int) == e2);
}

} // verus!
