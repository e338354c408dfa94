//! The rules of directory indexing: which directories and files are
//! skipped, which files count as text, and the room, wing and stored text
//! of an indexed file. Walking the directory and reading files is left to
//! the caller.
use vstd::prelude::*;
use crate::import_sessions::{trim_dash_end, trim_dash_start, trim_dashes};
use crate::store::{replace_all, replaced};
use crate::text::{
    append_chars, append_str, chars_of, eq_str, is_alnum, lower, pieces, prefix, split_char,
    starts_with, starts_with_str, string_of, strs, take_chars, trim_chars, trimmed, views,
};

verus! {

/// Directory names that are always skipped.
pub const SKIP_DIRS: [&'static str; 26] = [
    "node_modules",
    "target",
    "__pycache__",
    ".venv",
    "venv",
    ".env",
    "vendor",
    "dist",
    "build",
    ".build",
    "out",
    ".next",
    ".nuxt",
    ".svelte-kit",
    "coverage",
    ".nyc_output",
    ".pytest_cache",
    ".mypy_cache",
    ".ruff_cache",
    "buck-out",
    "bazel-out",
    ".gradle",
    ".idea",
    ".vscode",
    "pods",
    "deriveddata",
];

/// File names (compared in lower case) that are always skipped.
pub const SKIP_FILES: [&'static str; 13] = [
    "package-lock.json",
    "yarn.lock",
    "pnpm-lock.yaml",
    "bun.lockb",
    "cargo.lock",
    "go.sum",
    "gemfile.lock",
    "poetry.lock",
    "composer.lock",
    "pipfile.lock",
    "packages.lock.json",
    "project.assets.json",
    "npm-shrinkwrap.json",
];

/// File extensions treated as text unless MEMPALACE_EXTENSIONS says
/// otherwise.
pub const DEFAULT_TEXT_EXTENSIONS: [&'static str; 74] = [
    "rs",
    "c",
    "cpp",
    "cc",
    "cxx",
    "c++",
    "h",
    "hpp",
    "hh",
    "go",
    "py",
    "js",
    "mjs",
    "cjs",
    "ts",
    "tsx",
    "jsx",
    "html",
    "htm",
    "css",
    "scss",
    "sass",
    "less",
    "json",
    "toml",
    "yaml",
    "yml",
    "md",
    "mdx",
    "markdown",
    "txt",
    "sh",
    "bash",
    "zsh",
    "fish",
    "rb",
    "java",
    "kt",
    "kts",
    "swift",
    "lua",
    "sql",
    "env",
    "gitignore",
    "dockerfile",
    "makefile",
    "cmake",
    "nix",
    "vim",
    "el",
    "ex",
    "exs",
    "erl",
    "hrl",
    "hs",
    "lhs",
    "ml",
    "mli",
    "clj",
    "cljs",
    "scala",
    "cs",
    "fs",
    "fsi",
    "php",
    "r",
    "jl",
    "tf",
    "tfvars",
    "proto",
    "graphql",
    "gql",
    "svelte",
    "vue",
];

/// Extensionless file names that are indexed as text.
pub const TEXT_FILE_NAMES: [&'static str; 6] = [
    "makefile",
    "dockerfile",
    "readme",
    "license",
    "gitignore",
    "gitattributes",
];

/// Largest file that is indexed, in bytes (500 KB).
pub const MAX_FILE_BYTES: u64 = 512000;

/// Characters of a file kept in its drawer.
pub const MAX_CONTENT_CHARS: usize = 4000;

/// What `str::to_lowercase` returns for `s` (Unicode lower case).
pub uninterp spec fn lowercase_of(s: Seq<char>) -> Seq<char>;

/// `str::to_lowercase`. Its result is named (`lowercase_of`); the Unicode
/// case tables are not restated.
#[verifier::external_body]
fn to_lowercase(s: &str) -> (r: String)
    ensures
        r@ == lowercase_of(s@),
{
    s.to_lowercase()
}

pub open spec fn in_list<const N: usize>(list: [&'static str; N], s: Seq<char>) -> bool {
    exists|i: int| 0 <= i < N && s == #[trigger] list[i]@
}

fn in_skip_dirs(s: &[char]) -> (b: bool)
    ensures
        b == in_list(SKIP_DIRS, s@),
{
    let mut i: usize = 0;
    while i < 26
        invariant
            i <= 26,
            forall|j: int| 0 <= j < i ==> s@ != #[trigger] SKIP_DIRS[j]@,
        decreases 26 - i,
    {
        if eq_str(s, SKIP_DIRS[i]) {
            return true;
        }
        i = i + 1;
    }
    false
}

fn in_skip_files(s: &[char]) -> (b: bool)
    ensures
        b == in_list(SKIP_FILES, s@),
{
    let mut i: usize = 0;
    while i < 13
        invariant
            i <= 13,
            forall|j: int| 0 <= j < i ==> s@ != #[trigger] SKIP_FILES[j]@,
        decreases 13 - i,
    {
        if eq_str(s, SKIP_FILES[i]) {
            return true;
        }
        i = i + 1;
    }
    false
}

fn in_text_names(s: &[char]) -> (b: bool)
    ensures
        b == in_list(TEXT_FILE_NAMES, s@),
{
    let mut i: usize = 0;
    while i < 6
        invariant
            i <= 6,
            forall|j: int| 0 <= j < i ==> s@ != #[trigger] TEXT_FILE_NAMES[j]@,
        decreases 6 - i,
    {
        if eq_str(s, TEXT_FILE_NAMES[i]) {
            return true;
        }
        i = i + 1;
    }
    false
}

/// A directory is pruned when it is hidden or a known build or dependency
/// directory (compared in lower case).
pub open spec fn skips_dir(name: Seq<char>) -> bool {
    starts_with(name, "."@) || in_list(SKIP_DIRS, lowercase_of(name))
}

/// The same, given the name and its lower-case form.
pub fn skip_dir_lowered(name: &str, lowered: &str) -> (b: bool)
    ensures
        b == (starts_with(name@, "."@) || in_list(SKIP_DIRS, lowered@)),
{
    starts_with_str(&chars_of(name), ".") || in_skip_dirs(&chars_of(lowered))
}

pub fn skip_dir(name: &str) -> (b: bool)
    ensures
        b == skips_dir(name@),
{
    skip_dir_lowered(name, to_lowercase(name).as_str())
}

/// A file is skipped when it is hidden or a known lock file (compared in
/// lower case).
pub open spec fn skips_file(name: Seq<char>) -> bool {
    starts_with(name, "."@) || in_list(SKIP_FILES, lowercase_of(name))
}

/// The same, given the name and its lower-case form.
pub fn skip_file_lowered(name: &str, lowered: &str) -> (b: bool)
    ensures
        b == (starts_with(name@, "."@) || in_list(SKIP_FILES, lowered@)),
{
    starts_with_str(&chars_of(name), ".") || in_skip_files(&chars_of(lowered))
}

pub fn skip_file(name: &str) -> (b: bool)
    ensures
        b == skips_file(name@),
{
    skip_file_lowered(name, to_lowercase(name).as_str())
}

/// A file is small enough, and not empty.
pub fn size_ok(len: u64) -> (b: bool)
    ensures
        b == (0 < len <= MAX_FILE_BYTES),
{
    len > 0 && len <= MAX_FILE_BYTES
}

/// A file counts as text by its extension (in lower case) or, with no
/// extension, by its lower-cased name.
pub open spec fn text_file(name: Seq<char>, ext: Option<Seq<char>>, extensions: Seq<Seq<char>>) -> bool {
    match ext {
        Some(e) => extensions.contains(lowercase_of(e)),
        None => in_list(TEXT_FILE_NAMES, lowercase_of(name)),
    }
}

/// Whether a lower-cased extension is in the list.
pub fn has_extension(lowered_ext: &str, extensions: &[String]) -> (b: bool)
    ensures
        b == strs(extensions@).contains(lowered_ext@),
{
    let l = chars_of(lowered_ext);
    let ghost es = strs(extensions@);
    for i in 0..extensions.len()
        invariant
            es == strs(extensions@),
            l@ == lowered_ext@,
            forall|j: int| 0 <= j < i ==> es[j] != l@,
    {
        let x = chars_of(extensions[i].as_str());
        if crate::text::eq_chars(&x, &l) {
            assert(es[i as int] == l@);
            assert(es.contains(l@));
            return true;
        }
    }
    assert(!es.contains(l@));
    false
}

/// Whether a lower-cased file name is one of the extensionless text names.
pub fn is_text_name(lowered_name: &str) -> (b: bool)
    ensures
        b == in_list(TEXT_FILE_NAMES, lowered_name@),
{
    in_text_names(&chars_of(lowered_name))
}

pub fn is_text_file(name: &str, ext: Option<&str>, extensions: &[String]) -> (b: bool)
    ensures
        b == text_file(
            name@,
            match ext {
                Some(e) => Some(e@),
                None => None,
            },
            strs(extensions@),
        ),
{
    match ext {
        Some(e) => has_extension(to_lowercase(e).as_str(), extensions),
        None => is_text_name(to_lowercase(name).as_str()),
    }
}

// ── rooms, wings, stored text ───────────────────────────────────────────────
pub open spec fn path_slug_char(c: char) -> char {
    if is_alnum(c) {
        lower(c)
    } else {
        '-'
    }
}

/// A relative path as a room name: ASCII letters and digits in lower case,
/// everything else a dash, dashes trimmed from both ends ("src/db.rs" gives
/// "src-db-rs").
pub open spec fn path_slug(path: Seq<char>) -> Seq<char> {
    trim_dash_end(trim_dash_start(path.map_values(|c: char| path_slug_char(c))))
}

pub fn slugify_path(path: &str) -> (r: String)
    ensures
        r@ == path_slug(path@),
{
    let v = chars_of(path);
    let mut m: Vec<char> = Vec::new();
    for i in 0..v.len()
        invariant
            m@ == v@.take(i as int).map_values(|c: char| path_slug_char(c)),
    {
        let c = v[i];
        let d = if ('a' <= c && c <= 'z') || ('0' <= c && c <= '9') {
            c
        } else if 'A' <= c && c <= 'Z' {
            crate::text::lower_exec(c)
        } else {
            '-'
        };
        m.push(d);
        assert(v@.take(i + 1).map_values(|c: char| path_slug_char(c)) =~= v@.take(i as int).map_values(
            |c: char| path_slug_char(c),
        ).push(path_slug_char(c)));
    }
    assert(v@.take(v.len() as int) =~= v@);
    string_of(&trim_dashes(&m))
}

/// The wing of an indexed directory: its name in lower case with spaces
/// as underscores, or "files" when it has no (UTF-8) name.
pub open spec fn wing_name_text(dir_name: Option<Seq<char>>) -> Seq<char> {
    match dir_name {
        Some(n) => replaced(lowercase_of(n), " "@, "_"@),
        None => "files"@,
    }
}

/// The wing of a directory whose name, lower-cased, is `lowered`.
pub fn wing_from_lowered(lowered: &str) -> (r: String)
    ensures
        r@ == replaced(lowered@, " "@, "_"@),
{
    replace_all(lowered, " ", "_")
}

pub fn wing_name(dir_name: Option<&str>) -> (r: String)
    ensures
        r@ == wing_name_text(
            match dir_name {
                Some(n) => Some(n@),
                None => None,
            },
        ),
{
    match dir_name {
        Some(n) => wing_from_lowered(to_lowercase(n).as_str()),
        None => string_of(&chars_of("files")),
    }
}

/// The text stored for a file: a "FILE: <path>" header, a blank line, and
/// the first 4000 characters of the file; nothing for a file that is only
/// whitespace.
pub open spec fn stored_text(path: Seq<char>, content: Seq<char>) -> Option<Seq<char>> {
    if trimmed(content).len() == 0 {
        None
    } else {
        Some("FILE: "@ + path + "\n\n"@ + prefix(content, MAX_CONTENT_CHARS as int))
    }
}

pub fn stored_content(path: &str, content: &str) -> (r: Option<String>)
    ensures
        match r {
            Some(s) => stored_text(path@, content@) == Some(s@),
            None => stored_text(path@, content@) is None,
        },
{
    let v = chars_of(content);
    if trim_chars(&v).len() == 0 {
        return None;
    }
    let mut c: Vec<char> = Vec::new();
    append_str(&mut c, "FILE: ");
    append_str(&mut c, path);
    append_str(&mut c, "\n\n");
    append_chars(&mut c, &take_chars(&v, MAX_CONTENT_CHARS));
    Some(string_of(&c))
}

/// The non-empty texts, in order.
pub open spec fn non_empty(parts: Seq<Seq<char>>) -> Seq<Seq<char>>
    decreases parts.len(),
{
    if parts.len() == 0 {
        Seq::empty()
    } else {
        let rest = non_empty(parts.drop_last());
        if parts.last().len() > 0 {
            rest.push(parts.last())
        } else {
            rest
        }
    }
}

pub open spec fn default_extensions() -> Seq<Seq<char>> {
    Seq::new(74, |i: int| DEFAULT_TEXT_EXTENSIONS[i]@)
}

/// The extension list from the lower-cased, trimmed parts of
/// MEMPALACE_EXTENSIONS: the non-empty ones, or the default list when none
/// is left.
pub open spec fn extension_list(lowered: Seq<Seq<char>>) -> Seq<Seq<char>> {
    if non_empty(lowered).len() > 0 {
        non_empty(lowered)
    } else {
        default_extensions()
    }
}

/// The extension list: MEMPALACE_EXTENSIONS split at commas, each part
/// trimmed and lower-cased, empty parts dropped; the default list when that
/// leaves nothing (or the variable is not set).
pub open spec fn active_extension_list(raw: Option<Seq<char>>) -> Seq<Seq<char>> {
    match raw {
        Some(v) => extension_list(
            pieces(v, ',').map_values(|p: Seq<char>| lowercase_of(trimmed(p))),
        ),
        None => default_extensions(),
    }
}

fn default_extension_vec() -> (d: Vec<String>)
    ensures
        strs(d@) == default_extensions(),
{
    let mut d: Vec<String> = Vec::new();
    for i in 0..74
        invariant
            d@.len() == i,
            forall|j: int| 0 <= j < i ==> #[trigger] d@[j]@ == DEFAULT_TEXT_EXTENSIONS[j]@,
    {
        d.push(string_of(&chars_of(DEFAULT_TEXT_EXTENSIONS[i])));
    }
    assert(strs(d@) =~= default_extensions());
    d
}

/// The extension list from parts already trimmed and lower-cased (see
/// `extension_list`).
pub fn extensions_from_lowered(lowered: &[String]) -> (r: Vec<String>)
    ensures
        strs(r@) == extension_list(strs(lowered@)),
{
    let ghost ps = strs(lowered@);
    let mut r: Vec<String> = Vec::new();
    assert(ps.take(0) =~= Seq::<Seq<char>>::empty());
    assert(strs(r@) =~= Seq::<Seq<char>>::empty());
    for i in 0..lowered.len()
        invariant
            ps == strs(lowered@),
            strs(r@) == non_empty(ps.take(i as int)),
    {
        assert(ps.take(i + 1).drop_last() =~= ps.take(i as int));
        assert(ps.take(i + 1).last() == lowered@[i as int]@);
        let e = chars_of(lowered[i].as_str());
        if e.len() > 0 {
            let ghost r0 = strs(r@);
            r.push(string_of(&e));
            assert(strs(r@) =~= r0.push(ps[i as int]));
        }
    }
    assert(ps.take(lowered.len() as int) =~= ps);
    if r.len() > 0 {
        r
    } else {
        default_extension_vec()
    }
}

pub fn active_extensions(raw: Option<&str>) -> (r: Vec<String>)
    ensures
        strs(r@) == active_extension_list(
            match raw {
                Some(v) => Some(v@),
                None => None,
            },
        ),
{
    match raw {
        Some(v) => {
            let parts = split_char(&chars_of(v), ',');
            let ghost ps = views(parts@);
            let mut lowered: Vec<String> = Vec::new();
            for i in 0..parts.len()
                invariant
                    ps == views(parts@),
                    lowered@.len() == i,
                    forall|j: int|
                        0 <= j < i ==> #[trigger] lowered@[j]@ == lowercase_of(trimmed(ps[j])),
            {
                let t = string_of(&trim_chars(&parts[i]));
                lowered.push(to_lowercase(t.as_str()));
            }
            assert(strs(lowered@) =~= ps.map_values(
                |p: Seq<char>| lowercase_of(trimmed(p)),
            ));
            extensions_from_lowered(&lowered)
        },
        None => default_extension_vec(),
    }
}

} // verus!
