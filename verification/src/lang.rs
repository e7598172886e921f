//! Language definitions and comment markers. Keeps the set of
//! supported languages in one table so the rest of the crate does
//! not need to know what `.py` means.

use vstd::prelude::*;

use crate::text::{append, ascii_lowercase, chars_eq, chars_of, lowercase, string_of};

verus! {

/// Languages parfit knows how to parse. `Text` is the fallback:
/// whole-input paragraph reflow, no code / comment distinction.
#[derive(Clone, Copy, Debug, PartialEq, Eq, Structural)]
pub enum Language {
    Text,
    Python,
    Shell,
    Elixir,
    Go,
    Rust,
    JavaScript,
    Java,
    Scala,
    C,
    Lua,
    SQL,
    Lisp,
    Markdown,
}

/// A paired-delimiter region: an `open` string and a matching
/// `close`.  Used in [`Spec`] for two opposite purposes — Markdown
/// code fences (pass the contents through verbatim) and C-family
/// block comments (reflow the contents as prose).  The field name
/// in [`Spec`] picks the treatment; the shape is identical.
#[derive(Clone, Copy, Debug)]
pub struct Fence {
    pub open: &'static str,
    pub close: &'static str,
}

impl View for Fence {
    type V = (Seq<char>, Seq<char>);

    open spec fn view(&self) -> (Seq<char>, Seq<char>) {
        (self.open@, self.close@)
    }
}

/// Per-language markers the reflow pipeline consults.
///
/// * `line_markers` — a line that starts (after indent) with one
///   of these is a line-comment line. Source-mode gathers runs of
///   those lines and reflows them as prose.
///
/// * `ignore_markers` — a line that starts (after indent) with
///   one of these passes through verbatim. Used for structural
///   markup that must not be reflowed: Markdown headings, list
///   bullets, blockquote arrows, table rows.
///
/// * `fences` — paired-delimiter regions whose contents pass
///   through verbatim.  Markdown code fences today.
///
/// * `block_comments` — paired-delimiter regions whose contents
///   are prose and reflow.  The inverse of `fences`: same type,
///   opposite treatment.  C-family `/* … */` is the canonical case.
#[derive(Clone, Copy, Debug)]
pub struct Spec {
    pub line_markers: &'static [&'static str],
    pub ignore_markers: &'static [&'static str],
    pub fences: &'static [Fence],
    pub block_comments: &'static [Fence],
}

/// The markers of a [`Spec`], as character sequences.
#[verifier::ext_equal]
pub struct SpecView {
    pub line_markers: Seq<Seq<char>>,
    pub ignore_markers: Seq<Seq<char>>,
    pub fences: Seq<(Seq<char>, Seq<char>)>,
    pub block_comments: Seq<(Seq<char>, Seq<char>)>,
}

pub open spec fn str_views(s: Seq<&'static str>) -> Seq<Seq<char>> {
    s.map_values(|m: &'static str| m@)
}

pub open spec fn fence_views(s: Seq<Fence>) -> Seq<(Seq<char>, Seq<char>)> {
    s.map_values(|f: Fence| f@)
}

impl View for Spec {
    type V = SpecView;

    open spec fn view(&self) -> SpecView {
        SpecView {
            line_markers: str_views(self.line_markers@),
            ignore_markers: str_views(self.ignore_markers@),
            fences: fence_views(self.fences@),
            block_comments: fence_views(self.block_comments@),
        }
    }
}

/// C-family block comments.
pub open spec fn c_block() -> Seq<(Seq<char>, Seq<char>)> {
    seq![("/*"@, "*/"@)]
}

/// A language whose markers are only the given line-comment markers.
pub open spec fn line_only(markers: Seq<Seq<char>>) -> SpecView {
    SpecView { line_markers: markers, ignore_markers: seq![], fences: seq![], block_comments: seq![] }
}

/// A language with the given line-comment markers and C-family block
/// comments.
pub open spec fn line_and_block(markers: Seq<Seq<char>>) -> SpecView {
    SpecView {
        line_markers: markers,
        ignore_markers: seq![],
        fences: seq![],
        block_comments: c_block(),
    }
}

/// The marker table.
pub open spec fn language_spec(l: Language) -> SpecView {
    match l {
        Language::Text => line_only(seq![]),
        Language::Python => line_only(seq!["#"@]),
        Language::Shell => line_only(seq!["#"@]),
        Language::Elixir => line_only(seq!["#"@]),
        Language::Go => line_and_block(seq!["//"@]),
        Language::Rust => line_and_block(seq!["//"@, "///"@, "//!"@]),
        Language::JavaScript => line_and_block(seq!["//"@]),
        Language::Java => line_and_block(seq!["//"@]),
        Language::Scala => line_and_block(seq!["//"@]),
        Language::C => line_and_block(seq!["//"@]),
        Language::Lua => line_only(seq!["--"@]),
        Language::SQL => line_only(seq!["--"@]),
        Language::Lisp => line_only(seq![";;"@, ";"@]),
        Language::Markdown => SpecView {
            line_markers: seq![],
            ignore_markers: seq!["#"@, "- "@, "* "@, "+ "@, "> "@, "|"@],
            fences: seq![("```"@, "```"@), ("~~~"@, "~~~"@)],
            block_comments: seq![],
        },
    }
}

/// Language for a (lower-cased) file extension.
pub open spec fn language_for_extension(ext: Seq<char>) -> Language {
    if ext == "py"@ || ext == "pyi"@ {
        Language::Python
    } else if ext == "sh"@ || ext == "bash"@ || ext == "zsh"@ || ext == "ksh"@ || ext == "fish"@ {
        Language::Shell
    } else if ext == "ex"@ || ext == "exs"@ {
        Language::Elixir
    } else if ext == "go"@ {
        Language::Go
    } else if ext == "rs"@ {
        Language::Rust
    } else if ext == "js"@ || ext == "mjs"@ || ext == "cjs"@ || ext == "jsx"@ || ext == "ts"@
        || ext == "tsx"@ {
        Language::JavaScript
    } else if ext == "java"@ {
        Language::Java
    } else if ext == "scala"@ || ext == "sc"@ {
        Language::Scala
    } else if ext == "c"@ || ext == "h"@ || ext == "cc"@ || ext == "cpp"@ || ext == "cxx"@ || ext
        == "hpp"@ || ext == "hh"@ || ext == "m"@ || ext == "mm"@ {
        Language::C
    } else if ext == "lua"@ {
        Language::Lua
    } else if ext == "sql"@ {
        Language::SQL
    } else if ext == "el"@ || ext == "lisp"@ || ext == "clj"@ || ext == "cljs"@ || ext == "cljc"@
        || ext == "scm"@ || ext == "ss"@ || ext == "rkt"@ {
        Language::Lisp
    } else if ext == "md"@ || ext == "markdown"@ || ext == "mkd"@ {
        Language::Markdown
    } else {
        Language::Text
    }
}

/// Language for a (lower-cased) language name, if it is one.
pub open spec fn language_named(n: Seq<char>) -> Option<Language> {
    if n == "text"@ || n == "txt"@ || n == "plain"@ {
        Some(Language::Text)
    } else if n == "python"@ || n == "py"@ {
        Some(Language::Python)
    } else if n == "shell"@ || n == "sh"@ || n == "bash"@ {
        Some(Language::Shell)
    } else if n == "elixir"@ || n == "ex"@ {
        Some(Language::Elixir)
    } else if n == "go"@ {
        Some(Language::Go)
    } else if n == "rust"@ || n == "rs"@ {
        Some(Language::Rust)
    } else if n == "javascript"@ || n == "js"@ || n == "typescript"@ || n == "ts"@ {
        Some(Language::JavaScript)
    } else if n == "java"@ {
        Some(Language::Java)
    } else if n == "scala"@ {
        Some(Language::Scala)
    } else if n == "c"@ || n == "cpp"@ || n == "c++"@ {
        Some(Language::C)
    } else if n == "lua"@ {
        Some(Language::Lua)
    } else if n == "sql"@ {
        Some(Language::SQL)
    } else if n == "lisp"@ || n == "clojure"@ || n == "scheme"@ || n == "racket"@ {
        Some(Language::Lisp)
    } else if n == "markdown"@ || n == "md"@ {
        Some(Language::Markdown)
    } else {
        None
    }
}

/// The extension of a path, as `Path::extension` finds it: the part
/// of the file name after its last `.`, if the name has a `.` that is
/// not its first character.
pub uninterp spec fn path_extension(path: Seq<char>) -> Option<Seq<char>>;

/// `Path::extension`, on the path spelled by `path`, returned as text.
/// Claimed: the result is `path_extension(path@)`; nothing more about
/// it is claimed.
#[verifier::external_body]
fn extension_of(path: &str) -> (r: Option<String>)
    ensures
        match r {
            Some(e) => path_extension(path@) == Some(e@),
            None => path_extension(path@) is None,
        },
{
    match std::path::Path::new(path).extension() {
        Some(e) => Some(e.to_string_lossy().into_owned()),
        None => None,
    }
}

/// `s == lit`.
fn is(s: &Vec<char>, lit: &'static str) -> (r: bool)
    ensures
        r == (s@ == lit@),
{
    chars_eq(s, &chars_of(lit))
}

impl Language {
    pub fn spec(self) -> (r: Spec)
        ensures
            r@ == language_spec(self),
    {
        match self {
            Language::Text => {
                let r = Spec { line_markers: &[], ignore_markers: &[], fences: &[], block_comments: &[] };
                assert(r@ =~= language_spec(self));
                r
            },
            Language::Python => Spec {
                line_markers: &["#"],
                ignore_markers: &[],
                fences: &[],
                block_comments: &[],
            },
            Language::Shell => Spec {
                line_markers: &["#"],
                ignore_markers: &[],
                fences: &[],
                block_comments: &[],
            },
            Language::Elixir => Spec {
                line_markers: &["#"],
                ignore_markers: &[],
                fences: &[],
                block_comments: &[],
            },
            Language::Go => Spec {
                line_markers: &["//"],
                ignore_markers: &[],
                fences: &[],
                block_comments: &[Fence { open: "/*", close: "*/" }],
            },
            Language::Rust => Spec {
                line_markers: &["//", "///", "//!"],
                ignore_markers: &[],
                fences: &[],
                block_comments: &[Fence { open: "/*", close: "*/" }],
            },
            Language::JavaScript => Spec {
                line_markers: &["//"],
                ignore_markers: &[],
                fences: &[],
                block_comments: &[Fence { open: "/*", close: "*/" }],
            },
            Language::Java => Spec {
                line_markers: &["//"],
                ignore_markers: &[],
                fences: &[],
                block_comments: &[Fence { open: "/*", close: "*/" }],
            },
            Language::Scala => Spec {
                line_markers: &["//"],
                ignore_markers: &[],
                fences: &[],
                block_comments: &[Fence { open: "/*", close: "*/" }],
            },
            Language::C => Spec {
                line_markers: &["//"],
                ignore_markers: &[],
                fences: &[],
                block_comments: &[Fence { open: "/*", close: "*/" }],
            },
            Language::Lua => Spec {
                line_markers: &["--"],
                ignore_markers: &[],
                fences: &[],
                block_comments: &[],
            },
            Language::SQL => Spec {
                line_markers: &["--"],
                ignore_markers: &[],
                fences: &[],
                block_comments: &[],
            },
            Language::Lisp => Spec {
                line_markers: &[";;", ";"],
                ignore_markers: &[],
                fences: &[],
                block_comments: &[],
            },
            Language::Markdown => Spec {
                line_markers: &[],
                ignore_markers: &["#", "- ", "* ", "+ ", "> ", "|"],
                fences: &[
                    Fence { open: "```", close: "```" },
                    Fence { open: "~~~", close: "~~~" },
                ],
                block_comments: &[],
            },
        }
    }

    /// The language of a file with the given extension (`None` when the
    /// file has none). Case does not matter; unknown extensions give
    /// [`Language::Text`].
    pub fn from_extension(ext: Option<&str>) -> (r: Self)
        ensures
            r == match ext {
                Some(e) => language_for_extension(lowercase(e@)),
                None => Language::Text,
            },
    {
        let e = match ext {
            Some(e) => ascii_lowercase(&chars_of(e)),
            None => {
                return Language::Text;
            },
        };
        if is(&e, "py") || is(&e, "pyi") {
            Language::Python
        } else if is(&e, "sh") || is(&e, "bash") || is(&e, "zsh") || is(&e, "ksh") || is(
            &e,
            "fish",
        ) {
            Language::Shell
        } else if is(&e, "ex") || is(&e, "exs") {
            Language::Elixir
        } else if is(&e, "go") {
            Language::Go
        } else if is(&e, "rs") {
            Language::Rust
        } else if is(&e, "js") || is(&e, "mjs") || is(&e, "cjs") || is(&e, "jsx") || is(&e, "ts")
            || is(&e, "tsx") {
            Language::JavaScript
        } else if is(&e, "java") {
            Language::Java
        } else if is(&e, "scala") || is(&e, "sc") {
            Language::Scala
        } else if is(&e, "c") || is(&e, "h") || is(&e, "cc") || is(&e, "cpp") || is(&e, "cxx")
            || is(&e, "hpp") || is(&e, "hh") || is(&e, "m") || is(&e, "mm") {
            Language::C
        } else if is(&e, "lua") {
            Language::Lua
        } else if is(&e, "sql") {
            Language::SQL
        } else if is(&e, "el") || is(&e, "lisp") || is(&e, "clj") || is(&e, "cljs") || is(
            &e,
            "cljc",
        ) || is(&e, "scm") || is(&e, "ss") || is(&e, "rkt") {
            Language::Lisp
        } else if is(&e, "md") || is(&e, "markdown") || is(&e, "mkd") {
            Language::Markdown
        } else {
            Language::Text
        }
    }

    /// Infer the language from a file path's extension. Returns
    /// [`Language::Text`] when the extension is unknown or absent.
    pub fn from_path(path: &str) -> (r: Self)
        ensures
            r == match path_extension(path@) {
                Some(e) => language_for_extension(lowercase(e)),
                None => Language::Text,
            },
    {
        match extension_of(path) {
            Some(e) => Language::from_extension(Some(e.as_str())),
            None => Language::Text,
        }
    }

    /// Parse a language name (any ASCII case). Unknown names give the
    /// error `unknown language: <name in lower case>`.
    pub fn parse(s: &str) -> (r: Result<Self, String>)
        ensures
            match r {
                Ok(l) => language_named(lowercase(s@)) == Some(l),
                Err(e) => language_named(lowercase(s@)) is None && e@ == "unknown language: "@
                    + lowercase(s@),
            },
    {
        let n = ascii_lowercase(&chars_of(s));
        if is(&n, "text") || is(&n, "txt") || is(&n, "plain") {
            Ok(Language::Text)
        } else if is(&n, "python") || is(&n, "py") {
            Ok(Language::Python)
        } else if is(&n, "shell") || is(&n, "sh") || is(&n, "bash") {
            Ok(Language::Shell)
        } else if is(&n, "elixir") || is(&n, "ex") {
            Ok(Language::Elixir)
        } else if is(&n, "go") {
            Ok(Language::Go)
        } else if is(&n, "rust") || is(&n, "rs") {
            Ok(Language::Rust)
        } else if is(&n, "javascript") || is(&n, "js") || is(&n, "typescript") || is(&n, "ts") {
            Ok(Language::JavaScript)
        } else if is(&n, "java") {
            Ok(Language::Java)
        } else if is(&n, "scala") {
            Ok(Language::Scala)
        } else if is(&n, "c") || is(&n, "cpp") || is(&n, "c++") {
            Ok(Language::C)
        } else if is(&n, "lua") {
            Ok(Language::Lua)
        } else if is(&n, "sql") {
            Ok(Language::SQL)
        } else if is(&n, "lisp") || is(&n, "clojure") || is(&n, "scheme") || is(&n, "racket") {
            Ok(Language::Lisp)
        } else if is(&n, "markdown") || is(&n, "md") {
            Ok(Language::Markdown)
        } else {
            let mut msg = chars_of("unknown language: ");
            append(&mut msg, &n);
            Err(string_of(&msg))
        }
    }
}

impl std::str::FromStr for Language {
    type Err = String;

    fn from_str(s: &str) -> (r: Result<Self, Self::Err>)
        ensures
            match r {
                Ok(l) => language_named(lowercase(s@)) == Some(l),
                Err(e) => language_named(lowercase(s@)) is None && e@ == "unknown language: "@
                    + lowercase(s@),
            },
    {
        Language::parse(s)
    }
}


/// The literals of the name and extension tables tell apart: of two
/// different ones of one length, a character differs.
proof fn lemma_table_literals_differ()
    ensures
        "text"@.len() == 4,
        "txt"@.len() == 3,
        "plain"@.len() == 5,
        "python"@.len() == 6,
        "py"@.len() == 2,
        "shell"@.len() == 5,
        "sh"@.len() == 2,
        "bash"@.len() == 4,
        "elixir"@.len() == 6,
        "ex"@.len() == 2,
        "go"@.len() == 2,
        "rust"@.len() == 4,
        "rs"@.len() == 2,
        "javascript"@.len() == 10,
        "js"@.len() == 2,
        "typescript"@.len() == 10,
        "ts"@.len() == 2,
        "java"@.len() == 4,
        "scala"@.len() == 5,
        "c"@.len() == 1,
        "cpp"@.len() == 3,
        "c++"@.len() == 3,
        "lua"@.len() == 3,
        "sql"@.len() == 3,
        "lisp"@.len() == 4,
        "clojure"@.len() == 7,
        "scheme"@.len() == 6,
        "racket"@.len() == 6,
        "markdown"@.len() == 8,
        "md"@.len() == 2,
        "pyi"@.len() == 3,
        "zsh"@.len() == 3,
        "ksh"@.len() == 3,
        "fish"@.len() == 4,
        "exs"@.len() == 3,
        "mjs"@.len() == 3,
        "cjs"@.len() == 3,
        "jsx"@.len() == 3,
        "tsx"@.len() == 3,
        "sc"@.len() == 2,
        "h"@.len() == 1,
        "cc"@.len() == 2,
        "cxx"@.len() == 3,
        "hpp"@.len() == 3,
        "hh"@.len() == 2,
        "m"@.len() == 1,
        "mm"@.len() == 2,
        "el"@.len() == 2,
        "clj"@.len() == 3,
        "cljs"@.len() == 4,
        "cljc"@.len() == 4,
        "scm"@.len() == 3,
        "ss"@.len() == 2,
        "rkt"@.len() == 3,
        "mkd"@.len() == 3,
        "text"@ != "bash"@,
        "text"@ != "rust"@,
        "text"@ != "java"@,
        "text"@ != "lisp"@,
        "text"@ != "fish"@,
        "text"@ != "cljs"@,
        "text"@ != "cljc"@,
        "txt"@ != "cpp"@,
        "txt"@ != "c++"@,
        "txt"@ != "lua"@,
        "txt"@ != "sql"@,
        "txt"@ != "pyi"@,
        "txt"@ != "zsh"@,
        "txt"@ != "ksh"@,
        "txt"@ != "exs"@,
        "txt"@ != "mjs"@,
        "txt"@ != "cjs"@,
        "txt"@ != "jsx"@,
        "txt"@ != "tsx"@,
        "txt"@ != "cxx"@,
        "txt"@ != "hpp"@,
        "txt"@ != "clj"@,
        "txt"@ != "scm"@,
        "txt"@ != "rkt"@,
        "txt"@ != "mkd"@,
        "plain"@ != "shell"@,
        "plain"@ != "scala"@,
        "python"@ != "elixir"@,
        "python"@ != "scheme"@,
        "python"@ != "racket"@,
        "py"@ != "sh"@,
        "py"@ != "ex"@,
        "py"@ != "go"@,
        "py"@ != "rs"@,
        "py"@ != "js"@,
        "py"@ != "ts"@,
        "py"@ != "md"@,
        "py"@ != "sc"@,
        "py"@ != "cc"@,
        "py"@ != "hh"@,
        "py"@ != "mm"@,
        "py"@ != "el"@,
        "py"@ != "ss"@,
        "shell"@ != "scala"@,
        "sh"@ != "ex"@,
        "sh"@ != "go"@,
        "sh"@ != "rs"@,
        "sh"@ != "js"@,
        "sh"@ != "ts"@,
        "sh"@ != "md"@,
        "sh"@ != "sc"@,
        "sh"@ != "cc"@,
        "sh"@ != "hh"@,
        "sh"@ != "mm"@,
        "sh"@ != "el"@,
        "sh"@ != "ss"@,
        "bash"@ != "rust"@,
        "bash"@ != "java"@,
        "bash"@ != "lisp"@,
        "bash"@ != "fish"@,
        "bash"@ != "cljs"@,
        "bash"@ != "cljc"@,
        "elixir"@ != "scheme"@,
        "elixir"@ != "racket"@,
        "ex"@ != "go"@,
        "ex"@ != "rs"@,
        "ex"@ != "js"@,
        "ex"@ != "ts"@,
        "ex"@ != "md"@,
        "ex"@ != "sc"@,
        "ex"@ != "cc"@,
        "ex"@ != "hh"@,
        "ex"@ != "mm"@,
        "ex"@ != "el"@,
        "ex"@ != "ss"@,
        "go"@ != "rs"@,
        "go"@ != "js"@,
        "go"@ != "ts"@,
        "go"@ != "md"@,
        "go"@ != "sc"@,
        "go"@ != "cc"@,
        "go"@ != "hh"@,
        "go"@ != "mm"@,
        "go"@ != "el"@,
        "go"@ != "ss"@,
        "rust"@ != "java"@,
        "rust"@ != "lisp"@,
        "rust"@ != "fish"@,
        "rust"@ != "cljs"@,
        "rust"@ != "cljc"@,
        "rs"@ != "js"@,
        "rs"@ != "ts"@,
        "rs"@ != "md"@,
        "rs"@ != "sc"@,
        "rs"@ != "cc"@,
        "rs"@ != "hh"@,
        "rs"@ != "mm"@,
        "rs"@ != "el"@,
        "rs"@ != "ss"@,
        "javascript"@ != "typescript"@,
        "js"@ != "ts"@,
        "js"@ != "md"@,
        "js"@ != "sc"@,
        "js"@ != "cc"@,
        "js"@ != "hh"@,
        "js"@ != "mm"@,
        "js"@ != "el"@,
        "js"@ != "ss"@,
        "ts"@ != "md"@,
        "ts"@ != "sc"@,
        "ts"@ != "cc"@,
        "ts"@ != "hh"@,
        "ts"@ != "mm"@,
        "ts"@ != "el"@,
        "ts"@ != "ss"@,
        "java"@ != "lisp"@,
        "java"@ != "fish"@,
        "java"@ != "cljs"@,
        "java"@ != "cljc"@,
        "c"@ != "h"@,
        "c"@ != "m"@,
        "cpp"@ != "c++"@,
        "cpp"@ != "lua"@,
        "cpp"@ != "sql"@,
        "cpp"@ != "pyi"@,
        "cpp"@ != "zsh"@,
        "cpp"@ != "ksh"@,
        "cpp"@ != "exs"@,
        "cpp"@ != "mjs"@,
        "cpp"@ != "cjs"@,
        "cpp"@ != "jsx"@,
        "cpp"@ != "tsx"@,
        "cpp"@ != "cxx"@,
        "cpp"@ != "hpp"@,
        "cpp"@ != "clj"@,
        "cpp"@ != "scm"@,
        "cpp"@ != "rkt"@,
        "cpp"@ != "mkd"@,
        "c++"@ != "lua"@,
        "c++"@ != "sql"@,
        "c++"@ != "pyi"@,
        "c++"@ != "zsh"@,
        "c++"@ != "ksh"@,
        "c++"@ != "exs"@,
        "c++"@ != "mjs"@,
        "c++"@ != "cjs"@,
        "c++"@ != "jsx"@,
        "c++"@ != "tsx"@,
        "c++"@ != "cxx"@,
        "c++"@ != "hpp"@,
        "c++"@ != "clj"@,
        "c++"@ != "scm"@,
        "c++"@ != "rkt"@,
        "c++"@ != "mkd"@,
        "lua"@ != "sql"@,
        "lua"@ != "pyi"@,
        "lua"@ != "zsh"@,
        "lua"@ != "ksh"@,
        "lua"@ != "exs"@,
        "lua"@ != "mjs"@,
        "lua"@ != "cjs"@,
        "lua"@ != "jsx"@,
        "lua"@ != "tsx"@,
        "lua"@ != "cxx"@,
        "lua"@ != "hpp"@,
        "lua"@ != "clj"@,
        "lua"@ != "scm"@,
        "lua"@ != "rkt"@,
        "lua"@ != "mkd"@,
        "sql"@ != "pyi"@,
        "sql"@ != "zsh"@,
        "sql"@ != "ksh"@,
        "sql"@ != "exs"@,
        "sql"@ != "mjs"@,
        "sql"@ != "cjs"@,
        "sql"@ != "jsx"@,
        "sql"@ != "tsx"@,
        "sql"@ != "cxx"@,
        "sql"@ != "hpp"@,
        "sql"@ != "clj"@,
        "sql"@ != "scm"@,
        "sql"@ != "rkt"@,
        "sql"@ != "mkd"@,
        "lisp"@ != "fish"@,
        "lisp"@ != "cljs"@,
        "lisp"@ != "cljc"@,
        "scheme"@ != "racket"@,
        "md"@ != "sc"@,
        "md"@ != "cc"@,
        "md"@ != "hh"@,
        "md"@ != "mm"@,
        "md"@ != "el"@,
        "md"@ != "ss"@,
        "pyi"@ != "zsh"@,
        "pyi"@ != "ksh"@,
        "pyi"@ != "exs"@,
        "pyi"@ != "mjs"@,
        "pyi"@ != "cjs"@,
        "pyi"@ != "jsx"@,
        "pyi"@ != "tsx"@,
        "pyi"@ != "cxx"@,
        "pyi"@ != "hpp"@,
        "pyi"@ != "clj"@,
        "pyi"@ != "scm"@,
        "pyi"@ != "rkt"@,
        "pyi"@ != "mkd"@,
        "zsh"@ != "ksh"@,
        "zsh"@ != "exs"@,
        "zsh"@ != "mjs"@,
        "zsh"@ != "cjs"@,
        "zsh"@ != "jsx"@,
        "zsh"@ != "tsx"@,
        "zsh"@ != "cxx"@,
        "zsh"@ != "hpp"@,
        "zsh"@ != "clj"@,
        "zsh"@ != "scm"@,
        "zsh"@ != "rkt"@,
        "zsh"@ != "mkd"@,
        "ksh"@ != "exs"@,
        "ksh"@ != "mjs"@,
        "ksh"@ != "cjs"@,
        "ksh"@ != "jsx"@,
        "ksh"@ != "tsx"@,
        "ksh"@ != "cxx"@,
        "ksh"@ != "hpp"@,
        "ksh"@ != "clj"@,
        "ksh"@ != "scm"@,
        "ksh"@ != "rkt"@,
        "ksh"@ != "mkd"@,
        "fish"@ != "cljs"@,
        "fish"@ != "cljc"@,
        "exs"@ != "mjs"@,
        "exs"@ != "cjs"@,
        "exs"@ != "jsx"@,
        "exs"@ != "tsx"@,
        "exs"@ != "cxx"@,
        "exs"@ != "hpp"@,
        "exs"@ != "clj"@,
        "exs"@ != "scm"@,
        "exs"@ != "rkt"@,
        "exs"@ != "mkd"@,
        "mjs"@ != "cjs"@,
        "mjs"@ != "jsx"@,
        "mjs"@ != "tsx"@,
        "mjs"@ != "cxx"@,
        "mjs"@ != "hpp"@,
        "mjs"@ != "clj"@,
        "mjs"@ != "scm"@,
        "mjs"@ != "rkt"@,
        "mjs"@ != "mkd"@,
        "cjs"@ != "jsx"@,
        "cjs"@ != "tsx"@,
        "cjs"@ != "cxx"@,
        "cjs"@ != "hpp"@,
        "cjs"@ != "clj"@,
        "cjs"@ != "scm"@,
        "cjs"@ != "rkt"@,
        "cjs"@ != "mkd"@,
        "jsx"@ != "tsx"@,
        "jsx"@ != "cxx"@,
        "jsx"@ != "hpp"@,
        "jsx"@ != "clj"@,
        "jsx"@ != "scm"@,
        "jsx"@ != "rkt"@,
        "jsx"@ != "mkd"@,
        "tsx"@ != "cxx"@,
        "tsx"@ != "hpp"@,
        "tsx"@ != "clj"@,
        "tsx"@ != "scm"@,
        "tsx"@ != "rkt"@,
        "tsx"@ != "mkd"@,
        "sc"@ != "cc"@,
        "sc"@ != "hh"@,
        "sc"@ != "mm"@,
        "sc"@ != "el"@,
        "sc"@ != "ss"@,
        "h"@ != "m"@,
        "cc"@ != "hh"@,
        "cc"@ != "mm"@,
        "cc"@ != "el"@,
        "cc"@ != "ss"@,
        "cxx"@ != "hpp"@,
        "cxx"@ != "clj"@,
        "cxx"@ != "scm"@,
        "cxx"@ != "rkt"@,
        "cxx"@ != "mkd"@,
        "hpp"@ != "clj"@,
        "hpp"@ != "scm"@,
        "hpp"@ != "rkt"@,
        "hpp"@ != "mkd"@,
        "hh"@ != "mm"@,
        "hh"@ != "el"@,
        "hh"@ != "ss"@,
        "mm"@ != "el"@,
        "mm"@ != "ss"@,
        "el"@ != "ss"@,
        "clj"@ != "scm"@,
        "clj"@ != "rkt"@,
        "clj"@ != "mkd"@,
        "cljs"@ != "cljc"@,
        "scm"@ != "rkt"@,
        "scm"@ != "mkd"@,
        "rkt"@ != "mkd"@,
{
    reveal_strlit("text");
    reveal_strlit("txt");
    reveal_strlit("plain");
    reveal_strlit("python");
    reveal_strlit("py");
    reveal_strlit("shell");
    reveal_strlit("sh");
    reveal_strlit("bash");
    reveal_strlit("elixir");
    reveal_strlit("ex");
    reveal_strlit("go");
    reveal_strlit("rust");
    reveal_strlit("rs");
    reveal_strlit("javascript");
    reveal_strlit("js");
    reveal_strlit("typescript");
    reveal_strlit("ts");
    reveal_strlit("java");
    reveal_strlit("scala");
    reveal_strlit("c");
    reveal_strlit("cpp");
    reveal_strlit("c++");
    reveal_strlit("lua");
    reveal_strlit("sql");
    reveal_strlit("lisp");
    reveal_strlit("clojure");
    reveal_strlit("scheme");
    reveal_strlit("racket");
    reveal_strlit("markdown");
    reveal_strlit("md");
    reveal_strlit("pyi");
    reveal_strlit("zsh");
    reveal_strlit("ksh");
    reveal_strlit("fish");
    reveal_strlit("exs");
    reveal_strlit("mjs");
    reveal_strlit("cjs");
    reveal_strlit("jsx");
    reveal_strlit("tsx");
    reveal_strlit("sc");
    reveal_strlit("h");
    reveal_strlit("cc");
    reveal_strlit("cxx");
    reveal_strlit("hpp");
    reveal_strlit("hh");
    reveal_strlit("m");
    reveal_strlit("mm");
    reveal_strlit("el");
    reveal_strlit("clj");
    reveal_strlit("cljs");
    reveal_strlit("cljc");
    reveal_strlit("scm");
    reveal_strlit("ss");
    reveal_strlit("rkt");
    reveal_strlit("mkd");
    assert("text"@[0] != "bash"@[0]);
    assert("text"@[0] != "rust"@[0]);
    assert("text"@[0] != "java"@[0]);
    assert("text"@[0] != "lisp"@[0]);
    assert("text"@[0] != "fish"@[0]);
    assert("text"@[0] != "cljs"@[0]);
    assert("text"@[0] != "cljc"@[0]);
    assert("txt"@[0] != "cpp"@[0]);
    assert("txt"@[0] != "c++"@[0]);
    assert("txt"@[0] != "lua"@[0]);
    assert("txt"@[0] != "sql"@[0]);
    assert("txt"@[0] != "pyi"@[0]);
    assert("txt"@[0] != "zsh"@[0]);
    assert("txt"@[0] != "ksh"@[0]);
    assert("txt"@[0] != "exs"@[0]);
    assert("txt"@[0] != "mjs"@[0]);
    assert("txt"@[0] != "cjs"@[0]);
    assert("txt"@[0] != "jsx"@[0]);
    assert("txt"@[1] != "tsx"@[1]);
    assert("txt"@[0] != "cxx"@[0]);
    assert("txt"@[0] != "hpp"@[0]);
    assert("txt"@[0] != "clj"@[0]);
    assert("txt"@[0] != "scm"@[0]);
    assert("txt"@[0] != "rkt"@[0]);
    assert("txt"@[0] != "mkd"@[0]);
    assert("plain"@[0] != "shell"@[0]);
    assert("plain"@[0] != "scala"@[0]);
    assert("python"@[0] != "elixir"@[0]);
    assert("python"@[0] != "scheme"@[0]);
    assert("python"@[0] != "racket"@[0]);
    assert("py"@[0] != "sh"@[0]);
    assert("py"@[0] != "ex"@[0]);
    assert("py"@[0] != "go"@[0]);
    assert("py"@[0] != "rs"@[0]);
    assert("py"@[0] != "js"@[0]);
    assert("py"@[0] != "ts"@[0]);
    assert("py"@[0] != "md"@[0]);
    assert("py"@[0] != "sc"@[0]);
    assert("py"@[0] != "cc"@[0]);
    assert("py"@[0] != "hh"@[0]);
    assert("py"@[0] != "mm"@[0]);
    assert("py"@[0] != "el"@[0]);
    assert("py"@[0] != "ss"@[0]);
    assert("shell"@[1] != "scala"@[1]);
    assert("sh"@[0] != "ex"@[0]);
    assert("sh"@[0] != "go"@[0]);
    assert("sh"@[0] != "rs"@[0]);
    assert("sh"@[0] != "js"@[0]);
    assert("sh"@[0] != "ts"@[0]);
    assert("sh"@[0] != "md"@[0]);
    assert("sh"@[1] != "sc"@[1]);
    assert("sh"@[0] != "cc"@[0]);
    assert("sh"@[0] != "hh"@[0]);
    assert("sh"@[0] != "mm"@[0]);
    assert("sh"@[0] != "el"@[0]);
    assert("sh"@[1] != "ss"@[1]);
    assert("bash"@[0] != "rust"@[0]);
    assert("bash"@[0] != "java"@[0]);
    assert("bash"@[0] != "lisp"@[0]);
    assert("bash"@[0] != "fish"@[0]);
    assert("bash"@[0] != "cljs"@[0]);
    assert("bash"@[0] != "cljc"@[0]);
    assert("elixir"@[0] != "scheme"@[0]);
    assert("elixir"@[0] != "racket"@[0]);
    assert("ex"@[0] != "go"@[0]);
    assert("ex"@[0] != "rs"@[0]);
    assert("ex"@[0] != "js"@[0]);
    assert("ex"@[0] != "ts"@[0]);
    assert("ex"@[0] != "md"@[0]);
    assert("ex"@[0] != "sc"@[0]);
    assert("ex"@[0] != "cc"@[0]);
    assert("ex"@[0] != "hh"@[0]);
    assert("ex"@[0] != "mm"@[0]);
    assert("ex"@[1] != "el"@[1]);
    assert("ex"@[0] != "ss"@[0]);
    assert("go"@[0] != "rs"@[0]);
    assert("go"@[0] != "js"@[0]);
    assert("go"@[0] != "ts"@[0]);
    assert("go"@[0] != "md"@[0]);
    assert("go"@[0] != "sc"@[0]);
    assert("go"@[0] != "cc"@[0]);
    assert("go"@[0] != "hh"@[0]);
    assert("go"@[0] != "mm"@[0]);
    assert("go"@[0] != "el"@[0]);
    assert("go"@[0] != "ss"@[0]);
    assert("rust"@[0] != "java"@[0]);
    assert("rust"@[0] != "lisp"@[0]);
    assert("rust"@[0] != "fish"@[0]);
    assert("rust"@[0] != "cljs"@[0]);
    assert("rust"@[0] != "cljc"@[0]);
    assert("rs"@[0] != "js"@[0]);
    assert("rs"@[0] != "ts"@[0]);
    assert("rs"@[0] != "md"@[0]);
    assert("rs"@[0] != "sc"@[0]);
    assert("rs"@[0] != "cc"@[0]);
    assert("rs"@[0] != "hh"@[0]);
    assert("rs"@[0] != "mm"@[0]);
    assert("rs"@[0] != "el"@[0]);
    assert("rs"@[0] != "ss"@[0]);
    assert("javascript"@[0] != "typescript"@[0]);
    assert("js"@[0] != "ts"@[0]);
    assert("js"@[0] != "md"@[0]);
    assert("js"@[0] != "sc"@[0]);
    assert("js"@[0] != "cc"@[0]);
    assert("js"@[0] != "hh"@[0]);
    assert("js"@[0] != "mm"@[0]);
    assert("js"@[0] != "el"@[0]);
    assert("js"@[0] != "ss"@[0]);
    assert("ts"@[0] != "md"@[0]);
    assert("ts"@[0] != "sc"@[0]);
    assert("ts"@[0] != "cc"@[0]);
    assert("ts"@[0] != "hh"@[0]);
    assert("ts"@[0] != "mm"@[0]);
    assert("ts"@[0] != "el"@[0]);
    assert("ts"@[0] != "ss"@[0]);
    assert("java"@[0] != "lisp"@[0]);
    assert("java"@[0] != "fish"@[0]);
    assert("java"@[0] != "cljs"@[0]);
    assert("java"@[0] != "cljc"@[0]);
    assert("c"@[0] != "h"@[0]);
    assert("c"@[0] != "m"@[0]);
    assert("cpp"@[1] != "c++"@[1]);
    assert("cpp"@[0] != "lua"@[0]);
    assert("cpp"@[0] != "sql"@[0]);
    assert("cpp"@[0] != "pyi"@[0]);
    assert("cpp"@[0] != "zsh"@[0]);
    assert("cpp"@[0] != "ksh"@[0]);
    assert("cpp"@[0] != "exs"@[0]);
    assert("cpp"@[0] != "mjs"@[0]);
    assert("cpp"@[1] != "cjs"@[1]);
    assert("cpp"@[0] != "jsx"@[0]);
    assert("cpp"@[0] != "tsx"@[0]);
    assert("cpp"@[1] != "cxx"@[1]);
    assert("cpp"@[0] != "hpp"@[0]);
    assert("cpp"@[1] != "clj"@[1]);
    assert("cpp"@[0] != "scm"@[0]);
    assert("cpp"@[0] != "rkt"@[0]);
    assert("cpp"@[0] != "mkd"@[0]);
    assert("c++"@[0] != "lua"@[0]);
    assert("c++"@[0] != "sql"@[0]);
    assert("c++"@[0] != "pyi"@[0]);
    assert("c++"@[0] != "zsh"@[0]);
    assert("c++"@[0] != "ksh"@[0]);
    assert("c++"@[0] != "exs"@[0]);
    assert("c++"@[0] != "mjs"@[0]);
    assert("c++"@[1] != "cjs"@[1]);
    assert("c++"@[0] != "jsx"@[0]);
    assert("c++"@[0] != "tsx"@[0]);
    assert("c++"@[1] != "cxx"@[1]);
    assert("c++"@[0] != "hpp"@[0]);
    assert("c++"@[1] != "clj"@[1]);
    assert("c++"@[0] != "scm"@[0]);
    assert("c++"@[0] != "rkt"@[0]);
    assert("c++"@[0] != "mkd"@[0]);
    assert("lua"@[0] != "sql"@[0]);
    assert("lua"@[0] != "pyi"@[0]);
    assert("lua"@[0] != "zsh"@[0]);
    assert("lua"@[0] != "ksh"@[0]);
    assert("lua"@[0] != "exs"@[0]);
    assert("lua"@[0] != "mjs"@[0]);
    assert("lua"@[0] != "cjs"@[0]);
    assert("lua"@[0] != "jsx"@[0]);
    assert("lua"@[0] != "tsx"@[0]);
    assert("lua"@[0] != "cxx"@[0]);
    assert("lua"@[0] != "hpp"@[0]);
    assert("lua"@[0] != "clj"@[0]);
    assert("lua"@[0] != "scm"@[0]);
    assert("lua"@[0] != "rkt"@[0]);
    assert("lua"@[0] != "mkd"@[0]);
    assert("sql"@[0] != "pyi"@[0]);
    assert("sql"@[0] != "zsh"@[0]);
    assert("sql"@[0] != "ksh"@[0]);
    assert("sql"@[0] != "exs"@[0]);
    assert("sql"@[0] != "mjs"@[0]);
    assert("sql"@[0] != "cjs"@[0]);
    assert("sql"@[0] != "jsx"@[0]);
    assert("sql"@[0] != "tsx"@[0]);
    assert("sql"@[0] != "cxx"@[0]);
    assert("sql"@[0] != "hpp"@[0]);
    assert("sql"@[0] != "clj"@[0]);
    assert("sql"@[1] != "scm"@[1]);
    assert("sql"@[0] != "rkt"@[0]);
    assert("sql"@[0] != "mkd"@[0]);
    assert("lisp"@[0] != "fish"@[0]);
    assert("lisp"@[0] != "cljs"@[0]);
    assert("lisp"@[0] != "cljc"@[0]);
    assert("scheme"@[0] != "racket"@[0]);
    assert("md"@[0] != "sc"@[0]);
    assert("md"@[0] != "cc"@[0]);
    assert("md"@[0] != "hh"@[0]);
    assert("md"@[1] != "mm"@[1]);
    assert("md"@[0] != "el"@[0]);
    assert("md"@[0] != "ss"@[0]);
    assert("pyi"@[0] != "zsh"@[0]);
    assert("pyi"@[0] != "ksh"@[0]);
    assert("pyi"@[0] != "exs"@[0]);
    assert("pyi"@[0] != "mjs"@[0]);
    assert("pyi"@[0] != "cjs"@[0]);
    assert("pyi"@[0] != "jsx"@[0]);
    assert("pyi"@[0] != "tsx"@[0]);
    assert("pyi"@[0] != "cxx"@[0]);
    assert("pyi"@[0] != "hpp"@[0]);
    assert("pyi"@[0] != "clj"@[0]);
    assert("pyi"@[0] != "scm"@[0]);
    assert("pyi"@[0] != "rkt"@[0]);
    assert("pyi"@[0] != "mkd"@[0]);
    assert("zsh"@[0] != "ksh"@[0]);
    assert("zsh"@[0] != "exs"@[0]);
    assert("zsh"@[0] != "mjs"@[0]);
    assert("zsh"@[0] != "cjs"@[0]);
    assert("zsh"@[0] != "jsx"@[0]);
    assert("zsh"@[0] != "tsx"@[0]);
    assert("zsh"@[0] != "cxx"@[0]);
    assert("zsh"@[0] != "hpp"@[0]);
    assert("zsh"@[0] != "clj"@[0]);
    assert("zsh"@[0] != "scm"@[0]);
    assert("zsh"@[0] != "rkt"@[0]);
    assert("zsh"@[0] != "mkd"@[0]);
    assert("ksh"@[0] != "exs"@[0]);
    assert("ksh"@[0] != "mjs"@[0]);
    assert("ksh"@[0] != "cjs"@[0]);
    assert("ksh"@[0] != "jsx"@[0]);
    assert("ksh"@[0] != "tsx"@[0]);
    assert("ksh"@[0] != "cxx"@[0]);
    assert("ksh"@[0] != "hpp"@[0]);
    assert("ksh"@[0] != "clj"@[0]);
    assert("ksh"@[0] != "scm"@[0]);
    assert("ksh"@[0] != "rkt"@[0]);
    assert("ksh"@[0] != "mkd"@[0]);
    assert("fish"@[0] != "cljs"@[0]);
    assert("fish"@[0] != "cljc"@[0]);
    assert("exs"@[0] != "mjs"@[0]);
    assert("exs"@[0] != "cjs"@[0]);
    assert("exs"@[0] != "jsx"@[0]);
    assert("exs"@[0] != "tsx"@[0]);
    assert("exs"@[0] != "cxx"@[0]);
    assert("exs"@[0] != "hpp"@[0]);
    assert("exs"@[0] != "clj"@[0]);
    assert("exs"@[0] != "scm"@[0]);
    assert("exs"@[0] != "rkt"@[0]);
    assert("exs"@[0] != "mkd"@[0]);
    assert("mjs"@[0] != "cjs"@[0]);
    assert("mjs"@[0] != "jsx"@[0]);
    assert("mjs"@[0] != "tsx"@[0]);
    assert("mjs"@[0] != "cxx"@[0]);
    assert("mjs"@[0] != "hpp"@[0]);
    assert("mjs"@[0] != "clj"@[0]);
    assert("mjs"@[0] != "scm"@[0]);
    assert("mjs"@[0] != "rkt"@[0]);
    assert("mjs"@[1] != "mkd"@[1]);
    assert("cjs"@[0] != "jsx"@[0]);
    assert("cjs"@[0] != "tsx"@[0]);
    assert("cjs"@[1] != "cxx"@[1]);
    assert("cjs"@[0] != "hpp"@[0]);
    assert("cjs"@[1] != "clj"@[1]);
    assert("cjs"@[0] != "scm"@[0]);
    assert("cjs"@[0] != "rkt"@[0]);
    assert("cjs"@[0] != "mkd"@[0]);
    assert("jsx"@[0] != "tsx"@[0]);
    assert("jsx"@[0] != "cxx"@[0]);
    assert("jsx"@[0] != "hpp"@[0]);
    assert("jsx"@[0] != "clj"@[0]);
    assert("jsx"@[0] != "scm"@[0]);
    assert("jsx"@[0] != "rkt"@[0]);
    assert("jsx"@[0] != "mkd"@[0]);
    assert("tsx"@[0] != "cxx"@[0]);
    assert("tsx"@[0] != "hpp"@[0]);
    assert("tsx"@[0] != "clj"@[0]);
    assert("tsx"@[0] != "scm"@[0]);
    assert("tsx"@[0] != "rkt"@[0]);
    assert("tsx"@[0] != "mkd"@[0]);
    assert("sc"@[0] != "cc"@[0]);
    assert("sc"@[0] != "hh"@[0]);
    assert("sc"@[0] != "mm"@[0]);
    assert("sc"@[0] != "el"@[0]);
    assert("sc"@[1] != "ss"@[1]);
    assert("h"@[0] != "m"@[0]);
    assert("cc"@[0] != "hh"@[0]);
    assert("cc"@[0] != "mm"@[0]);
    assert("cc"@[0] != "el"@[0]);
    assert("cc"@[0] != "ss"@[0]);
    assert("cxx"@[0] != "hpp"@[0]);
    assert("cxx"@[1] != "clj"@[1]);
    assert("cxx"@[0] != "scm"@[0]);
    assert("cxx"@[0] != "rkt"@[0]);
    assert("cxx"@[0] != "mkd"@[0]);
    assert("hpp"@[0] != "clj"@[0]);
    assert("hpp"@[0] != "scm"@[0]);
    assert("hpp"@[0] != "rkt"@[0]);
    assert("hpp"@[0] != "mkd"@[0]);
    assert("hh"@[0] != "mm"@[0]);
    assert("hh"@[0] != "el"@[0]);
    assert("hh"@[0] != "ss"@[0]);
    assert("mm"@[0] != "el"@[0]);
    assert("mm"@[0] != "ss"@[0]);
    assert("el"@[0] != "ss"@[0]);
    assert("clj"@[0] != "scm"@[0]);
    assert("clj"@[0] != "rkt"@[0]);
    assert("clj"@[0] != "mkd"@[0]);
    assert("cljs"@[3] != "cljc"@[3]);
    assert("scm"@[0] != "rkt"@[0]);
    assert("scm"@[0] != "mkd"@[0]);
    assert("rkt"@[0] != "mkd"@[0]);
}

/// A language name that is also a file extension means the same
/// language both ways.
pub proof fn law_names_agree_with_extensions(n: Seq<char>)
    requires
        language_named(n) is Some,
        language_for_extension(n) != Language::Text,
    ensures
        language_named(n) == Some(language_for_extension(n)),
{
    lemma_table_literals_differ();
}

/// Every language has a name.
pub proof fn law_every_language_named(l: Language)
    ensures
        exists|n: Seq<char>| language_named(n) == Some(l),
{
    lemma_table_literals_differ();
    let n: Seq<char> = match l {
        Language::Text => "text"@,
        Language::Python => "python"@,
        Language::Shell => "shell"@,
        Language::Elixir => "elixir"@,
        Language::Go => "go"@,
        Language::Rust => "rust"@,
        Language::JavaScript => "javascript"@,
        Language::Java => "java"@,
        Language::Scala => "scala"@,
        Language::C => "c"@,
        Language::Lua => "lua"@,
        Language::SQL => "sql"@,
        Language::Lisp => "lisp"@,
        Language::Markdown => "markdown"@,
    };
    assert(language_named(n) == Some(l));
}

/// The extension table: each extension the tool knows names its
/// language (`.h` and the other C and C++ extensions are C, `.ts` is
/// JavaScript, and so on).
pub proof fn law_extension_table()
    ensures
        language_for_extension("py"@) == Language::Python,
        language_for_extension("pyi"@) == Language::Python,
        language_for_extension("sh"@) == Language::Shell,
        language_for_extension("bash"@) == Language::Shell,
        language_for_extension("zsh"@) == Language::Shell,
        language_for_extension("ksh"@) == Language::Shell,
        language_for_extension("fish"@) == Language::Shell,
        language_for_extension("ex"@) == Language::Elixir,
        language_for_extension("exs"@) == Language::Elixir,
        language_for_extension("go"@) == Language::Go,
        language_for_extension("rs"@) == Language::Rust,
        language_for_extension("js"@) == Language::JavaScript,
        language_for_extension("mjs"@) == Language::JavaScript,
        language_for_extension("cjs"@) == Language::JavaScript,
        language_for_extension("jsx"@) == Language::JavaScript,
        language_for_extension("ts"@) == Language::JavaScript,
        language_for_extension("tsx"@) == Language::JavaScript,
        language_for_extension("java"@) == Language::Java,
        language_for_extension("scala"@) == Language::Scala,
        language_for_extension("sc"@) == Language::Scala,
        language_for_extension("c"@) == Language::C,
        language_for_extension("h"@) == Language::C,
        language_for_extension("cc"@) == Language::C,
        language_for_extension("cpp"@) == Language::C,
        language_for_extension("cxx"@) == Language::C,
        language_for_extension("hpp"@) == Language::C,
        language_for_extension("hh"@) == Language::C,
        language_for_extension("m"@) == Language::C,
        language_for_extension("mm"@) == Language::C,
        language_for_extension("lua"@) == Language::Lua,
        language_for_extension("sql"@) == Language::SQL,
        language_for_extension("el"@) == Language::Lisp,
        language_for_extension("lisp"@) == Language::Lisp,
        language_for_extension("clj"@) == Language::Lisp,
        language_for_extension("cljs"@) == Language::Lisp,
        language_for_extension("cljc"@) == Language::Lisp,
        language_for_extension("scm"@) == Language::Lisp,
        language_for_extension("ss"@) == Language::Lisp,
        language_for_extension("rkt"@) == Language::Lisp,
        language_for_extension("md"@) == Language::Markdown,
        language_for_extension("markdown"@) == Language::Markdown,
        language_for_extension("mkd"@) == Language::Markdown,
{
    lemma_table_literals_differ();
}

/// The name table: each language name the tool accepts (for `--lang`)
/// names its language (`typescript` is JavaScript, `c++` is C, and so
/// on).
pub proof fn law_name_table()
    ensures
        language_named("text"@) == Some(Language::Text),
        language_named("txt"@) == Some(Language::Text),
        language_named("plain"@) == Some(Language::Text),
        language_named("python"@) == Some(Language::Python),
        language_named("py"@) == Some(Language::Python),
        language_named("shell"@) == Some(Language::Shell),
        language_named("sh"@) == Some(Language::Shell),
        language_named("bash"@) == Some(Language::Shell),
        language_named("elixir"@) == Some(Language::Elixir),
        language_named("ex"@) == Some(Language::Elixir),
        language_named("go"@) == Some(Language::Go),
        language_named("rust"@) == Some(Language::Rust),
        language_named("rs"@) == Some(Language::Rust),
        language_named("javascript"@) == Some(Language::JavaScript),
        language_named("js"@) == Some(Language::JavaScript),
        language_named("typescript"@) == Some(Language::JavaScript),
        language_named("ts"@) == Some(Language::JavaScript),
        language_named("java"@) == Some(Language::Java),
        language_named("scala"@) == Some(Language::Scala),
        language_named("c"@) == Some(Language::C),
        language_named("cpp"@) == Some(Language::C),
        language_named("c++"@) == Some(Language::C),
        language_named("lua"@) == Some(Language::Lua),
        language_named("sql"@) == Some(Language::SQL),
        language_named("lisp"@) == Some(Language::Lisp),
        language_named("clojure"@) == Some(Language::Lisp),
        language_named("scheme"@) == Some(Language::Lisp),
        language_named("racket"@) == Some(Language::Lisp),
        language_named("markdown"@) == Some(Language::Markdown),
        language_named("md"@) == Some(Language::Markdown),
{
    lemma_table_literals_differ();
}

} // verus!
