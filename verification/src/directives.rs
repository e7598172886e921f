//! Heuristics for lines that are machine-readable directives
//! rather than prose. Derived from patterns observed across Go,
//! Rust, TypeScript / JavaScript, Python, and shell codebases.

use vstd::prelude::*;

use crate::prefix::{detected_prefix, prefix_of};
use crate::text::{blank, subrange, chars_of, contains, contains_chars, is_blank, is_whitespace, is_ws, starts_with, starts_with_at};

verus! {

/// Number of built-in directive prefixes.
pub const N_DIRECTIVE_PREFIXES: usize = 19;

/// The built-in directive prefixes, in the order they are tried.
pub open spec fn directive_prefix(i: int) -> Seq<char> {
    if i == 0 {
        "//go:"@
    } else if i == 1 {
        "// +build"@
    } else if i == 2 {
        "//nolint"@
    } else if i == 3 {
        "//noinspection"@
    } else if i == 4 {
        "//lint:"@
    } else if i == 5 {
        "#["@
    } else if i == 6 {
        "#!["@
    } else if i == 7 {
        "#!/"@
    } else if i == 8 {
        "# type:"@
    } else if i == 9 {
        "# noqa"@
    } else if i == 10 {
        "# pragma:"@
    } else if i == 11 {
        "// @ts-"@
    } else if i == 12 {
        "// eslint-"@
    } else if i == 13 {
        "/* eslint-"@
    } else if i == 14 {
        "// @param"@
    } else if i == 15 {
        "// @returns"@
    } else if i == 16 {
        "// @internal"@
    } else if i == 17 {
        "// @deprecated"@
    } else {
        "// @see"@
    }
}

fn directive_prefix_str(i: usize) -> (r: &'static str)
    requires
        i < N_DIRECTIVE_PREFIXES,
    ensures
        r@ == directive_prefix(i as int),
{
    match i {
        0 => "//go:",
        1 => "// +build",
        2 => "//nolint",
        3 => "//noinspection",
        4 => "//lint:",
        5 => "#[",
        6 => "#![",
        7 => "#!/",
        8 => "# type:",
        9 => "# noqa",
        10 => "# pragma:",
        11 => "// @ts-",
        12 => "// eslint-",
        13 => "/* eslint-",
        14 => "// @param",
        15 => "// @returns",
        16 => "// @internal",
        17 => "// @deprecated",
        _ => "// @see",
    }
}

/// A whitespace-separated word of `s` begins at `i`.
pub open spec fn starts_word(s: Seq<char>, i: int) -> bool {
    !is_ws(s[i]) && (i == 0 || is_ws(s[i - 1]))
}

/// `s.split_whitespace().count()`.
pub open spec fn word_count(s: Seq<char>) -> nat
    decreases s.len(),
{
    if s.len() == 0 {
        0
    } else {
        word_count(s.drop_last()) + if starts_word(s, s.len() - 1) {
            1nat
        } else {
            0nat
        }
    }
}

/// One of the characters `-`, `=`, `*`, `_` that separator lines
/// are drawn with.
pub open spec fn is_rule_char(c: char) -> bool {
    c == '-' || c == '=' || c == '*' || c == '_'
}

/// A non-blank text drawn only with rule characters and whitespace
/// (`=====`, `- - -`).
pub open spec fn rule_line(s: Seq<char>) -> bool {
    &&& forall|i: int| 0 <= i < s.len() ==> is_rule_char(#[trigger] s[i]) || is_ws(s[i])
    &&& !blank(s)
}

/// A separator line: a rule line, bare (`=====`) or inside a comment,
/// after the line's indentation, comment marker and the space after it
/// (`// ----`, `# ====`).
pub open spec fn separator_line(s: Seq<char>) -> bool {
    ||| rule_line(s)
    ||| rule_line(s.skip(detected_prefix(s).len() as int))
}

/// The line starts with one of the built-in directive prefixes.
pub open spec fn has_directive_prefix(line: Seq<char>) -> bool {
    exists|i: int| 0 <= i < N_DIRECTIVE_PREFIXES && starts_with(line, #[trigger] directive_prefix(i))
}

/// A line that looks like a directive that should pass through the
/// reflow pipeline verbatim: a known tool prefix, a lone URL, or a
/// separator line.
pub open spec fn default_directive(line: Seq<char>) -> bool {
    ||| has_directive_prefix(line)
    ||| (word_count(line) == 1 && contains(line, "://"@))
    ||| separator_line(line)
}

fn count_words(s: &Vec<char>) -> (n: usize)
    ensures
        n == word_count(s@),
{
    let mut n: usize = 0;
    let mut i: usize = 0;
    while i < s.len()
        invariant
            i <= s@.len(),
            n == word_count(s@.take(i as int)),
            n <= i,
        decreases s@.len() - i,
    {
        let start = !is_whitespace(s[i]) && (i == 0 || is_whitespace(s[i - 1]));
        proof {
            let t = s@.take(i + 1);
            assert(t.drop_last() =~= s@.take(i as int));
            assert(t[i as int] == s@[i as int]);
            if i > 0 {
                assert(t[i - 1] == s@[i - 1]);
            }
            assert(start == starts_word(t, i as int));
        }
        if start {
            n += 1;
        }
        i += 1;
    }
    proof {
        assert(s@.take(s@.len() as int) =~= s@);
    }
    n
}

fn is_separator_line(s: &Vec<char>) -> (r: bool)
    ensures
        r == separator_line(s@),
{
    if is_rule_line(s) {
        return true;
    }
    let p = prefix_of(s);
    let rest = subrange(s, p.len(), s.len());
    proof {
        assert(rest@ =~= s@.skip(detected_prefix(s@).len() as int));
    }
    is_rule_line(&rest)
}

fn is_rule_line(s: &Vec<char>) -> (r: bool)
    ensures
        r == rule_line(s@),
{
    let mut i: usize = 0;
    while i < s.len()
        invariant
            i <= s@.len(),
            forall|k: int| 0 <= k < i ==> is_rule_char(#[trigger] s@[k]) || is_ws(s@[k]),
        decreases s@.len() - i,
    {
        let c = s[i];
        if !(c == '-' || c == '=' || c == '*' || c == '_' || is_whitespace(c)) {
            return false;
        }
        i += 1;
    }
    !is_blank(s)
}

/// Return true when the line looks like a directive that should
/// pass through the reflow pipeline verbatim.
pub fn is_default_directive(line: &str) -> (r: bool)
    ensures
        r == default_directive(line@),
{
    is_directive(&chars_of(line))
}

/// [`is_default_directive`] on a line given as characters.
pub fn is_directive(line: &Vec<char>) -> (r: bool)
    ensures
        r == default_directive(line@),
{
    let mut i: usize = 0;
    while i < N_DIRECTIVE_PREFIXES
        invariant
            i <= N_DIRECTIVE_PREFIXES,
            forall|k: int| 0 <= k < i ==> !starts_with(line@, #[trigger] directive_prefix(k)),
        decreases N_DIRECTIVE_PREFIXES - i,
    {
        let p = chars_of(directive_prefix_str(i));
        proof {
            assert(line@.skip(0) =~= line@);
        }
        if starts_with_at(line, 0, &p) {
            return true;
        }
        i += 1;
    }
    // A line that is a lone URL with nothing else to wrap.
    if count_words(line) == 1 && contains_chars(line, &chars_of("://")) {
        return true;
    }
    // Separator lines inside comments ("// ----" etc.).
    is_separator_line(line)
}

/// Tool directives pass through: a line that starts with any of the
/// known tool prefixes (`//go:`, `// +build`, `// eslint-`, `#!/`,
/// `# noqa`, ...) is a directive.
pub proof fn law_tool_prefixes_are_directives(line: Seq<char>)
    ensures
        starts_with(line, "//go:"@) ==> default_directive(line),
        starts_with(line, "// +build"@) ==> default_directive(line),
        starts_with(line, "//nolint"@) ==> default_directive(line),
        starts_with(line, "//noinspection"@) ==> default_directive(line),
        starts_with(line, "//lint:"@) ==> default_directive(line),
        starts_with(line, "#["@) ==> default_directive(line),
        starts_with(line, "#!["@) ==> default_directive(line),
        starts_with(line, "#!/"@) ==> default_directive(line),
        starts_with(line, "# type:"@) ==> default_directive(line),
        starts_with(line, "# noqa"@) ==> default_directive(line),
        starts_with(line, "# pragma:"@) ==> default_directive(line),
        starts_with(line, "// @ts-"@) ==> default_directive(line),
        starts_with(line, "// eslint-"@) ==> default_directive(line),
        starts_with(line, "/* eslint-"@) ==> default_directive(line),
        starts_with(line, "// @param"@) ==> default_directive(line),
        starts_with(line, "// @returns"@) ==> default_directive(line),
        starts_with(line, "// @internal"@) ==> default_directive(line),
        starts_with(line, "// @deprecated"@) ==> default_directive(line),
        starts_with(line, "// @see"@) ==> default_directive(line),
{
    if starts_with(line, "//go:"@) {
        assert(directive_prefix(0) == "//go:"@);
        assert(starts_with(line, directive_prefix(0)));
    }
    if starts_with(line, "// +build"@) {
        assert(directive_prefix(1) == "// +build"@);
        assert(starts_with(line, directive_prefix(1)));
    }
    if starts_with(line, "//nolint"@) {
        assert(directive_prefix(2) == "//nolint"@);
        assert(starts_with(line, directive_prefix(2)));
    }
    if starts_with(line, "//noinspection"@) {
        assert(directive_prefix(3) == "//noinspection"@);
        assert(starts_with(line, directive_prefix(3)));
    }
    if starts_with(line, "//lint:"@) {
        assert(directive_prefix(4) == "//lint:"@);
        assert(starts_with(line, directive_prefix(4)));
    }
    if starts_with(line, "#["@) {
        assert(directive_prefix(5) == "#["@);
        assert(starts_with(line, directive_prefix(5)));
    }
    if starts_with(line, "#!["@) {
        assert(directive_prefix(6) == "#!["@);
        assert(starts_with(line, directive_prefix(6)));
    }
    if starts_with(line, "#!/"@) {
        assert(directive_prefix(7) == "#!/"@);
        assert(starts_with(line, directive_prefix(7)));
    }
    if starts_with(line, "# type:"@) {
        assert(directive_prefix(8) == "# type:"@);
        assert(starts_with(line, directive_prefix(8)));
    }
    if starts_with(line, "# noqa"@) {
        assert(directive_prefix(9) == "# noqa"@);
        assert(starts_with(line, directive_prefix(9)));
    }
    if starts_with(line, "# pragma:"@) {
        assert(directive_prefix(10) == "# pragma:"@);
        assert(starts_with(line, directive_prefix(10)));
    }
    if starts_with(line, "// @ts-"@) {
        assert(directive_prefix(11) == "// @ts-"@);
        assert(starts_with(line, directive_prefix(11)));
    }
    if starts_with(line, "// eslint-"@) {
        assert(directive_prefix(12) == "// eslint-"@);
        assert(starts_with(line, directive_prefix(12)));
    }
    if starts_with(line, "/* eslint-"@) {
        assert(directive_prefix(13) == "/* eslint-"@);
        assert(starts_with(line, directive_prefix(13)));
    }
    if starts_with(line, "// @param"@) {
        assert(directive_prefix(14) == "// @param"@);
        assert(starts_with(line, directive_prefix(14)));
    }
    if starts_with(line, "// @returns"@) {
        assert(directive_prefix(15) == "// @returns"@);
        assert(starts_with(line, directive_prefix(15)));
    }
    if starts_with(line, "// @internal"@) {
        assert(directive_prefix(16) == "// @internal"@);
        assert(starts_with(line, directive_prefix(16)));
    }
    if starts_with(line, "// @deprecated"@) {
        assert(directive_prefix(17) == "// @deprecated"@);
        assert(starts_with(line, directive_prefix(17)));
    }
    if starts_with(line, "// @see"@) {
        assert(directive_prefix(18) == "// @see"@);
        assert(starts_with(line, directive_prefix(18)));
    }
}

} // verus!
