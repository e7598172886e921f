use parfit::prefix::detect_prefix;
use parfit::{reflow, reflow_source, Language, Options};

#[test]
fn law_directive_text_is_unchanged() {
    let input = "//go:generate stringer -type=Kind with a long enough tail to wrap\n\n#!/usr/bin/env bash\n// --------------------------------------------\n";
    assert_eq!(reflow(input, &Options::new(20)), input);
}

#[test]
fn law_skip_pattern_text_is_unchanged() {
    let input = "// TODO(x): one long line that would otherwise be wrapped at this width\n// TODO(y): and another one that is also long\n";
    let opts = Options::new(20).with_skip(r"TODO\(").unwrap();
    assert_eq!(reflow(input, &opts), input);
}

#[test]
fn law_markdown_structure_is_unchanged() {
    let input = "# A heading that is much longer than the target width of the run\n- a bullet that is also much longer than the target width of the run\n\n> a quote\n";
    assert_eq!(
        reflow_source(input, Language::Markdown, &Options::new(20)),
        input
    );
}

#[test]
fn law_unclosed_fence_passes_through() {
    let input = "```\nsome code that is far longer than the width and must never be wrapped by anything\nmore code";
    assert_eq!(
        reflow_source(input, Language::Markdown, &Options::new(20)),
        input
    );
}

#[test]
fn law_fence_opens_once_at_a_time() {
    // Inside a ``` region a ~~~ line is content, not a second open;
    // the next ``` closes the region and the prose after it wraps.
    let input = "```\n~~~\n```\none two three four five six seven eight nine ten eleven\n";
    let expected = "```\n~~~\n```\none two three four five six seven eight nine ten\neleven\n";
    assert_eq!(
        reflow_source(input, Language::Markdown, &Options::new(50)),
        expected
    );
}

#[test]
fn law_code_without_comments_is_unchanged() {
    let input = "package main\n\nfunc main() {\n    println(\"a very long line of code that is far beyond the target width\")\n}";
    assert_eq!(reflow_source(input, Language::Go, &Options::new(20)), input);
    assert_eq!(reflow_source(input, Language::C, &Options::new(20)), input);
}

#[test]
fn law_text_language_is_plain_reflow() {
    let input = "// one two three four five six seven eight nine ten eleven twelve\n\nplain words that also wrap at the same width as the comment above\n";
    let opts = Options::new(30);
    assert_eq!(
        reflow_source(input, Language::Text, &opts),
        reflow(input, &opts)
    );
}

#[test]
fn law_empty_text_for_any_options() {
    let opts = Options::new(5)
        .with_default_skips(false)
        .with_forced_prefix("# ".to_string());
    assert_eq!(reflow("", &opts), "");
    assert_eq!(reflow_source("", Language::Rust, &opts), "");
}

#[test]
fn law_wrapped_lines_keep_prefix_and_words() {
    let prose: Vec<char> = "see https://example.com/a/long/path and some-thing more words here"
        .chars()
        .collect();
    let prefix: Vec<char> = "  ;; ".chars().collect();
    let out: String = parfit::reflow::wrap_prose(&prose, &prefix, 15).into_iter().collect();
    let mut words = Vec::new();
    for line in out.lines() {
        assert!(line.starts_with("  ;; "), "line without prefix: {line:?}");
        words.extend(line["  ;; ".len()..].split(' ').map(|w| w.to_string()));
    }
    assert!(words.contains(&"https://example.com/a/long/path".to_string()));
    let rejoined: String = words.concat();
    let spelled: String = "see https://example.com/a/long/path and some-thing more words here"
        .split(' ')
        .collect();
    assert_eq!(rejoined, spelled);
}

#[test]
fn law_detect_prefix_is_idempotent() {
    for line in ["// hello", "    /// doc", "#!x", "  * item", "plain", "   ", ";; lisp", "//"] {
        let p = detect_prefix(line);
        assert_eq!(detect_prefix(&p), p, "{line:?}");
    }
}

#[test]
fn law_names_that_are_extensions_agree() {
    for e in [
        "py", "sh", "bash", "ex", "go", "rs", "js", "ts", "java", "scala", "c", "cpp", "lua",
        "sql", "lisp", "md", "markdown",
    ] {
        assert_eq!(Language::parse(e), Ok(Language::from_extension(Some(e))), "{e}");
    }
}

#[test]
fn law_code_lines_keep_their_order() {
    let input = "x = 1\n# one two three four five six seven eight\ny = 2\n# nine ten\nz = 3\n";
    let out = reflow_source(input, Language::Python, &Options::new(16));
    let code: Vec<&str> = out.lines().filter(|l| !l.starts_with('#')).collect();
    assert_eq!(code, vec!["x = 1", "y = 2", "z = 3"]);
    assert!(out.lines().filter(|l| l.starts_with('#')).count() > 2);
}

#[test]
fn law_structural_lines_keep_their_order() {
    let input = "# Title\nsome prose that is long enough to be wrapped here\n- item one\n\n| a | b |\n";
    let out = reflow_source(input, Language::Markdown, &Options::new(20));
    let kept: Vec<&str> = out
        .lines()
        .filter(|l| l.starts_with('#') || l.starts_with("- ") || l.starts_with('|') || l.is_empty())
        .collect();
    assert_eq!(kept, vec!["# Title", "- item one", "", "| a | b |"]);
}

#[test]
fn law_visible_text_is_kept() {
    let input = "// alpha beta gamma delta epsilon zeta eta theta iota kappa\n// lambda mu\n";
    let out = reflow(input, &Options::new(24));
    let vis = |s: &str| -> String {
        s.lines()
            .map(|l| l.strip_prefix("// ").unwrap_or(l))
            .collect::<String>()
            .chars()
            .filter(|c| !c.is_whitespace())
            .collect()
    };
    assert_eq!(vis(&out), vis(input));
    assert!(out.lines().count() > 2);
}

#[test]
fn law_fenced_lines_keep_their_order() {
    let input = "intro prose that is long enough to wrap at twenty\n```\nlet x = 1;   // a long code line that must not wrap at all\n\nlet y = 2;\n```\nmore prose after the fence that also wraps\n~~~\nunclosed fence body line\n";
    let out = reflow_source(input, Language::Markdown, &Options::new(20));
    let fenced = [
        "```",
        "let x = 1;   // a long code line that must not wrap at all",
        "",
        "let y = 2;",
        "```",
        "~~~",
        "unclosed fence body line",
    ];
    let lines: Vec<&str> = out.lines().collect();
    let mut at = 0;
    for f in fenced {
        let pos = lines[at..].iter().position(|l| *l == f).expect(f);
        at += pos + 1;
    }
}

#[test]
fn law_one_paragraph_keeps_prefix_and_text() {
    let input = "// see https://example.org/a-long-path-with-hyphens/and/more for the\n// details of the argument\n";
    let out = reflow(input, &Options::new(30));
    assert!(out.ends_with('\n'));
    assert!(out.lines().all(|l| l.starts_with("// ")));
    assert!(out.lines().any(|l| l.contains("https://example.org/a-long-path-with-hyphens/and/more")));
    let vis = |s: &str| -> String {
        s.lines()
            .map(|l| &l[3..])
            .collect::<String>()
            .chars()
            .filter(|c| !c.is_whitespace())
            .collect()
    };
    assert_eq!(vis(&out), vis(input));
}
