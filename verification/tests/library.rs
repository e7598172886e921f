use parfit::cli::{build_options, lang_from_cli, reflow_file, resolve_positionals};
use parfit::directives::is_default_directive;
use parfit::filter::{build_globset, keep};
use parfit::prefix::detect_prefix;
use parfit::{reflow, reflow_source, Language, Options};

#[test]
fn joins_a_paragraph_onto_one_line_when_it_fits() {
    assert_eq!(
        reflow("// a b c\n// d e\n", &Options::new(40)),
        "// a b c d e\n"
    );
}

#[test]
fn a_last_line_without_newline_gains_one() {
    assert_eq!(reflow("// hello world", &Options::new(40)), "// hello world\n");
}

#[test]
fn blank_lines_keep_their_exact_text() {
    let input = "// a\n   \n\n// b";
    assert_eq!(reflow(input, &Options::new(40)), "// a\n   \n\n// b\n");
}

#[test]
fn crlf_paragraph_is_rewritten_with_newlines() {
    assert_eq!(reflow("// a\r\n// b\r\n", &Options::new(40)), "// a b\n");
}

#[test]
fn forced_prefix_joins_lines_with_other_prefixes() {
    let opts = Options::new(40).with_forced_prefix("> ".to_string());
    assert_eq!(reflow("> one\n# two\n", &opts), "> one # two\n");
}

#[test]
fn four_space_indent_is_preformatted() {
    let input = "    code    with    columns that go on and on and on and on\n";
    assert_eq!(reflow(input, &Options::new(20)), input);
}

#[test]
fn body_width_never_drops_below_ten() {
    // Width 5 leaves no room after "// ": the body is still 10 wide.
    assert_eq!(
        reflow("// aaa bbb ccc\n", &Options::new(5)),
        "// aaa bbb\n// ccc\n"
    );
}

#[test]
fn prefix_only_paragraph_passes_through() {
    assert_eq!(reflow("//\n", &Options::new(40)), "//\n");
}

#[test]
fn lisp_double_semicolon_keeps_only_one_as_prefix() {
    // `;` is the marker and no space follows it, so the prefix is `;`
    // and the second `;` is prose.
    let input = ";; one two three four five six seven\n";
    assert_eq!(
        reflow_source(input, Language::Lisp, &Options::new(20)),
        ";; one two three\n;four five six seven\n"
    );
}

#[test]
fn unterminated_block_comment_runs_to_the_end() {
    let input = "int x;\n/* one two three four five six\n";
    assert_eq!(
        reflow_source(input, Language::C, &Options::new(20)),
        "int x;\n/* one two three\n/* four five six\n"
    );
}

#[test]
fn directive_heuristics() {
    assert!(is_default_directive("https://example.com/x"));
    assert!(!is_default_directive("see https://example.com/x"));
    // A rule line counts bare or after a comment marker.
    assert!(is_default_directive("// -----"));
    assert!(is_default_directive("# ====="));
    assert!(is_default_directive("    //  - - -"));
    assert!(!is_default_directive("// ---- x"));
    assert!(!is_default_directive("// "));
    assert!(is_default_directive("- - -"));
    assert!(is_default_directive("====="));
    assert!(!is_default_directive("   "));
    assert!(!is_default_directive("-- a"));
    assert!(is_default_directive("# noqa: E501"));
    assert!(is_default_directive("#[derive(Debug)]"));
    assert!(!is_default_directive("# a comment"));
}

#[test]
fn prefix_detection_edge_cases() {
    assert_eq!(detect_prefix(" * continued"), " * ");
    assert_eq!(detect_prefix("\tplain"), "\t");
    assert_eq!(detect_prefix(";; lisp"), ";");
    assert_eq!(detect_prefix("/** doc"), "/** ");
    assert_eq!(detect_prefix(""), "");
}

#[test]
fn invalid_skip_pattern_is_an_error() {
    let err = Options::new(40).with_skip("foo(").unwrap_err();
    assert_eq!(err.pattern, "foo(");
}

#[test]
fn unknown_language_error_names_it_in_lower_case() {
    assert_eq!(
        Language::parse("HaSkElL").unwrap_err(),
        "unknown language: haskell"
    );
    assert_eq!(Language::parse("C++").unwrap(), Language::C);
}

#[test]
fn extension_lookup_ignores_case() {
    assert_eq!(Language::from_extension(Some("PY")), Language::Python);
    assert_eq!(Language::from_extension(None), Language::Text);
    assert_eq!(Language::from_path("archive.tar.GZ"), Language::Text);
    assert_eq!(Language::from_path(".bashrc"), Language::Text);
    assert_eq!(Language::from_path("dir.d/file"), Language::Text);
    assert_eq!(Language::from_path("Main.JAVA"), Language::Java);
}

#[test]
fn markdown_spec_has_two_fences() {
    let spec = Language::Markdown.spec();
    assert_eq!(spec.fences.len(), 2);
    assert_eq!(spec.fences[1].open, "~~~");
    assert_eq!(spec.ignore_markers, &["#", "- ", "* ", "+ ", "> ", "|"]);
    assert!(Language::Text.spec().line_markers.is_empty());
    assert_eq!(Language::Rust.spec().line_markers, &["//", "///", "//!"]);
}

#[test]
fn cli_language_names() {
    assert_eq!(lang_from_cli(None), Ok(None));
    assert_eq!(lang_from_cli(Some("MD")), Ok(Some(Language::Markdown)));
    assert_eq!(
        lang_from_cli(Some("x")),
        Err("unknown language: x".to_string())
    );
}

#[test]
fn cli_options_fail_on_first_bad_pattern() {
    let skips = vec!["ok".to_string(), "(".to_string(), "[".to_string()];
    let err = build_options(68, false, &skips, None).unwrap_err();
    assert_eq!(err.pattern, "(");
}

#[test]
fn cli_options_apply_every_flag() {
    let skips = vec!["KEEP".to_string()];
    let opts = build_options(20, true, &skips, Some("# ".to_string())).unwrap();
    assert_eq!(opts.width, 20);
    assert_eq!(opts.forced_prefix.as_deref(), Some("# "));
    // Skip pattern on, built-in list off: the directive wraps, the
    // KEEP line does not.
    assert_eq!(reflow("# KEEP this line even though it is long\n", &opts), "# KEEP this line even though it is long\n");
    assert_ne!(reflow("#!/usr/bin/env bash with a long tail to wrap\n", &opts), "#!/usr/bin/env bash with a long tail to wrap\n");
}

#[test]
fn positionals_split_into_roots_and_patterns() {
    let args = vec!["src".to_string(), "*.rs".to_string()];
    let (roots, patterns) = resolve_positionals(&args, true, &vec![true, false]);
    assert_eq!(roots, vec!["src".to_string()]);
    assert_eq!(patterns, vec!["*.rs".to_string()]);
    let (roots, patterns) = resolve_positionals(&args, true, &vec![false, false]);
    assert_eq!(roots, vec![".".to_string()]);
    assert_eq!(patterns, args);
    let (roots, patterns) = resolve_positionals(&args, false, &vec![true, false]);
    assert_eq!(roots, args);
    assert!(patterns.is_empty());
}

#[test]
fn file_language_comes_from_extension_unless_forced() {
    let opts = Options::new(20);
    let content = "# one two three four five six seven\nx = 1\n";
    assert_eq!(
        reflow_file(content, "a.py", None, &opts),
        reflow_source(content, Language::Python, &opts)
    );
    assert_eq!(
        reflow_file(content, "a.py", Some(Language::Text), &opts),
        reflow(content, &opts)
    );
}

#[test]
fn glob_filters_decide_which_files_are_kept() {
    assert!(build_globset(&vec![]).unwrap().is_none());
    assert!(build_globset(&vec!["a[".to_string()]).is_err());
    let rust = build_globset(&vec!["*.rs".to_string()]).unwrap().unwrap();
    let docs = build_globset(&vec!["docs/**".to_string()]).unwrap().unwrap();
    assert!(keep("a.rs", "src/a.rs", Some(&rust), None));
    assert!(!keep("a.py", "src/a.py", Some(&rust), None));
    assert!(keep("a.py", "src/a.py", None, None));
    // Exclusion wins, by path as well as by name.
    assert!(!keep("b.rs", "docs/b.rs", Some(&rust), Some(&docs)));
    assert!(keep("b.rs", "src/b.rs", Some(&rust), Some(&docs)));
}

#[test]
fn lua_comment_keeps_its_marker_on_every_line() {
    let out = reflow_source("-- aaa bbb ccc ddd\n", Language::Lua, &Options::new(13));
    assert_eq!(out, "-- aaa bbb\n-- ccc ddd\n");
}

#[test]
fn sql_comment_keeps_its_marker_between_code() {
    let input = "SELECT 1;\n  -- one two three four five six seven\nSELECT 2;\n";
    let out = reflow_source(input, Language::SQL, &Options::new(20));
    assert!(out.starts_with("SELECT 1;\n"));
    assert!(out.ends_with("SELECT 2;\n"));
    for line in out.lines().skip(1).take_while(|l| !l.starts_with("SELECT")) {
        assert!(line.starts_with("  -- "), "{line:?}");
    }
}

#[test]
fn commented_separator_passes_through() {
    let input = "// ------------\n";
    assert_eq!(reflow(input, &Options::new(10)), input);
}

#[test]
fn hyphenated_url_stays_on_one_line() {
    let url = "https://example-site.io/some-long-path-with-many-hyphens";
    let input = format!("// see {url} for the long-winded background story here\n");
    let out = reflow(&input, &Options::new(30));
    assert!(out.lines().any(|l| l.contains(url)), "{out}");
    assert!(out.lines().all(|l| l.starts_with("// ")));
}

#[test]
fn hyphenated_words_are_not_split() {
    let out = reflow("well-known state-of-the-art reflow\n", &Options::new(12));
    for word in ["well-known", "state-of-the-art", "reflow"] {
        assert!(out.lines().any(|l| l.contains(word)), "{out}");
    }
}
