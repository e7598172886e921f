use parfit::prefix::detect_prefix;

#[test]
fn detects_slash_slash_prefix() {
    assert_eq!(detect_prefix("// hello"), "// ");
    assert_eq!(detect_prefix("    // hello"), "    // ");
    assert_eq!(detect_prefix("//hello"), "//");
}

#[test]
fn detects_hash_prefix() {
    assert_eq!(detect_prefix("# hello"), "# ");
    assert_eq!(detect_prefix("#hello"), "#");
}

#[test]
fn detects_rustdoc_prefixes() {
    assert_eq!(detect_prefix("/// hello"), "/// ");
    assert_eq!(detect_prefix("//! hello"), "//! ");
}
