//! Ignored files and glob patterns.

use aidev::channel::ignore::{
    glob_match, has_hidden_component, parse_ignore_content, IgnoreFilter,
};

#[test]
fn hidden_erkennung() {
    assert!(has_hidden_component(".git/config"));
    assert!(has_hidden_component(".gitignore"));
    assert!(has_hidden_component("src/.hidden/file"));
    assert!(!has_hidden_component("src/main.rs"));
    assert!(!has_hidden_component("target/debug"));
    assert!(!has_hidden_component("."));
    assert!(!has_hidden_component(".."));
}

#[test]
fn parses_standard_gitignore() {
    let content = r#"
# Kommentar
target
build/

!build/dist

/src/.cache
**/temp
"#;
    let rules = parse_ignore_content(content);
    assert_eq!(rules.len(), 5, "rules={rules:?}");
    assert!(!rules[0].negated && !rules[0].anchored && rules[0].pattern == "target");
    assert!(!rules[1].negated && !rules[1].anchored && rules[1].pattern == "build");
    assert!(rules[2].negated && rules[2].anchored && rules[2].pattern == "build/dist");
    assert!(!rules[3].negated && rules[3].anchored && rules[3].pattern == "src/.cache");
    assert!(!rules[4].negated && !rules[4].anchored && rules[4].pattern == "temp");
}

#[test]
fn ignores_blank_and_comment_lines() {
    let content = "  \n# foo\nbar\n";
    let rules = parse_ignore_content(content);
    assert_eq!(rules.len(), 1);
    assert_eq!(rules[0].pattern, "bar");
}

#[test]
fn glob_literal() {
    assert!(glob_match("foo", "foo"));
    assert!(!glob_match("foo", "bar"));
    assert!(!glob_match("foo", "foo/"));
}

#[test]
fn glob_star() {
    assert!(glob_match("*.rs", "main.rs"));
    assert!(glob_match("*.rs", "lib.rs"));
    assert!(!glob_match("*.rs", "main.js"));
    assert!(!glob_match("*.rs", "dir/main.rs"));
    assert!(glob_match("src/*.rs", "src/main.rs"));
    assert!(!glob_match("src/*.rs", "src/deep/main.rs"));
}

#[test]
fn glob_question_mark() {
    assert!(glob_match("f?.rs", "fo.rs"));
    assert!(!glob_match("f?.rs", "foo.rs"));
    assert!(!glob_match("f?", "f/"));
    assert!(glob_match("f?", "f\u{e9}"), "one character, however many bytes it takes");
    assert!(!glob_match("f??", "f\u{e9}"));
    assert!(glob_match("*\u{e9}", "caf\u{e9}"));
}

#[test]
fn glob_double_star() {
    assert!(glob_match("**/target", "target"));
    assert!(glob_match("**/target", "src/target"));
    assert!(glob_match("**/target", "a/b/c/target"));
    assert!(!glob_match("**/target", "targets"));
    assert!(glob_match("src/**", "src/"));
    assert!(glob_match("src/**", "src/main.rs"));
    assert!(glob_match("src/**", "src/deep/nested.rs"));
    assert!(!glob_match("src/**", "other/file"));
    assert!(glob_match("**", "any/path"));
}

#[test]
fn glob_escape() {
    assert!(glob_match("a\\*b", "a*b"));
    assert!(!glob_match("a\\*b", "aXb"));
}

#[test]
fn ignore_filter_ohne_datei_falls_hidden() {
    let filter = IgnoreFilter { rules: Vec::new() };
    assert!(filter.is_ignored(".git/config"));
    assert!(filter.is_ignored("src/.cache/data"));
    assert!(!filter.is_ignored("src/main.rs"));
    assert!(!filter.is_ignored("target/debug"));
}

#[test]
fn ignore_filter_mit_gitignore_regeln() {
    let filter = IgnoreFilter {
        rules: parse_ignore_content("target\nbuild/\n!build/dist/**"),
    };
    assert!(filter.is_ignored("target/debug/aidev"));
    assert!(filter.is_ignored("build/output"));
    assert!(
        !filter.is_ignored("build/dist/release"),
        "Negation re-include"
    );
    assert!(
        !filter.is_ignored("build/dist/deep/x"),
        "Negation deckt Tiefe ab"
    );
    assert!(!filter.is_ignored("src/main.rs"));
}

#[test]
fn ignore_filter_anchored_pattern() {
    let filter = IgnoreFilter {
        rules: parse_ignore_content("/target"),
    };
    assert!(filter.is_ignored("target/debug"));
    assert!(!filter.is_ignored("src/target/nested.rs"), "Anchored");
}

#[test]
fn ignore_filter_negation_letzter_schlag() {
    let content = "*\n!src/\n*.md";
    let filter = IgnoreFilter {
        rules: parse_ignore_content(content),
    };
    assert!(filter.is_ignored("target/debug"));
    assert!(!filter.is_ignored("src/main.rs"), "Negation");
    assert!(filter.is_ignored("README.md"), "Letzte Regel gewinnt");
}
