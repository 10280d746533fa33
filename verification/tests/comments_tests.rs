//! Tests for the comments rule.

use yaml_lint_core::rules::comments::CommentsRule;
use yaml_lint_core::rules::LintContext;

#[test]
fn test_proper_comment() {
    let yaml = "# This is a proper comment\nkey: value\n";
    let context = LintContext::new(yaml.to_string());
    let rule = CommentsRule::new();
    let problems = rule.check(&context);

    assert!(problems.is_empty());
}

#[test]
fn test_missing_space_after_hash() {
    let yaml = "#This comment has no space\nkey: value\n";
    let context = LintContext::new(yaml.to_string());
    let rule = CommentsRule::new();
    let problems = rule.check(&context);

    assert_eq!(problems.len(), 1);
    assert!(problems[0].message.contains("missing space"));
}

#[test]
fn test_shebang_ignored() {
    let yaml = "#!/bin/bash\n# Normal comment\nkey: value\n";
    let context = LintContext::new(yaml.to_string());
    let rule = CommentsRule::new();
    let problems = rule.check(&context);

    assert!(problems.is_empty());
}

#[test]
fn test_inline_comment_proper_spacing() {
    let yaml = "key: value  # This is an inline comment\n";
    let context = LintContext::new(yaml.to_string());
    let rule = CommentsRule::new();
    let problems = rule.check(&context);

    assert!(problems.is_empty());
}

#[test]
fn test_inline_comment_insufficient_spacing() {
    let yaml = "key: value # Too close\n";
    let context = LintContext::new(yaml.to_string());
    let rule = CommentsRule::new();
    let problems = rule.check(&context);

    assert_eq!(problems.len(), 1);
    assert!(problems[0].message.contains("too few spaces"));
}

#[test]
fn test_hash_in_string_ignored() {
    let yaml = "key: \"value with # hash\"\n";
    let context = LintContext::new(yaml.to_string());
    let rule = CommentsRule::new();
    let problems = rule.check(&context);

    assert!(problems.is_empty());
}

#[test]
fn test_hash_in_single_quote_ignored() {
    let yaml = "key: 'value with # hash'\n";
    let context = LintContext::new(yaml.to_string());
    let rule = CommentsRule::new();
    let problems = rule.check(&context);

    assert!(problems.is_empty());
}

#[test]
fn test_hash_after_escaped_single_quote() {
    let yaml = "key: 'Don''t find a # here'\n";
    let context = LintContext::new(yaml.to_string());
    let rule = CommentsRule::new();
    let problems = rule.check(&context);

    assert!(
        problems.is_empty(),
        "Should not find a comment inside a single-quoted string with escaped quotes"
    );
}

#[test]
fn test_hash_after_escaped_double_quote() {
    let yaml = "key: \"value with \\\" and # here\"\n";
    let context = LintContext::new(yaml.to_string());
    let rule = CommentsRule::new();
    let problems = rule.check(&context);

    assert!(
        problems.is_empty(),
        "Should not find a comment inside a double-quoted string with escaped quotes"
    );
}

#[test]
fn test_comment_after_single_quoted_string() {
    let yaml = "key: 'value'  # This is a comment\n";
    let context = LintContext::new(yaml.to_string());
    let rule = CommentsRule::new();
    let problems = rule.check(&context);

    assert!(problems.is_empty());
}

#[test]
fn test_section_header_comment() {
    let yaml = "## Section Header\nkey: value\n";
    let context = LintContext::new(yaml.to_string());
    let rule = CommentsRule::new();
    let problems = rule.check(&context);

    assert!(problems.is_empty());
}

#[test]
fn test_empty_comment() {
    let yaml = "#\nkey: value\n";
    let context = LintContext::new(yaml.to_string());
    let rule = CommentsRule::new();
    let problems = rule.check(&context);

    assert!(problems.is_empty());
}

#[test]
fn test_multiple_issues() {
    let yaml = "#Bad comment\nkey: value# Inline too close\n";
    let context = LintContext::new(yaml.to_string());
    let rule = CommentsRule::new();
    let problems = rule.check(&context);

    assert_eq!(problems.len(), 2);
}

#[test]
fn test_custom_config_no_space_required() {
    let yaml = "#No space needed\n";
    let context = LintContext::new(yaml.to_string());
    let rule = CommentsRule::with_config(false, true, 2);
    let problems = rule.check(&context);

    assert!(problems.is_empty());
}

#[test]
fn test_custom_min_spaces() {
    let yaml = "key: value   # 3 spaces\n";
    let context = LintContext::new(yaml.to_string());
    let rule = CommentsRule::with_config(true, true, 4);
    let problems = rule.check(&context);

    assert_eq!(problems.len(), 1);
    assert!(problems[0].message.contains("too few spaces"));
}

#[test]
fn test_fix_missing_space() {
    let yaml = "#No space\nkey: value\n";
    let context = LintContext::new(yaml.to_string());
    let rule = CommentsRule::new();
    let problems = rule.check(&context);

    assert!(!problems.is_empty());

    if let Some(fixed) = rule.fix(yaml, &problems[0]) {
        assert!(fixed.starts_with("# "));
    }
}

#[test]
fn test_fix_inline_spacing() {
    let yaml = "key: value# Comment\n";
    let context = LintContext::new(yaml.to_string());
    let rule = CommentsRule::new();
    let problems = rule.check(&context);

    assert!(!problems.is_empty());

    if let Some(fixed) = rule.fix(yaml, &problems[0]) {
        assert!(fixed.contains("value  #"));
    }
}
