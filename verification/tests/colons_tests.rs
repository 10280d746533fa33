//! Tests for the colons rule.

use yaml_lint_core::rules::colons::ColonsRule;
use yaml_lint_core::rules::LintContext;

#[test]
fn colons_test_correct_spacing() {
    let yaml = "key: value\nkey2: value2\n";
    let context = LintContext::new(yaml.to_string());
    let rule = ColonsRule::new();
    let problems = rule.check(&context);

    assert!(problems.is_empty());
}

#[test]
fn test_spaces_before_colon() {
    let yaml = "key : value\n";
    let context = LintContext::new(yaml.to_string());
    let rule = ColonsRule::new();
    let problems = rule.check(&context);

    assert_eq!(problems.len(), 1);
    assert!(problems[0].message.contains("too many spaces before colon"));
}

#[test]
fn test_too_many_spaces_after_colon() {
    let yaml = "key:  value\n";
    let context = LintContext::new(yaml.to_string());
    let rule = ColonsRule::new();
    let problems = rule.check(&context);

    assert_eq!(problems.len(), 1);
    assert!(problems[0].message.contains("too many spaces after colon"));
}

#[test]
fn test_custom_spacing() {
    let yaml = "key :  value\n";
    let context = LintContext::new(yaml.to_string());
    let rule = ColonsRule::with_spacing(1, 2);
    let problems = rule.check(&context);

    assert!(problems.is_empty());
}

#[test]
fn test_colon_at_end_of_line() {
    let yaml = "key:\n  value\n";
    let context = LintContext::new(yaml.to_string());
    let rule = ColonsRule::new();
    let problems = rule.check(&context);

    assert!(problems.is_empty());
}

#[test]
fn colons_test_colon_in_string_ignored() {
    let yaml = "key: \"value:with:colons\"\n";
    let context = LintContext::new(yaml.to_string());
    let rule = ColonsRule::new();
    let problems = rule.check(&context);

    assert!(problems.is_empty());
}

#[test]
fn test_comment_line_ignored() {
    let yaml = "# comment: with colon\nkey: value\n";
    let context = LintContext::new(yaml.to_string());
    let rule = ColonsRule::new();
    let problems = rule.check(&context);

    assert!(problems.is_empty());
}

#[test]
fn test_document_marker_ignored() {
    let yaml = "---\nkey: value\n";
    let context = LintContext::new(yaml.to_string());
    let rule = ColonsRule::new();
    let problems = rule.check(&context);

    assert!(problems.is_empty());
}

#[test]
fn test_no_space_after_colon() {
    let yaml = "key:value\n";
    let context = LintContext::new(yaml.to_string());
    let rule = ColonsRule::new();
    let problems = rule.check(&context);

    assert!(problems.is_empty());
}
