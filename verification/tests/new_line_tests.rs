//! Tests for the new line at end of file rule.

use yaml_lint_core::problem::LintLevel;
use yaml_lint_core::rules::new_line_at_end_of_file::NewLineAtEndOfFileRule;
use yaml_lint_core::rules::LintContext;

#[test]
fn test_file_with_newline() {
    let yaml = "key: value\n";
    let context = LintContext::new(yaml.to_string());
    let rule = NewLineAtEndOfFileRule;
    let problems = rule.check(&context);

    assert!(problems.is_empty());
}

#[test]
fn test_file_without_newline() {
    let yaml = "key: value";
    let context = LintContext::new(yaml.to_string());
    let rule = NewLineAtEndOfFileRule;
    let problems = rule.check(&context);

    assert_eq!(problems.len(), 1);
    assert_eq!(problems[0].line, 1);
    assert_eq!(problems[0].column, 11);
    assert_eq!(
        problems[0].message,
        "no new line character at the end of file"
    );
    assert_eq!(problems[0].level, LintLevel::Error);
}

#[test]
fn test_multiline_file_without_newline() {
    let yaml = "key1: value1\nkey2: value2";
    let context = LintContext::new(yaml.to_string());
    let rule = NewLineAtEndOfFileRule;
    let problems = rule.check(&context);

    assert_eq!(problems.len(), 1);
    assert_eq!(problems[0].line, 2);
    assert_eq!(problems[0].column, 13);
}

#[test]
fn test_multiline_file_with_newline() {
    let yaml = "key1: value1\nkey2: value2\n";
    let context = LintContext::new(yaml.to_string());
    let rule = NewLineAtEndOfFileRule;
    let problems = rule.check(&context);

    assert!(problems.is_empty());
}

#[test]
fn new_line_at_end_of_file_test_empty_file() {
    let yaml = "";
    let context = LintContext::new(yaml.to_string());
    let rule = NewLineAtEndOfFileRule;
    let problems = rule.check(&context);

    assert!(problems.is_empty());
}

#[test]
fn test_only_newline() {
    let yaml = "\n";
    let context = LintContext::new(yaml.to_string());
    let rule = NewLineAtEndOfFileRule;
    let problems = rule.check(&context);

    assert!(problems.is_empty());
}

#[test]
fn test_multiple_trailing_newlines() {
    let yaml = "key: value\n\n\n";
    let context = LintContext::new(yaml.to_string());
    let rule = NewLineAtEndOfFileRule;
    let problems = rule.check(&context);

    assert!(problems.is_empty());
}
