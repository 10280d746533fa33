//! Tests for the trailing spaces rule.

use yaml_lint_core::problem::LintLevel;
use yaml_lint_core::rules::trailing_spaces::TrailingSpacesRule;
use yaml_lint_core::rules::LintContext;

#[test]
fn test_no_trailing_spaces() {
    let yaml = "key: value\nkey2: value2\n";
    let context = LintContext::new(yaml.to_string());
    let rule = TrailingSpacesRule;
    let problems = rule.check(&context);

    assert!(problems.is_empty());
}

#[test]
fn trailing_spaces_test_trailing_spaces_detected() {
    let yaml = "key: value   \nkey2: value2\n";
    let context = LintContext::new(yaml.to_string());
    let rule = TrailingSpacesRule;
    let problems = rule.check(&context);

    assert_eq!(problems.len(), 1);
    assert_eq!(problems[0].line, 1);
    assert_eq!(problems[0].column, 11);
    assert_eq!(problems[0].message, "trailing spaces");
    assert_eq!(problems[0].level, LintLevel::Error);
}

#[test]
fn test_trailing_tabs() {
    let yaml = "key: value\t\nkey2: value2\n";
    let context = LintContext::new(yaml.to_string());
    let rule = TrailingSpacesRule;
    let problems = rule.check(&context);

    assert_eq!(problems.len(), 1);
    assert_eq!(problems[0].line, 1);
}

#[test]
fn test_multiple_lines_with_trailing_spaces() {
    let yaml = "key1: value1  \nkey2: value2\nkey3: value3   \n";
    let context = LintContext::new(yaml.to_string());
    let rule = TrailingSpacesRule;
    let problems = rule.check(&context);

    assert_eq!(problems.len(), 2);
    assert_eq!(problems[0].line, 1);
    assert_eq!(problems[1].line, 3);
}

#[test]
fn test_empty_lines() {
    let yaml = "key: value\n\nkey2: value2\n";
    let context = LintContext::new(yaml.to_string());
    let rule = TrailingSpacesRule;
    let problems = rule.check(&context);

    assert!(problems.is_empty());
}
