//! Tests for the empty lines rule.

use yaml_lint_core::rules::empty_lines::EmptyLinesRule;
use yaml_lint_core::rules::LintContext;

#[test]
fn test_no_empty_lines() {
    let yaml = "key1: value1\nkey2: value2\n";
    let context = LintContext::new(yaml.to_string());
    let rule = EmptyLinesRule::new();
    let problems = rule.check(&context);

    assert!(problems.is_empty());
}

#[test]
fn test_single_empty_line() {
    let yaml = "key1: value1\n\nkey2: value2\n";
    let context = LintContext::new(yaml.to_string());
    let rule = EmptyLinesRule::new();
    let problems = rule.check(&context);

    assert!(problems.is_empty());
}

#[test]
fn test_two_empty_lines_allowed() {
    let yaml = "key1: value1\n\n\nkey2: value2\n";
    let context = LintContext::new(yaml.to_string());
    let rule = EmptyLinesRule::new();
    let problems = rule.check(&context);

    assert!(problems.is_empty());
}

#[test]
fn test_three_empty_lines_error() {
    let yaml = "key1: value1\n\n\n\nkey2: value2\n";
    let context = LintContext::new(yaml.to_string());
    let rule = EmptyLinesRule::new();
    let problems = rule.check(&context);

    assert_eq!(problems.len(), 1);
    assert!(problems[0].message.contains("too many blank lines (3 > 2)"));
}

#[test]
fn test_empty_line_at_start() {
    let yaml = "\nkey: value\n";
    let context = LintContext::new(yaml.to_string());
    let rule = EmptyLinesRule::new();
    let problems = rule.check(&context);

    assert_eq!(problems.len(), 1);
    assert!(problems[0].message.contains("at start of file"));
}

#[test]
fn test_empty_lines_at_end() {
    let yaml = "key: value\n\n";
    let context = LintContext::new(yaml.to_string());
    let rule = EmptyLinesRule::new();
    let problems = rule.check(&context);

    assert_eq!(problems.len(), 1);
    assert!(problems[0].message.contains("at end of file"));
}

#[test]
fn test_custom_max() {
    let yaml = "key1: value1\n\nkey2: value2\n";
    let context = LintContext::new(yaml.to_string());
    let rule = EmptyLinesRule::with_config(0, 0, 0);
    let problems = rule.check(&context);

    assert_eq!(problems.len(), 1);
    assert!(problems[0].message.contains("too many blank lines (1 > 0)"));
}

#[test]
fn test_custom_max_start() {
    let yaml = "\n\nkey: value\n";
    let context = LintContext::new(yaml.to_string());
    let rule = EmptyLinesRule::with_config(2, 1, 0);
    let problems = rule.check(&context);

    assert_eq!(problems.len(), 1);
    assert!(problems[0].message.contains("at start of file (2 > 1)"));
}

#[test]
fn test_custom_max_end() {
    let yaml = "key: value\n\n\n";
    let context = LintContext::new(yaml.to_string());
    let rule = EmptyLinesRule::with_config(2, 0, 1);
    let problems = rule.check(&context);

    assert_eq!(problems.len(), 1);
    assert!(problems[0].message.contains("at end of file (2 > 1)"));
}

#[test]
fn empty_lines_test_empty_file() {
    let yaml = "";
    let context = LintContext::new(yaml.to_string());
    let rule = EmptyLinesRule::new();
    let problems = rule.check(&context);

    assert!(problems.is_empty());
}

#[test]
fn test_whitespace_only_lines_count_as_empty() {
    let yaml = "key1: value1\n   \n   \n   \nkey2: value2\n";
    let context = LintContext::new(yaml.to_string());
    let rule = EmptyLinesRule::new();
    let problems = rule.check(&context);

    assert_eq!(problems.len(), 1);
    assert!(problems[0].message.contains("too many blank lines (3 > 2)"));
}

#[test]
fn empty_lines_test_multiple_violations() {
    let yaml = "\nkey1: value1\n\n\n\nkey2: value2\n\n";
    let context = LintContext::new(yaml.to_string());
    let rule = EmptyLinesRule::new();
    let problems = rule.check(&context);

    assert_eq!(problems.len(), 3);
}

#[test]
fn test_all_empty_lines_file() {
    let yaml = "\n\n\n";
    let context = LintContext::new(yaml.to_string());
    let rule = EmptyLinesRule::new();
    let problems = rule.check(&context);

    assert_eq!(problems.len(), 1);
    assert!(problems[0].message.contains("at start of file"));
}
