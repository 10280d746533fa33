//! Tests for the indentation rule.

use yaml_lint_core::rules::indentation::{detect_indent_size, IndentationRule};
use yaml_lint_core::rules::LintContext;

#[test]
fn test_correct_indentation() {
    let yaml = "key1: value1\nkey2:\n  nested: value\n  nested2: value\n";
    let context = LintContext::new(yaml.to_string());
    let rule = IndentationRule::with_spaces(2);
    let problems = rule.check(&context);

    assert!(problems.is_empty());
}

#[test]
fn test_wrong_indentation() {
    let yaml = "key1: value1\nkey2:\n   nested: value\n";
    let context = LintContext::new(yaml.to_string());
    let rule = IndentationRule::with_spaces(2);
    let problems = rule.check(&context);

    assert_eq!(problems.len(), 1);
    assert!(problems[0].message.contains("wrong indentation"));
}

#[test]
fn test_tab_character() {
    let yaml = "key1: value1\n\tnested: value\n";
    let context = LintContext::new(yaml.to_string());
    let rule = IndentationRule::with_spaces(2);
    let problems = rule.check(&context);

    assert_eq!(problems.len(), 1);
    assert!(problems[0].message.contains("tab character"));
}

#[test]
fn test_four_space_indentation() {
    let yaml = "key1: value1\nkey2:\n    nested: value\n    nested2: value\n";
    let context = LintContext::new(yaml.to_string());
    let rule = IndentationRule::with_spaces(4);
    let problems = rule.check(&context);

    assert!(problems.is_empty());
}

#[test]
fn test_consistent_mode() {
    let yaml = "key1: value1\nkey2:\n  nested: value\n  nested2: value\n";
    let context = LintContext::new(yaml.to_string());
    let rule = IndentationRule::consistent();
    let problems = rule.check(&context);

    assert!(problems.is_empty());
}

#[test]
fn test_list_indentation() {
    let yaml = "list:\n  - item1\n  - item2\n";
    let context = LintContext::new(yaml.to_string());
    let rule = IndentationRule::with_spaces(2);
    let problems = rule.check(&context);

    assert!(problems.is_empty());
}

#[test]
fn indentation_test_nested_lists() {
    let yaml = "list:\n  - item1:\n      nested: value\n  - item2\n";
    let context = LintContext::new(yaml.to_string());
    let rule = IndentationRule::with_spaces(2);
    let problems = rule.check(&context);

    assert!(problems.is_empty());
}

#[test]
fn test_detect_indent_size_2() {
    let yaml = "key:\n  nested: value\n  nested2:\n    deep: value\n";
    let context = LintContext::new(yaml.to_string());

    let size = detect_indent_size(&context);
    assert_eq!(size, 2);
}

#[test]
fn test_detect_indent_size_4() {
    let yaml = "key:\n    nested: value\n    nested2:\n        deep: value\n";
    let context = LintContext::new(yaml.to_string());

    let size = detect_indent_size(&context);
    assert_eq!(size, 4);
}
