//! Tests for the key duplicates rule.

use yaml_lint_core::rules::key_duplicates::KeyDuplicatesRule;
use yaml_lint_core::rules::LintContext;

#[test]
fn test_no_duplicates() {
    let yaml = "key1: value1\nkey2: value2\nkey3: value3\n";
    let context = LintContext::new(yaml.to_string());
    let rule = KeyDuplicatesRule;
    let problems = rule.check(&context);

    assert!(problems.is_empty());
}

#[test]
fn test_simple_duplicate() {
    let yaml = "key: value1\nkey: value2\n";
    let context = LintContext::new(yaml.to_string());
    let rule = KeyDuplicatesRule;
    let problems = rule.check(&context);

    assert_eq!(problems.len(), 1);
    assert_eq!(problems[0].line, 2);
    assert!(problems[0].message.contains("duplicate key"));
}

#[test]
fn test_duplicate_with_quotes() {
    let yaml = "\"key\": value1\n\"key\": value2\n";
    let context = LintContext::new(yaml.to_string());
    let rule = KeyDuplicatesRule;
    let problems = rule.check(&context);

    assert_eq!(problems.len(), 1);
}

#[test]
fn test_nested_no_duplicate() {
    let yaml = "parent:\n  key: value1\nanother:\n  key: value2\n";
    let context = LintContext::new(yaml.to_string());
    let rule = KeyDuplicatesRule;
    let problems = rule.check(&context);

    assert!(problems.is_empty());
}

#[test]
fn test_nested_duplicate() {
    let yaml = "parent:\n  key: value1\n  key: value2\n";
    let context = LintContext::new(yaml.to_string());
    let rule = KeyDuplicatesRule;
    let problems = rule.check(&context);

    assert_eq!(problems.len(), 1);
    assert_eq!(problems[0].line, 3);
}

#[test]
fn test_multiple_duplicates() {
    let yaml = "key1: value1\nkey1: value2\nkey2: value3\nkey2: value4\n";
    let context = LintContext::new(yaml.to_string());
    let rule = KeyDuplicatesRule;
    let problems = rule.check(&context);

    assert_eq!(problems.len(), 2);
}

#[test]
fn key_duplicates_test_comment_ignored() {
    let yaml = "key: value1\n# key: comment\nkey2: value2\n";
    let context = LintContext::new(yaml.to_string());
    let rule = KeyDuplicatesRule;
    let problems = rule.check(&context);

    assert!(problems.is_empty());
}

#[test]
fn key_duplicates_test_colon_in_string_ignored() {
    let yaml = "key: \"value:with:colon\"\nkey2: value\n";
    let context = LintContext::new(yaml.to_string());
    let rule = KeyDuplicatesRule;
    let problems = rule.check(&context);

    assert!(problems.is_empty());
}

#[test]
fn test_list_items_different_scope() {
    let yaml = "list:\n  - key: value1\n  - key: value2\n";
    let context = LintContext::new(yaml.to_string());
    let rule = KeyDuplicatesRule;
    let problems = rule.check(&context);

    assert!(problems.is_empty());
}
