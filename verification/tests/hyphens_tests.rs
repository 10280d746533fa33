//! Tests for the hyphens rule.

use yaml_lint_core::rules::hyphens::HyphensRule;
use yaml_lint_core::rules::LintContext;

#[test]
fn hyphens_test_correct_spacing() {
    let yaml = "list:\n  - item1\n  - item2\n";
    let context = LintContext::new(yaml.to_string());
    let rule = HyphensRule::new();
    let problems = rule.check(&context);

    assert!(problems.is_empty());
}

#[test]
fn test_too_many_spaces() {
    let yaml = "list:\n  -  item1\n  - item2\n";
    let context = LintContext::new(yaml.to_string());
    let rule = HyphensRule::new();
    let problems = rule.check(&context);

    assert_eq!(problems.len(), 1);
    assert_eq!(problems[0].line, 2);
    assert!(problems[0].message.contains("too many spaces after hyphen"));
}

#[test]
fn test_three_spaces() {
    let yaml = "list:\n  -   item\n";
    let context = LintContext::new(yaml.to_string());
    let rule = HyphensRule::new();
    let problems = rule.check(&context);

    assert_eq!(problems.len(), 1);
    assert!(problems[0].message.contains("(3 > 1)"));
}

#[test]
fn test_custom_max_spaces() {
    let yaml = "list:\n  -  item1\n  -   item2\n";
    let context = LintContext::new(yaml.to_string());
    let rule = HyphensRule::with_config(2);
    let problems = rule.check(&context);

    assert_eq!(problems.len(), 1);
    assert_eq!(problems[0].line, 3);
}

#[test]
fn hyphens_test_nested_lists() {
    let yaml = "list:\n  - item1\n  - nested:\n      - subitem\n";
    let context = LintContext::new(yaml.to_string());
    let rule = HyphensRule::new();
    let problems = rule.check(&context);

    assert!(problems.is_empty());
}

#[test]
fn test_empty_list_item() {
    let yaml = "list:\n  -\n  - item\n";
    let context = LintContext::new(yaml.to_string());
    let rule = HyphensRule::new();
    let problems = rule.check(&context);

    assert!(problems.is_empty());
}

#[test]
fn test_list_item_with_trailing_space() {
    let yaml = "list:\n  - \n  - item\n";
    let context = LintContext::new(yaml.to_string());
    let rule = HyphensRule::new();
    let problems = rule.check(&context);

    assert!(problems.is_empty());
}

#[test]
fn test_block_scalar() {
    let yaml = "list:\n  - |\n    multiline\n";
    let context = LintContext::new(yaml.to_string());
    let rule = HyphensRule::new();
    let problems = rule.check(&context);

    assert!(problems.is_empty());
}

#[test]
fn test_flow_sequence_not_affected() {
    let yaml = "list: [item1, item2]\n";
    let context = LintContext::new(yaml.to_string());
    let rule = HyphensRule::new();
    let problems = rule.check(&context);

    assert!(problems.is_empty());
}

#[test]
fn hyphens_test_comment_ignored() {
    let yaml = "# - this is a comment\nlist:\n  - item\n";
    let context = LintContext::new(yaml.to_string());
    let rule = HyphensRule::new();
    let problems = rule.check(&context);

    assert!(problems.is_empty());
}

#[test]
fn hyphens_test_multiple_violations() {
    let yaml = "list:\n  -  item1\n  -   item2\n  - item3\n";
    let context = LintContext::new(yaml.to_string());
    let rule = HyphensRule::new();
    let problems = rule.check(&context);

    assert_eq!(problems.len(), 2);
    assert_eq!(problems[0].line, 2);
    assert_eq!(problems[1].line, 3);
}

#[test]
fn test_no_space_after_hyphen() {
    let yaml = "list:\n  -item\n";
    let context = LintContext::new(yaml.to_string());
    let rule = HyphensRule::new();
    let problems = rule.check(&context);

    assert_eq!(problems.len(), 1);
    assert!(problems[0].message.contains("too few spaces"));
}

#[test]
fn test_anchor() {
    let yaml = "list:\n  - &anchor value\n";
    let context = LintContext::new(yaml.to_string());
    let rule = HyphensRule::new();
    let problems = rule.check(&context);

    assert!(problems.is_empty());
}

#[test]
fn test_alias() {
    let yaml = "list:\n  - *alias\n";
    let context = LintContext::new(yaml.to_string());
    let rule = HyphensRule::new();
    let problems = rule.check(&context);

    assert!(problems.is_empty());
}

#[test]
fn test_document_start_marker() {
    let yaml = "---\nkey: value\n";
    let context = LintContext::new(yaml.to_string());
    let rule = HyphensRule::new();
    let problems = rule.check(&context);

    assert!(problems.is_empty());
}

#[test]
fn test_document_end_marker() {
    let yaml = "key: value\n...\n";
    let context = LintContext::new(yaml.to_string());
    let rule = HyphensRule::new();
    let problems = rule.check(&context);

    assert!(problems.is_empty());
}

#[test]
fn test_document_with_list() {
    let yaml = "---\nlist:\n  - item1\n  - item2\n";
    let context = LintContext::new(yaml.to_string());
    let rule = HyphensRule::new();
    let problems = rule.check(&context);

    assert!(problems.is_empty());
}
