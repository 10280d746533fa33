//! Tests for the document start rule.

use yaml_lint_core::rules::document_start::DocumentStartRule;
use yaml_lint_core::rules::LintContext;

#[test]
fn test_disabled_rule() {
    let yaml = "key: value\n";
    let context = LintContext::new(yaml.to_string());
    let rule = DocumentStartRule::new();
    let problems = rule.check(&context);

    assert!(problems.is_empty());
}

#[test]
fn test_required_present() {
    let yaml = "---\nkey: value\n";
    let context = LintContext::new(yaml.to_string());
    let rule = DocumentStartRule::required();
    let problems = rule.check(&context);

    assert!(problems.is_empty());
}

#[test]
fn test_required_missing() {
    let yaml = "key: value\n";
    let context = LintContext::new(yaml.to_string());
    let rule = DocumentStartRule::required();
    let problems = rule.check(&context);

    assert_eq!(problems.len(), 1);
    assert_eq!(problems[0].line, 1);
    assert!(problems[0].message.contains("missing document start"));
}

#[test]
fn test_forbidden_present() {
    let yaml = "---\nkey: value\n";
    let context = LintContext::new(yaml.to_string());
    let rule = DocumentStartRule::forbidden();
    let problems = rule.check(&context);

    assert_eq!(problems.len(), 1);
    assert_eq!(problems[0].line, 1);
    assert!(problems[0].message.contains("forbidden document start"));
}

#[test]
fn test_forbidden_absent() {
    let yaml = "key: value\n";
    let context = LintContext::new(yaml.to_string());
    let rule = DocumentStartRule::forbidden();
    let problems = rule.check(&context);

    assert!(problems.is_empty());
}

#[test]
fn test_document_start_with_space() {
    let yaml = "--- \nkey: value\n";
    let context = LintContext::new(yaml.to_string());
    let rule = DocumentStartRule::required();
    let problems = rule.check(&context);

    assert!(problems.is_empty());
}

#[test]
fn test_document_start_with_comment() {
    let yaml = "--- # comment\nkey: value\n";
    let context = LintContext::new(yaml.to_string());
    let rule = DocumentStartRule::required();
    let problems = rule.check(&context);

    assert!(problems.is_empty());
}

#[test]
fn test_empty_document() {
    let yaml = "";
    let context = LintContext::new(yaml.to_string());
    let rule = DocumentStartRule::required();
    let problems = rule.check(&context);

    assert_eq!(problems.len(), 1);
}
