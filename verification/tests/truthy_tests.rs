//! Tests for the truthy rule.

use yaml_lint_core::rules::truthy::TruthyRule;
use yaml_lint_core::rules::LintContext;

#[test]
fn test_valid_booleans() {
    let yaml = "enabled: true\ndisabled: false\n";
    let context = LintContext::new(yaml.to_string());
    let rule = TruthyRule::new();
    let problems = rule.check(&context);

    assert!(problems.is_empty());
}

#[test]
fn test_yaml_11_yes_no() {
    let yaml = "enabled: yes\ndisabled: no\n";
    let context = LintContext::new(yaml.to_string());
    let rule = TruthyRule::new();
    let problems = rule.check(&context);

    assert_eq!(problems.len(), 2);
    assert!(problems[0].message.contains("yes"));
    assert!(problems[1].message.contains("no"));
}

#[test]
fn test_yaml_11_on_off() {
    let yaml = "feature: on\nlegacy: off\n";
    let context = LintContext::new(yaml.to_string());
    let rule = TruthyRule::new();
    let problems = rule.check(&context);

    assert_eq!(problems.len(), 2);
    assert!(problems[0].message.contains("on"));
    assert!(problems[1].message.contains("off"));
}

#[test]
fn test_yaml_11_y_n() {
    let yaml = "flag: y\nother: n\n";
    let context = LintContext::new(yaml.to_string());
    let rule = TruthyRule::new();
    let problems = rule.check(&context);

    assert_eq!(problems.len(), 2);
}

#[test]
fn test_case_insensitive() {
    let yaml = "a: YES\nb: No\nc: ON\nd: Off\n";
    let context = LintContext::new(yaml.to_string());
    let rule = TruthyRule::new();
    let problems = rule.check(&context);

    assert_eq!(problems.len(), 4);
}

#[test]
fn test_quoted_values_allowed() {
    let yaml = "country: \"NO\"\nanswer: 'yes'\n";
    let context = LintContext::new(yaml.to_string());
    let rule = TruthyRule::new();
    let problems = rule.check(&context);

    assert!(problems.is_empty());
}

#[test]
fn test_custom_allowed_values() {
    let yaml = "enabled: yes\ndisabled: no\n";
    let context = LintContext::new(yaml.to_string());
    let rule = TruthyRule::with_config(
        vec![
            "true".to_string(),
            "false".to_string(),
            "yes".to_string(),
            "no".to_string(),
        ],
        false,
    );
    let problems = rule.check(&context);

    assert!(problems.is_empty());
}

#[test]
fn test_check_keys_disabled() {
    let yaml = "yes: value\n";
    let context = LintContext::new(yaml.to_string());
    let rule = TruthyRule::new();
    let problems = rule.check(&context);

    assert!(problems.is_empty());
}

#[test]
fn test_check_keys_enabled() {
    let yaml = "yes: value\n";
    let context = LintContext::new(yaml.to_string());
    let rule = TruthyRule::with_config(vec!["true".to_string(), "false".to_string()], true);
    let problems = rule.check(&context);

    assert_eq!(problems.len(), 1);
    assert!(problems[0].message.contains("key"));
}

#[test]
fn test_list_items() {
    let yaml = "items:\n  - yes\n  - no\n  - true\n";
    let context = LintContext::new(yaml.to_string());
    let rule = TruthyRule::new();
    let problems = rule.check(&context);

    assert_eq!(problems.len(), 2);
}

#[test]
fn test_inline_comment() {
    let yaml = "enabled: yes  # comment\n";
    let context = LintContext::new(yaml.to_string());
    let rule = TruthyRule::new();
    let problems = rule.check(&context);

    assert_eq!(problems.len(), 1);
}

#[test]
fn test_nested_values() {
    let yaml = "config:\n  debug: yes\n  verbose: on\n";
    let context = LintContext::new(yaml.to_string());
    let rule = TruthyRule::new();
    let problems = rule.check(&context);

    assert_eq!(problems.len(), 2);
}

#[test]
fn test_non_truthy_values() {
    let yaml = "name: John\ncount: 42\npath: /etc/config\n";
    let context = LintContext::new(yaml.to_string());
    let rule = TruthyRule::new();
    let problems = rule.check(&context);

    assert!(problems.is_empty());
}

#[test]
fn test_empty_and_comment_lines() {
    let yaml = "# comment\n\nkey: true\n";
    let context = LintContext::new(yaml.to_string());
    let rule = TruthyRule::new();
    let problems = rule.check(&context);

    assert!(problems.is_empty());
}
