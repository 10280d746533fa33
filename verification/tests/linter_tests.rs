//! Tests for the linter facade and the rule registry.

use yaml_lint_core::config::{Config, RuleConfig};
use yaml_lint_core::rules::{RuleLevel, RuleRegistry};
use yaml_lint_core::{LintLevel, Linter};

#[test]
fn test_registry_creation() {
    let registry = RuleRegistry::with_defaults();
    assert!(!registry.rule_names().is_empty());
}

#[test]
fn test_rule_level_override() {
    let mut registry = RuleRegistry::with_defaults();
    let rule_name = registry.rule_names()[0].to_string();

    registry.set_level(&rule_name, RuleLevel::Warning);
    assert_eq!(registry.get_level(&rule_name), Some(RuleLevel::Warning));
}

#[test]
fn test_lint_valid_yaml() {
    let linter = Linter::with_defaults();
    let yaml = "key: value\nkey2: value2\n";
    let problems = linter.lint_string(yaml).unwrap();
    assert!(problems.is_empty());
}

#[test]
fn test_lint_with_trailing_spaces() {
    let linter = Linter::with_defaults();
    let yaml = "key: value   \nkey2: value2\n";
    let problems = linter.lint_string(yaml).unwrap();
    assert_eq!(problems.len(), 1);
    assert_eq!(problems[0].rule, "trailing-spaces");
}

#[test]
fn test_lint_respects_config() {
    let mut config = Config::new();
    config.set_rule(
        "trailing-spaces".to_string(),
        RuleConfig::Level(RuleLevel::Disable),
    );

    let linter = Linter::new(config);
    let yaml = "key: value   \n";
    let problems = linter.lint_string(yaml).unwrap();
    assert!(problems.is_empty());
}

#[test]
fn integration_tests_test_lint_string() {
    let linter = Linter::with_defaults();
    let yaml = "key: value   \n";
    let problems = linter.lint_string(yaml).expect("Failed to lint string");

    assert_eq!(problems.len(), 1);
    assert_eq!(problems[0].rule, "trailing-spaces");
}

#[test]
fn integration_tests_test_problems_sorted() {
    let linter = Linter::with_defaults();
    let yaml =
        "key: value   \nvery_long: this line is way too long and exceeds the limit\nkey2: test  \n";
    let problems = linter.lint_string(yaml).expect("Failed to lint string");

    for i in 0..problems.len() - 1 {
        assert!(
            problems[i].line <= problems[i + 1].line,
            "Problems not sorted by line"
        );
    }
}

#[test]
fn integration_tests_test_disable_rule() {
    let mut config = Config::with_default_preset();
    config.set_rule(
        "trailing-spaces".to_string(),
        RuleConfig::Level(RuleLevel::Disable),
    );
    let linter = Linter::new(config);

    let yaml = "key: value   \n";
    let problems = linter.lint_string(yaml).expect("Failed to lint string");

    assert!(problems.is_empty());
}

#[test]
fn integration_tests_test_relaxed_preset() {
    let config = Config::with_relaxed_preset();
    let linter = Linter::new(config);

    let yaml = "key: value   \n";
    let problems = linter.lint_string(yaml).expect("Failed to lint string");

    assert!(!problems.is_empty());
    assert_eq!(problems[0].level, LintLevel::Warning);
}

#[test]
fn test_default_preset() {
    let config = Config::with_default_preset();
    assert_eq!(
        config.get_rule_level("trailing-spaces"),
        Some(RuleLevel::Error)
    );
}

#[test]
fn config_test_relaxed_preset() {
    let config = Config::with_relaxed_preset();
    assert_eq!(
        config.get_rule_level("trailing-spaces"),
        Some(RuleLevel::Warning)
    );
}
