//! Tests for the fixer's convergence loop.

use yaml_lint_core::config::Config;
use yaml_lint_core::fixer::Fixer;
use yaml_lint_core::rules::RuleRegistry;

#[test]
fn fixer_test_fix_trailing_spaces() {
    let registry = RuleRegistry::with_defaults();
    let fixer = Fixer::new(&registry);

    let content = "key: value   \nkey2: value2\n";
    let result = fixer.fix("test.yaml", content);

    assert!(result.has_fixes());
    assert_eq!(result.fixes_applied, 1);
    assert!(result.fixes_by_rule.contains_key("trailing-spaces"));
    assert_eq!(
        result.fixed_content,
        Some("key: value\nkey2: value2\n".to_string())
    );
}

#[test]
fn fixer_test_fix_newline_at_end() {
    let registry = RuleRegistry::with_defaults();
    let fixer = Fixer::new(&registry);

    let content = "key: value";
    let result = fixer.fix("test.yaml", content);

    assert!(result.has_fixes());
    assert!(result.fixes_by_rule.contains_key("new-line-at-end-of-file"));
    assert_eq!(result.fixed_content, Some("key: value\n".to_string()));
}

#[test]
fn test_no_fixes_needed() {
    let registry = RuleRegistry::with_defaults();
    let fixer = Fixer::new(&registry);

    let content = "key: value\n";
    let result = fixer.fix("test.yaml", content);

    assert!(!result.has_fixes());
    assert_eq!(result.fixes_applied, 0);
    assert!(result.fixed_content.is_none());
}

#[test]
fn test_multiple_fixes() {
    let registry = RuleRegistry::with_defaults();
    let fixer = Fixer::new(&registry);

    let content = "key: value   \nkey2: value2  ";
    let result = fixer.fix("test.yaml", content);

    assert!(result.has_fixes());
    assert!(result.fixes_applied >= 2);
}

#[test]
fn test_unfixable_problems() {
    let registry = RuleRegistry::with_defaults();
    let fixer = Fixer::new(&registry);

    let content = "name: value1\nname: value2\n";
    let result = fixer.fix("test.yaml", content);

    assert!(result.has_unfixable());
    assert!(
        result
            .unfixable_problems
            .iter()
            .any(|p| p.rule == "key-duplicates")
    );
}

#[test]
fn integration_tests_test_fix_trailing_spaces() {
    let config = Config::with_default_preset();
    let registry = config.create_registry();
    let fixer = Fixer::new(&registry);

    let content = "key: value   \nkey2: value2  \n";
    let result = fixer.fix("test.yaml", content);

    assert!(result.has_fixes());
    assert!(result.fixes_by_rule.contains_key("trailing-spaces"));
    assert_eq!(
        result.fixed_content,
        Some("key: value\nkey2: value2\n".to_string())
    );
}

#[test]
fn integration_tests_test_fix_newline_at_end() {
    let config = Config::with_default_preset();
    let registry = config.create_registry();
    let fixer = Fixer::new(&registry);

    let content = "key: value";
    let result = fixer.fix("test.yaml", content);

    assert!(result.has_fixes());
    assert!(result.fixes_by_rule.contains_key("new-line-at-end-of-file"));
    assert_eq!(result.fixed_content, Some("key: value\n".to_string()));
}

#[test]
fn test_fix_empty_lines() {
    let config = Config::with_default_preset();
    let registry = config.create_registry();
    let fixer = Fixer::new(&registry);

    let content = "key1: value1\n\n\n\nkey2: value2\n";
    let result = fixer.fix("test.yaml", content);

    assert!(result.has_fixes());
    assert!(result.fixes_by_rule.contains_key("empty-lines"));
    assert_eq!(
        result.fixed_content,
        Some("key1: value1\n\n\nkey2: value2\n".to_string())
    );
}

#[test]
fn test_fix_multiple_issues() {
    let config = Config::with_default_preset();
    let registry = config.create_registry();
    let fixer = Fixer::new(&registry);

    let content = "key: value   ";
    let result = fixer.fix("test.yaml", content);

    assert!(result.has_fixes());
    assert!(result.fixes_applied >= 2);
    assert_eq!(result.fixed_content, Some("key: value\n".to_string()));
}

#[test]
fn test_fix_no_changes_needed() {
    let config = Config::with_default_preset();
    let registry = config.create_registry();
    let fixer = Fixer::new(&registry);

    let content = "key: value\n";
    let result = fixer.fix("test.yaml", content);

    assert!(!result.has_fixes());
    assert!(result.fixed_content.is_none());
}

#[test]
fn test_fix_preserves_valid_content() {
    let config = Config::with_default_preset();
    let registry = config.create_registry();
    let fixer = Fixer::new(&registry);

    let content = "name: test\nitems:\n  - one\n  - two\n";
    let result = fixer.fix("test.yaml", content);

    assert!(!result.has_fixes());
}

#[test]
fn test_fix_unfixable_problems() {
    let config = Config::with_default_preset();
    let registry = config.create_registry();
    let fixer = Fixer::new(&registry);

    let content = "name: value1\nname: value2\n";
    let result = fixer.fix("test.yaml", content);

    assert!(result.has_unfixable());
    assert!(
        result
            .unfixable_problems
            .iter()
            .any(|p| p.rule == "key-duplicates")
    );
}

#[test]
fn test_fix_idempotent_on_fixed_output() {
    let registry = RuleRegistry::with_defaults();
    let fixer = Fixer::new(&registry);

    let content = "key: value   \nkey2: value2  ";
    let first = fixer.fix("test.yaml", content);
    assert!(first.has_fixes());
    let fixed = first.fixed_content.expect("fixes were applied");

    let second = fixer.fix("test.yaml", &fixed);
    assert_eq!(second.fixes_applied, 0);
    assert!(second.fixed_content.is_none());
}

#[test]
fn test_dry_run_reports_like_fix() {
    let registry = RuleRegistry::with_defaults();
    let fixer = Fixer::new(&registry);

    let content = "key: value   \n";
    let result = fixer.dry_run("test.yaml", content);

    assert_eq!(result.fixes_applied, 1);
    assert_eq!(result.fixed_content, Some("key: value\n".to_string()));
}
