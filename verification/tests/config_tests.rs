//! Tests for configuration documents, option validation, and the
//! registry built from a configuration.

use yaml_lint_core::config::{
    Config, IndentConfig, RawConfig, RawRuleValue, RawScalar, RuleConfig, RuleOptions,
};
use yaml_lint_core::rules::RuleLevel;
use yaml_lint_core::{LintError, Linter};

fn doc(
    extends: Option<&str>,
    rules: Option<Vec<(Option<&str>, RawRuleValue)>>,
    ignore: Option<&str>,
) -> RawConfig {
    RawConfig {
        extends: extends.map(|s| s.to_string()),
        rules: rules.map(|rs| {
            rs.into_iter()
                .map(|(k, v)| (k.map(|s| s.to_string()), v))
                .collect()
        }),
        ignore: ignore.map(|s| s.to_string()),
    }
}

fn level(s: &str) -> RawRuleValue {
    RawRuleValue::Level(s.to_string())
}

fn options(entries: Vec<(&str, RawScalar)>) -> RawRuleValue {
    RawRuleValue::Options(
        entries
            .into_iter()
            .map(|(k, v)| (k.to_string(), v))
            .collect(),
    )
}

#[test]
fn test_extends_default_with_override() {
    let d = doc(
        Some("default"),
        Some(vec![(Some("trailing-spaces"), level("warning"))]),
        None,
    );
    let config = Config::from_raw(&d).unwrap();
    assert_eq!(
        config.get_rule_level("trailing-spaces"),
        Some(RuleLevel::Warning)
    );
    assert_eq!(
        config.get_rule_level("key-duplicates"),
        Some(RuleLevel::Error)
    );
}

#[test]
fn test_rules_without_extends() {
    let d = doc(
        None,
        Some(vec![
            (Some("trailing-spaces"), level("error")),
            (Some("line-length"), level("disable")),
        ]),
        None,
    );
    let config = Config::from_raw(&d).unwrap();
    assert_eq!(
        config.get_rule_level("trailing-spaces"),
        Some(RuleLevel::Error)
    );
    assert_eq!(
        config.get_rule_level("line-length"),
        Some(RuleLevel::Disable)
    );
    assert_eq!(config.get_rule_level("comments"), None);
}

#[test]
fn test_line_length_options_accepted() {
    let d = doc(
        None,
        Some(vec![(
            Some("line-length"),
            options(vec![("max", RawScalar::Nat(120))]),
        )]),
        None,
    );
    let config = Config::from_raw(&d).unwrap();
    match &config.rules[0].1 {
        RuleConfig::Detailed { level, options } => {
            assert_eq!(*level, RuleLevel::Error);
            match options {
                RuleOptions::LineLength { max } => assert_eq!(*max, 120),
                _ => panic!("expected line length options"),
            }
        }
        _ => panic!("expected detailed configuration"),
    }
}

#[test]
fn test_indentation_options_accepted() {
    let d = doc(
        None,
        Some(vec![(
            Some("indentation"),
            options(vec![("spaces", RawScalar::Nat(2))]),
        )]),
        None,
    );
    let config = Config::from_raw(&d).unwrap();
    match &config.rules[0].1 {
        RuleConfig::Detailed { options, .. } => match options {
            RuleOptions::Indentation { spaces } => {
                assert_eq!(*spaces, IndentConfig::Fixed(2))
            }
            _ => panic!("expected indentation options"),
        },
        _ => panic!("expected detailed configuration"),
    }
}

#[test]
fn test_invalid_preset() {
    let d = doc(Some("nonexistent"), None, None);
    let result = Config::from_raw(&d);
    assert!(result.is_err());
    match result.unwrap_err() {
        LintError::ConfigError(m) => assert_eq!(m, "Unknown preset: nonexistent"),
        _ => panic!("expected a configuration error"),
    }
}

#[test]
fn test_line_length_zero_rejected() {
    let d = doc(
        None,
        Some(vec![(
            Some("line-length"),
            options(vec![("max", RawScalar::Nat(0))]),
        )]),
        None,
    );
    let result = Config::from_raw(&d);
    match result.unwrap_err() {
        LintError::ConfigError(m) => {
            assert_eq!(m, "line-length max must be greater than 0")
        }
        _ => panic!("expected a configuration error"),
    }
}

#[test]
fn test_indentation_out_of_range_rejected() {
    for bad in [0u64, 17u64] {
        let d = doc(
            None,
            Some(vec![(
                Some("indentation"),
                options(vec![("spaces", RawScalar::Nat(bad))]),
            )]),
            None,
        );
        let result = Config::from_raw(&d);
        match result.unwrap_err() {
            LintError::ConfigError(m) => {
                assert_eq!(m, "indentation spaces must be between 1 and 16")
            }
            _ => panic!("expected a configuration error"),
        }
    }
}

#[test]
fn test_indentation_consistent_accepted() {
    let d = doc(
        None,
        Some(vec![(
            Some("indentation"),
            options(vec![("spaces", RawScalar::Str("consistent".to_string()))]),
        )]),
        None,
    );
    let config = Config::from_raw(&d).unwrap();
    match &config.rules[0].1 {
        RuleConfig::Detailed { options, .. } => match options {
            RuleOptions::Indentation { spaces } => {
                assert_eq!(*spaces, IndentConfig::Consistent)
            }
            _ => panic!("expected indentation options"),
        },
        _ => panic!("expected detailed configuration"),
    }
}

#[test]
fn test_empty_truthy_allowed_values_rejected() {
    let d = doc(
        None,
        Some(vec![(
            Some("truthy"),
            options(vec![("allowed-values", RawScalar::List(vec![]))]),
        )]),
        None,
    );
    let result = Config::from_raw(&d);
    match result.unwrap_err() {
        LintError::ConfigError(m) => {
            assert_eq!(m, "truthy allowed-values cannot be empty")
        }
        _ => panic!("expected a configuration error"),
    }
}

#[test]
fn test_rule_without_options_support_rejected() {
    let d = doc(
        None,
        Some(vec![(
            Some("key-duplicates"),
            options(vec![("max", RawScalar::Nat(3))]),
        )]),
        None,
    );
    let result = Config::from_raw(&d);
    match result.unwrap_err() {
        LintError::ConfigError(m) => {
            assert_eq!(m, "Rule 'key-duplicates' does not support options")
        }
        _ => panic!("expected a configuration error"),
    }
}

#[test]
fn test_invalid_level_rejected() {
    let d = doc(
        None,
        Some(vec![(Some("trailing-spaces"), level("loud"))]),
        None,
    );
    let result = Config::from_raw(&d);
    match result.unwrap_err() {
        LintError::ConfigError(m) => assert_eq!(m, "Invalid rule level: loud"),
        _ => panic!("expected a configuration error"),
    }
}

#[test]
fn test_non_string_rule_name_rejected() {
    let d = doc(None, Some(vec![(None, level("error"))]), None);
    let result = Config::from_raw(&d);
    match result.unwrap_err() {
        LintError::ConfigError(m) => assert_eq!(m, "Rule name must be a string"),
        _ => panic!("expected a configuration error"),
    }
}

#[test]
fn test_explicit_level_in_options() {
    let d = doc(
        None,
        Some(vec![(
            Some("line-length"),
            options(vec![
                ("level", RawScalar::Str("warning".to_string())),
                ("max", RawScalar::Nat(100)),
            ]),
        )]),
        None,
    );
    let config = Config::from_raw(&d).unwrap();
    assert_eq!(
        config.get_rule_level("line-length"),
        Some(RuleLevel::Warning)
    );
}

#[test]
fn test_document_start_options_through_linter() {
    let d = doc(
        None,
        Some(vec![(
            Some("document-start"),
            options(vec![("present", RawScalar::Bool(true))]),
        )]),
        None,
    );
    let config = Config::from_raw(&d).unwrap();
    let linter = Linter::new(config);

    let problems = linter.lint_string("key: value\n").unwrap();
    assert_eq!(problems.len(), 1);
    assert!(problems[0].message.contains("missing document start"));

    let d2 = doc(
        None,
        Some(vec![(
            Some("document-start"),
            options(vec![("present", RawScalar::Bool(false))]),
        )]),
        None,
    );
    let config2 = Config::from_raw(&d2).unwrap();
    let linter2 = Linter::new(config2);
    let problems2 = linter2.lint_string("---\nkey: value\n").unwrap();
    assert_eq!(problems2.len(), 1);
    assert!(problems2[0].message.contains("forbidden document start"));
}

#[test]
fn test_unknown_rule_is_skipped_by_registry() {
    let d = doc(
        None,
        Some(vec![
            (Some("future-rule"), level("error")),
            (Some("trailing-spaces"), level("error")),
        ]),
        None,
    );
    let config = Config::from_raw(&d).unwrap();
    let linter = Linter::new(config);
    let problems = linter.lint_string("key: value   \n").unwrap();
    assert_eq!(problems.len(), 1);
    assert_eq!(problems[0].rule, "trailing-spaces");
}

#[test]
fn test_truthy_custom_values_through_linter() {
    let d = doc(
        None,
        Some(vec![(
            Some("truthy"),
            options(vec![(
                "allowed-values",
                RawScalar::List(vec![
                    "true".to_string(),
                    "false".to_string(),
                    "yes".to_string(),
                    "no".to_string(),
                ]),
            )]),
        )]),
        None,
    );
    let config = Config::from_raw(&d).unwrap();
    let linter = Linter::new(config);

    assert!(linter
        .lint_string("enabled: yes\ndisabled: no\n")
        .unwrap()
        .is_empty());
    assert!(!linter.lint_string("feature: on\n").unwrap().is_empty());
}

#[test]
fn test_ignore_patterns_taken_over() {
    let d = doc(None, None, Some("build/\ntarget/\n"));
    let config = Config::from_raw(&d).unwrap();
    assert_eq!(config.ignore, vec!["build/".to_string(), "target/".to_string()]);
}
