//! End-to-end scenarios: one document in, an exact report out.

use yaml_lint_core::fixer::Fixer;
use yaml_lint_core::rules::indentation::IndentationRule;
use yaml_lint_core::rules::{LintContext, RuleRegistry};
use yaml_lint_core::{LintLevel, Linter};

#[test]
fn scenario_trailing_spaces_only() {
    let linter = Linter::with_defaults();
    let problems = linter.lint_string("key: value   \nkey2: value2\n").unwrap();

    assert_eq!(problems.len(), 1);
    assert_eq!(problems[0].rule, "trailing-spaces");
    assert_eq!(problems[0].line, 1);
    assert_eq!(problems[0].column, 11);

    let registry = RuleRegistry::with_defaults();
    let fixer = Fixer::new(&registry);
    let result = fixer.fix("a.yaml", "key: value   \nkey2: value2\n");
    assert_eq!(
        result.fixed_content,
        Some("key: value\nkey2: value2\n".to_string())
    );
}

#[test]
fn scenario_missing_final_newline() {
    let linter = Linter::with_defaults();
    let problems = linter.lint_string("key: value").unwrap();

    assert_eq!(problems.len(), 1);
    assert_eq!(problems[0].rule, "new-line-at-end-of-file");
    assert_eq!(problems[0].line, 1);
    assert_eq!(problems[0].column, 11);

    let registry = RuleRegistry::with_defaults();
    let fixer = Fixer::new(&registry);
    let result = fixer.fix("a.yaml", "key: value");
    assert_eq!(result.fixed_content, Some("key: value\n".to_string()));
}

#[test]
fn scenario_blank_run_too_long() {
    let linter = Linter::with_defaults();
    let problems = linter
        .lint_string("key1: value1\n\n\n\nkey2: value2\n")
        .unwrap();

    assert_eq!(problems.len(), 1);
    assert_eq!(problems[0].rule, "empty-lines");
    assert!(problems[0].message.contains("3 > 2"));
    assert_eq!(problems[0].line, 2);
}

#[test]
fn scenario_duplicate_key_is_unfixable() {
    let linter = Linter::with_defaults();
    let problems = linter.lint_string("name: value1\nname: value2\n").unwrap();

    assert_eq!(problems.len(), 1);
    assert_eq!(problems[0].rule, "key-duplicates");
    assert_eq!(problems[0].line, 2);

    let registry = RuleRegistry::with_defaults();
    let fixer = Fixer::new(&registry);
    let result = fixer.fix("a.yaml", "name: value1\nname: value2\n");
    assert_eq!(result.fixes_applied, 0);
    assert!(!result.fixes_by_rule.contains_key("key-duplicates"));
    assert_eq!(result.unfixable_problems.len(), 1);
    assert_eq!(result.unfixable_problems[0].rule, "key-duplicates");
}

#[test]
fn scenario_indentation_off_the_grid() {
    let context = LintContext::new("key:\n   subkey: value\n".to_string());
    let rule = IndentationRule::with_spaces(2);
    let problems = rule.check(&context);

    assert_eq!(problems.len(), 1);
    assert!(problems[0].message.contains("wrong indentation"));
}

#[test]
fn scenario_truthy_warning_by_default() {
    let linter = Linter::with_defaults();
    let problems = linter.lint_string("flag: yes\n").unwrap();

    assert_eq!(problems.len(), 1);
    assert_eq!(problems[0].rule, "truthy");
    assert_eq!(problems[0].level, LintLevel::Warning);
    assert!(problems[0].message.contains("yes"));
}

#[test]
fn scenario_errors_sort_before_warnings_at_equal_position() {
    // A line that is both over-long (error at column 81) and carries a
    // truthy value: the report must come out ordered by position with
    // the error level deciding ties.
    let linter = Linter::with_defaults();
    let long_tail = "x".repeat(90);
    let doc = format!("flag: yes  \nkey: {}\n", long_tail);
    let problems = linter.lint_string(&doc).unwrap();

    for i in 0..problems.len() - 1 {
        let a = &problems[i];
        let b = &problems[i + 1];
        assert!(
            a.line < b.line
                || (a.line == b.line && a.column < b.column)
                || (a.line == b.line
                    && a.column == b.column
                    && !(a.level == LintLevel::Warning && b.level == LintLevel::Error))
        );
    }
}

#[test]
fn scenario_quoted_separators_are_text() {
    // Separator and comment characters inside correctly quoted scalars
    // must not trip the colon, comment, duplicate-key or truthy rules.
    let linter = Linter::with_defaults();
    let doc = "a: 'It''s # not: a comment'\nb: \"x \\\" : # y\"\n";
    let problems = linter.lint_string(doc).unwrap();

    assert!(problems.is_empty(), "got: {:?}", problems);
}
