//! Tests for the output formatters.

use yaml_lint_core::output::{ColoredFormatter, ParsableFormatter, StandardFormatter};
use yaml_lint_core::problem::{LintLevel, LintProblem};

#[test]
fn standard_test_format_single_problem() {
    let formatter = StandardFormatter;
    let problems = vec![LintProblem::new(
        12,
        3,
        "trailing spaces",
        "trailing-spaces",
        LintLevel::Error,
    )];

    let output = formatter.format_problems(&problems, "test.yaml");
    assert!(output.contains("test.yaml"));
    assert!(output.contains("12:3"));
    assert!(output.contains("error"));
    assert!(output.contains("trailing spaces"));
    assert!(output.contains("(trailing-spaces)"));
}

#[test]
fn standard_test_format_no_problems() {
    let formatter = StandardFormatter;
    let output = formatter.format_problems(&vec![], "test.yaml");
    assert!(output.is_empty());
}

#[test]
fn standard_test_format_multiple_problems() {
    let formatter = StandardFormatter;
    let problems = vec![
        LintProblem::new(
            1,
            10,
            "trailing spaces",
            "trailing-spaces",
            LintLevel::Error,
        ),
        LintProblem::new(5, 1, "line too long", "line-length", LintLevel::Warning),
    ];

    let output = formatter.format_problems(&problems, "test.yaml");
    assert!(output.contains("1:10"));
    assert!(output.contains("5:1"));
}

#[test]
fn parsable_test_format_single_problem() {
    let formatter = ParsableFormatter;
    let problems = vec![LintProblem::new(
        12,
        3,
        "trailing spaces",
        "trailing-spaces",
        LintLevel::Error,
    )];

    let output = formatter.format_problems(&problems, "test.yaml");
    assert_eq!(
        output,
        "test.yaml:12:3: [error] trailing spaces (trailing-spaces)\n"
    );
}

#[test]
fn parsable_test_format_no_problems() {
    let formatter = ParsableFormatter;
    let output = formatter.format_problems(&vec![], "test.yaml");
    assert!(output.is_empty());
}

#[test]
fn parsable_test_format_multiple_problems() {
    let formatter = ParsableFormatter;
    let problems = vec![
        LintProblem::new(
            1,
            10,
            "trailing spaces",
            "trailing-spaces",
            LintLevel::Error,
        ),
        LintProblem::new(5, 1, "line too long", "line-length", LintLevel::Warning),
    ];

    let output = formatter.format_problems(&problems, "test.yaml");
    assert!(output.contains("test.yaml:1:10: [error]"));
    assert!(output.contains("test.yaml:5:1: [warning]"));
}

#[test]
fn colored_test_format_single_problem() {
    let formatter = ColoredFormatter;
    let problems = vec![LintProblem::new(
        12,
        3,
        "trailing spaces",
        "trailing-spaces",
        LintLevel::Error,
    )];

    let output = formatter.format_problems(&problems, "test.yaml");
    assert!(output.contains("test.yaml"));
    assert!(output.contains("12:3"));
    assert!(output.contains("trailing spaces"));
    assert!(output.contains("(trailing-spaces)"));
}

#[test]
fn colored_test_format_no_problems() {
    let formatter = ColoredFormatter;
    let output = formatter.format_problems(&vec![], "test.yaml");
    assert!(output.is_empty());
}

#[test]
fn test_format_warning() {
    let formatter = ColoredFormatter;
    let problems = vec![LintProblem::new(
        5,
        1,
        "line too long",
        "line-length",
        LintLevel::Warning,
    )];

    let output = formatter.format_problems(&problems, "test.yaml");
    assert!(output.contains("5:1"));
    assert!(output.contains("line too long"));
}
