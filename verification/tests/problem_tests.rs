//! Tests for problem records and their ordering.

use yaml_lint_core::problem::{LintLevel, LintProblem};

#[test]
fn test_problem_ordering() {
    let p1 = LintProblem::new(1, 1, "test", "rule", LintLevel::Error);
    let p2 = LintProblem::new(1, 2, "test", "rule", LintLevel::Error);
    let p3 = LintProblem::new(2, 1, "test", "rule", LintLevel::Warning);

    assert!(p1 < p2);
    assert!(p2 < p3);
    assert!(p1 < p3);
}

#[test]
fn test_error_before_warning_same_position() {
    let error = LintProblem::new(1, 1, "test", "rule", LintLevel::Error);
    let warning = LintProblem::new(1, 1, "test", "rule", LintLevel::Warning);

    assert!(error < warning);
}
