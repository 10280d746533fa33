//! New line at end of file rule: files must end with a line break.

use vstd::prelude::*;
use vstd::string::*;

use crate::problem::{LintLevel, LintProblem, ProblemView};
use crate::rules::{LintContext, RuleLevel};
use crate::text::{col_after, col_after_idx, push_char};

verus! {

/// The problems the rule reports: a non-empty document that does not end
/// with a line break is flagged just past the end of its last line.
pub open spec fn spec_check(content: Seq<char>, lines: Seq<Seq<char>>) -> Seq<ProblemView> {
    if content.len() == 0 || content.last() == '\n' {
        Seq::empty()
    } else {
        seq![
            ProblemView {
                line: lines.len() as int,
                column: col_after(
                    if lines.len() == 0 {
                        0
                    } else {
                        lines.last().len() as int
                    },
                ),
                message: "no new line character at the end of file"@,
                rule: "new-line-at-end-of-file"@,
                level: LintLevel::Error,
            },
        ]
    }
}

/// What fixing does: append one line break to a non-empty document that
/// lacks one; otherwise there is nothing to fix.
pub open spec fn spec_fix(content: Seq<char>) -> Option<Seq<char>> {
    if content.len() == 0 || content.last() == '\n' {
        None
    } else {
        Some(content.push('\n'))
    }
}

/// Rule that checks that a file ends with a newline character.
#[derive(Debug)]
pub struct NewLineAtEndOfFileRule;

impl NewLineAtEndOfFileRule {
    /// The stable name of this rule.
    pub fn name(&self) -> (r: &'static str)
        ensures
            r@ == "new-line-at-end-of-file"@,
    {
        "new-line-at-end-of-file"
    }

    /// Flag a non-empty document whose content does not end with a break.
    pub fn check(&self, context: &LintContext) -> (r: Vec<LintProblem>)
        ensures
            r.deep_view() == spec_check(context.content@, context.lines.deep_view()),
    {
        let mut problems: Vec<LintProblem> = Vec::new();
        let n = context.content.as_str().unicode_len();
        if n == 0 {
            assert(problems.deep_view() =~= spec_check(
                context.content@,
                context.lines.deep_view(),
            ));
            return problems;
        }
        let last = context.content.as_str().get_char(n - 1);
        if last != '\n' {
            let line_count = context.lines.len();
            let last_line_len: usize = if line_count == 0 {
                0
            } else {
                context.lines[line_count - 1].as_str().unicode_len()
            };
            assert(last_line_len as int == if context.lines.deep_view().len() == 0 {
                0int
            } else {
                context.lines.deep_view().last().len() as int
            });
            problems.push(
                LintProblem::new(line_count, col_after_idx(last_line_len),
                    "no new line character at the end of file", "new-line-at-end-of-file",
                    LintLevel::Error),
            );
        }
        assert(problems.deep_view() =~= spec_check(context.content@, context.lines.deep_view()));
        problems
    }

    /// The compiled-in level of this rule.
    pub fn default_level(&self) -> (r: RuleLevel)
        ensures
            r == RuleLevel::Error,
    {
        RuleLevel::Error
    }

    /// This rule supports auto-fixing.
    pub fn is_fixable(&self) -> (r: bool)
        ensures
            r,
    {
        true
    }

    /// Append a line break at the end if one is missing.
    pub fn fix(&self, content: &str, _problem: &LintProblem) -> (r: Option<String>)
        ensures
            r.deep_view() == spec_fix(content@),
    {
        let n = content.unicode_len();
        if n == 0 {
            return None;
        }
        if content.get_char(n - 1) == '\n' {
            return None;
        }
        let mut s = String::from_str(content);
        push_char(&mut s, '\n');
        Some(s)
    }
}

} // verus!
