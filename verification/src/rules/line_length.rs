//! Line length rule: enforces a maximum line length.

use vstd::prelude::*;
use vstd::string::*;

use crate::problem::{LintLevel, LintProblem, ProblemView};
use crate::rules::{LintContext, RuleLevel};
use crate::text::{col_after, col_after_idx, dec_digits, usize_to_string};

verus! {

/// The length of a line in bytes, the measure the rule limits.
pub open spec fn byte_len(l: Seq<char>) -> int {
    (vstd::utf8::encode_utf8(l).len() as usize) as int
}

/// The message reported for a line of `len` bytes against limit `max`.
pub open spec fn msg_line_too_long(len: int, max: int) -> Seq<char> {
    "line too long ("@ + dec_digits(len) + " > "@ + dec_digits(max) + " characters)"@
}

/// The problems the rule reports for one line.
pub open spec fn line_problems(max: int, line_no: int, l: Seq<char>) -> Seq<ProblemView> {
    if byte_len(l) > max {
        seq![
            ProblemView {
                line: line_no,
                column: col_after(max),
                message: msg_line_too_long(byte_len(l), max),
                rule: "line-length"@,
                level: LintLevel::Error,
            },
        ]
    } else {
        Seq::empty()
    }
}

/// The problems reported for the first `n` lines, in line order.
pub open spec fn check_upto(max: int, lines: Seq<Seq<char>>, n: int) -> Seq<ProblemView>
    decreases n,
{
    if n <= 0 {
        Seq::empty()
    } else {
        check_upto(max, lines, n - 1) + line_problems(max, n, lines[n - 1])
    }
}

/// All problems the rule reports for a document's lines.
pub open spec fn spec_check(max: int, lines: Seq<Seq<char>>) -> Seq<ProblemView> {
    check_upto(max, lines, lines.len() as int)
}

/// Rule that enforces a maximum line length.
#[derive(Debug)]
pub struct LineLengthRule {
    /// Maximum allowed line length, in bytes.
    pub max: usize,
}

impl LineLengthRule {
    /// Create a new line length rule with the default limit of 80.
    pub fn new() -> (r: Self)
        ensures
            r.max == 80,
    {
        LineLengthRule { max: 80 }
    }

    /// Create a line length rule with a custom limit.
    pub fn with_max(max: usize) -> (r: Self)
        ensures
            r.max == max,
    {
        LineLengthRule { max }
    }

    /// The stable name of this rule.
    pub fn name(&self) -> (r: &'static str)
        ensures
            r@ == "line-length"@,
    {
        "line-length"
    }

    /// Report a problem for every line longer than the limit.
    pub fn check(&self, context: &LintContext) -> (r: Vec<LintProblem>)
        ensures
            r.deep_view() == spec_check(self.max as int, context.lines.deep_view()),
    {
        let ghost lns = context.lines.deep_view();
        let mut problems: Vec<LintProblem> = Vec::new();
        let mut i: usize = 0;
        while i < context.lines.len()
            invariant
                0 <= i <= context.lines@.len(),
                lns == context.lines.deep_view(),
                lns.len() == context.lines@.len(),
                problems.deep_view() == check_upto(self.max as int, lns, i as int),
            decreases context.lines@.len() - i,
        {
            let ghost old_problems = problems.deep_view();
            let line_length = context.lines[i].as_str().len();
            assert(line_length as int == byte_len(lns[i as int]));
            if line_length > self.max {
                let msg = Self::message(line_length, self.max);
                let column = col_after_idx(self.max);
                problems.push(
                    LintProblem::new(i + 1, column, msg.as_str(), "line-length", LintLevel::Error),
                );
            }
            proof {
                assert(problems.deep_view() =~= old_problems + line_problems(
                    self.max as int,
                    i + 1,
                    lns[i as int],
                ));
            }
            i = i + 1;
        }
        problems
    }

    /// Builds the report message for an over-long line.
    fn message(len: usize, max: usize) -> (r: String)
        ensures
            r@ == msg_line_too_long(len as int, max as int),
    {
        let mut s = String::from_str("line too long (");
        let a = usize_to_string(len);
        s.append(a.as_str());
        s.append(" > ");
        let b = usize_to_string(max);
        s.append(b.as_str());
        s.append(" characters)");
        s
    }

    /// The compiled-in level of this rule.
    pub fn default_level(&self) -> (r: RuleLevel)
        ensures
            r == RuleLevel::Error,
    {
        RuleLevel::Error
    }

    /// This rule has no auto-fix.
    pub fn is_fixable(&self) -> (r: bool)
        ensures
            !r,
    {
        false
    }
}

impl Default for LineLengthRule {
    fn default() -> (r: Self)
        ensures
            r.max == 80,
    {
        Self::new()
    }
}

} // verus!
