//! Trailing spaces rule: detects whitespace at line endings.

use vstd::prelude::*;

use vstd::pervasive::VecAdditionalExecFns;

use crate::problem::{LintLevel, LintProblem, ProblemView};
use crate::rules::{split_char_lines, split_lines, LintContext, RuleLevel};
use crate::text::{chars_of, join_lines_string, join_nl, trailing_ws, trim_end_chars, trimmed_end};

verus! {

/// Rule that detects trailing spaces or tabs at the end of lines.
#[derive(Debug)]
pub struct TrailingSpacesRule;

/// The problems the rule reports for one line: a line ending in a space
/// or tab is flagged at the column just past its trimmed content.
pub open spec fn line_problems(line_no: int, l: Seq<char>) -> Seq<ProblemView> {
    if l.len() > 0 && (l.last() == ' ' || l.last() == '\t') {
        seq![
            ProblemView {
                line: line_no,
                column: trimmed_end(l).len() as int + 1,
                message: "trailing spaces"@,
                rule: "trailing-spaces"@,
                level: LintLevel::Error,
            },
        ]
    } else {
        Seq::empty()
    }
}

/// The problems reported for the first `n` lines, in line order.
pub open spec fn check_upto(lines: Seq<Seq<char>>, n: int) -> Seq<ProblemView>
    decreases n,
{
    if n <= 0 {
        Seq::empty()
    } else {
        check_upto(lines, n - 1) + line_problems(n, lines[n - 1])
    }
}

/// All problems the rule reports for a document's lines.
pub open spec fn spec_check(lines: Seq<Seq<char>>) -> Seq<ProblemView> {
    check_upto(lines, lines.len() as int)
}

/// What fixing one reported problem does to the content: the flagged
/// line is trimmed of trailing whitespace and the lines are rejoined,
/// keeping a final line break exactly when the content had one.
pub open spec fn spec_fix(content: Seq<char>, p: ProblemView) -> Option<Seq<char>> {
    let ls = split_lines(content);
    if p.line < 1 || p.line > ls.len() {
        None
    } else {
        let fixed = ls.update(p.line - 1, trimmed_end(ls[p.line - 1]));
        Some(
            join_nl(fixed) + (if content.len() > 0 && content.last() == '\n' {
                seq!['\n']
            } else {
                Seq::<char>::empty()
            }),
        )
    }
}

/// Every problem the rule reports lies on a line of the document.
pub proof fn lemma_check_positions(lines: Seq<Seq<char>>, n: int)
    requires
        n <= lines.len(),
    ensures
        forall|i: int|
            0 <= i < check_upto(lines, n).len() ==> {
                &&& 1 <= #[trigger] check_upto(lines, n)[i].line <= lines.len()
                &&& 1 <= check_upto(lines, n)[i].column
            },
    decreases n,
{
    if n > 0 {
        lemma_check_positions(lines, n - 1);
    }
}

impl TrailingSpacesRule {
    /// The stable name of this rule.
    pub fn name(&self) -> (r: &'static str)
        ensures
            r@ == "trailing-spaces"@,
    {
        "trailing-spaces"
    }

    /// Report a problem for every line that ends in a space or tab.
    pub fn check(&self, context: &LintContext) -> (r: Vec<LintProblem>)
        ensures
            r.deep_view() == spec_check(context.lines.deep_view()),
    {
        let ghost lns = context.lines.deep_view();
        let mut problems: Vec<LintProblem> = Vec::new();
        let mut i: usize = 0;
        while i < context.lines.len()
            invariant
                0 <= i <= context.lines@.len(),
                lns == context.lines.deep_view(),
                lns.len() == context.lines@.len(),
                problems.deep_view() == check_upto(lns, i as int),
            decreases context.lines@.len() - i,
        {
            let ghost old_problems = problems.deep_view();
            let line = chars_of(context.lines[i].as_str());
            assert(line@ == lns[i as int]);
            if line.len() > 0 {
                let last = line[line.len() - 1];
                if last == ' ' || last == '\t' {
                    let trimmed = trim_end_chars(&line);
                    proof {
                        crate::text::lemma_trailing_ws_props(line@);
                        assert(trailing_ws(line@) >= 1);
                    }
                    let column = trimmed.len() + 1;
                    problems.push(
                        LintProblem::new(i + 1, column, "trailing spaces", "trailing-spaces",
                            LintLevel::Error),
                    );
                    proof {
                        assert(problems.deep_view() =~= old_problems + line_problems(
                            i + 1,
                            lns[i as int],
                        ));
                    }
                }
            }
            proof {
                if !(lns[i as int].len() > 0 && (lns[i as int].last() == ' ' || lns[i as int].last()
                    == '\t')) {
                    assert(problems.deep_view() =~= old_problems + line_problems(
                        i + 1,
                        lns[i as int],
                    ));
                }
            }
            i = i + 1;
        }
        problems
    }

    /// The compiled-in level of this rule.
    pub fn default_level(&self) -> (r: RuleLevel)
        ensures
            r == RuleLevel::Error,
    {
        RuleLevel::Error
    }

    /// This rule supports auto-fixing.
    pub fn is_fixable(&self) -> (r: bool)
        ensures
            r,
    {
        true
    }

    /// Trim the line the problem points at.
    pub fn fix(&self, content: &str, problem: &LintProblem) -> (r: Option<String>)
        requires
            problem@.line >= 1,
        ensures
            r.deep_view() == spec_fix(content@, problem@),
    {
        let cv = chars_of(content);
        let mut lines = split_char_lines(&cv);
        let line_idx = problem.line - 1;
        if line_idx >= lines.len() {
            return None;
        }
        let ghost before = lines.deep_view();
        proof {
            assert(before[line_idx as int] =~= lines@[line_idx as int]@);
        }
        let trimmed = trim_end_chars(&lines[line_idx]);
        lines.set(line_idx, trimmed);
        proof {
            assert(lines.deep_view() =~~= before.update(
                line_idx as int,
                trimmed_end(before[line_idx as int]),
            ));
        }
        let final_nl = cv.len() > 0 && cv[cv.len() - 1] == '\n';
        Some(join_lines_string(&lines, final_nl))
    }
}

} // verus!
