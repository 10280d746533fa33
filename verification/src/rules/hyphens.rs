//! Hyphens rule: controls spacing after list item hyphens.

use vstd::prelude::*;
use vstd::string::*;

use crate::problem::{LintLevel, LintProblem, ProblemView};
use crate::rules::{LintContext, RuleLevel};
use crate::text::{
    chars_of, col_after, col_after_idx, dec_digits, is_blank, leading_ws, leading_ws_len,
    lemma_blank_leading_ws, lemma_leading_ws_props, sub_chars, usize_to_string,
};

verus! {

/// The message reported for `n` spaces after a hyphen against limit `max`.
pub open spec fn msg_too_many(n: int, max: int) -> Seq<char> {
    "too many spaces after hyphen ("@ + dec_digits(n) + " > "@ + dec_digits(max) + ")"@
}

/// Whether the line opens a document marker (`---` or `...`) after its
/// leading whitespace.
pub open spec fn starts_marker(t: Seq<char>) -> bool {
    t.len() >= 3 && ((t[0] == '-' && t[1] == '-' && t[2] == '-') || (t[0] == '.' && t[1] == '.'
        && t[2] == '.'))
}

/// The problems the rule reports for one line.  Only list-item lines are
/// examined; a bare hyphen is fine; one without a following space is
/// flagged unless a block-scalar, anchor or alias marker follows; extra
/// spaces beyond the limit are flagged.
pub open spec fn line_problems(max: int, line_no: int, l: Seq<char>) -> Seq<ProblemView> {
    let lead = leading_ws(l);
    let t = l.skip(lead);
    if is_blank(l) || t[0] == '#' || starts_marker(t) || t[0] != '-' {
        Seq::empty()
    } else {
        let after = t.skip(1);
        if is_blank(after) {
            Seq::empty()
        } else {
            let sa = leading_ws(after);
            if sa == 0 {
                if after[0] == '|' || after[0] == '>' || after[0] == '&' || after[0] == '*' {
                    Seq::empty()
                } else {
                    seq![
                        ProblemView {
                            line: line_no,
                            column: col_after(col_after(lead)),
                            message: "too few spaces after hyphen"@,
                            rule: "hyphens"@,
                            level: LintLevel::Error,
                        },
                    ]
                }
            } else if sa > max {
                seq![
                    ProblemView {
                        line: line_no,
                        column: col_after(col_after(lead)),
                        message: msg_too_many(sa, max),
                        rule: "hyphens"@,
                        level: LintLevel::Error,
                    },
                ]
            } else {
                Seq::empty()
            }
        }
    }
}

/// The problems reported for the first `n` lines, in line order.
pub open spec fn check_upto(max: int, lines: Seq<Seq<char>>, n: int) -> Seq<ProblemView>
    decreases n,
{
    if n <= 0 {
        Seq::empty()
    } else {
        check_upto(max, lines, n - 1) + line_problems(max, n, lines[n - 1])
    }
}

/// All problems the rule reports for a document's lines.
pub open spec fn spec_check(max: int, lines: Seq<Seq<char>>) -> Seq<ProblemView> {
    check_upto(max, lines, lines.len() as int)
}

/// Rule that controls spacing after list item hyphens.
#[derive(Debug)]
pub struct HyphensRule {
    /// Maximum spaces allowed after a hyphen.
    pub max_spaces_after: usize,
}

impl HyphensRule {
    /// Create a new rule with the default limit of one space.
    pub fn new() -> (r: Self)
        ensures
            r.max_spaces_after == 1,
    {
        HyphensRule { max_spaces_after: 1 }
    }

    /// Create a new rule with a custom limit.
    pub fn with_config(max_spaces_after: usize) -> (r: Self)
        ensures
            r.max_spaces_after == max_spaces_after,
    {
        HyphensRule { max_spaces_after }
    }

    /// The stable name of this rule.
    pub fn name(&self) -> (r: &'static str)
        ensures
            r@ == "hyphens"@,
    {
        "hyphens"
    }

    /// Builds the report message for too many spaces.
    fn message(n: usize, max: usize) -> (r: String)
        ensures
            r@ == msg_too_many(n as int, max as int),
    {
        let mut s = String::from_str("too many spaces after hyphen (");
        let a = usize_to_string(n);
        s.append(a.as_str());
        s.append(" > ");
        let b = usize_to_string(max);
        s.append(b.as_str());
        s.append(")");
        s
    }

    /// Examine every list-item line's spacing after the hyphen.
    pub fn check(&self, context: &LintContext) -> (r: Vec<LintProblem>)
        ensures
            r.deep_view() == spec_check(self.max_spaces_after as int, context.lines.deep_view()),
    {
        let ghost max = self.max_spaces_after as int;
        let ghost lns = context.lines.deep_view();
        let mut problems: Vec<LintProblem> = Vec::new();
        let mut i: usize = 0;
        while i < context.lines.len()
            invariant
                0 <= i <= context.lines@.len(),
                max == self.max_spaces_after as int,
                lns == context.lines.deep_view(),
                lns.len() == context.lines@.len(),
                problems.deep_view() == check_upto(max, lns, i as int),
            decreases context.lines@.len() - i,
        {
            let ghost old_problems = problems.deep_view();
            let ghost l = lns[i as int];
            let line = chars_of(context.lines[i].as_str());
            let lead = leading_ws_len(&line);
            proof {
                lemma_leading_ws_props(l);
                lemma_blank_leading_ws(l);
            }
            if lead == line.len() {
                // blank line
            } else {
                let t = sub_chars(&line, lead, line.len());
                assert(t@ == l.skip(leading_ws(l)));
                let marker = t.len() >= 3 && ((t[0] == '-' && t[1] == '-' && t[2] == '-') || (t[0]
                    == '.' && t[1] == '.' && t[2] == '.'));
                if t[0] == '#' || marker || t[0] != '-' {
                    // comment, document marker, or not a list item
                } else {
                    let after = sub_chars(&t, 1, t.len());
                    assert(after@ == l.skip(leading_ws(l)).skip(1));
                    let sa = leading_ws_len(&after);
                    proof {
                        lemma_blank_leading_ws(after@);
                    }
                    if sa == after.len() {
                        // empty item, possibly with trailing spaces
                    } else if sa == 0 {
                        let f = after[0];
                        if !(f == '|' || f == '>' || f == '&' || f == '*') {
                            problems.push(
                                LintProblem::new(i + 1, col_after_idx(col_after_idx(lead)),
                                    "too few spaces after hyphen", "hyphens", LintLevel::Error),
                            );
                        }
                    } else if sa > self.max_spaces_after {
                        let msg = Self::message(sa, self.max_spaces_after);
                        problems.push(
                            LintProblem::new(i + 1, col_after_idx(col_after_idx(lead)),
                                msg.as_str(), "hyphens", LintLevel::Error),
                        );
                    }
                }
            }
            proof {
                assert(problems.deep_view() =~= old_problems + line_problems(max, i + 1, l));
            }
            i = i + 1;
        }
        problems
    }

    /// The compiled-in level of this rule.
    pub fn default_level(&self) -> (r: RuleLevel)
        ensures
            r == RuleLevel::Error,
    {
        RuleLevel::Error
    }

    /// This rule has no auto-fix.
    pub fn is_fixable(&self) -> (r: bool)
        ensures
            !r,
    {
        false
    }
}

impl Default for HyphensRule {
    fn default() -> (r: Self)
        ensures
            r.max_spaces_after == 1,
    {
        Self::new()
    }
}

} // verus!
