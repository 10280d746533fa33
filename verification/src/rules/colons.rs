//! Colons rule: validates spacing around the key/value colon.

use vstd::prelude::*;
use vstd::string::*;

use crate::problem::{LintLevel, LintProblem, ProblemView};
use crate::rules::{LintContext, RuleLevel};
use crate::scanner::{find_key_colon, lemma_find_sep_in_range, spec_find_key_colon};
use crate::text::{chars_of, dec_digits, trim_chars, trimmed, usize_to_string};

verus! {

/// Number of spaces immediately before position `end`.
pub open spec fn spaces_before(l: Seq<char>, end: int) -> int
    decreases end,
{
    if end <= 0 || end > l.len() || l[end - 1] != ' ' {
        0
    } else {
        1 + spaces_before(l, end - 1)
    }
}

/// Number of spaces starting at position `start`.
pub open spec fn spaces_from(l: Seq<char>, start: int) -> int
    decreases l.len() - start,
{
    if start < 0 || start >= l.len() || l[start] != ' ' {
        0
    } else {
        1 + spaces_from(l, start + 1)
    }
}

pub proof fn lemma_spaces_before_eq(l: Seq<char>, end: int, k: int)
    requires
        0 <= k <= end <= l.len(),
        forall|j: int| end - k <= j < end ==> l[j] == ' ',
        end - k > 0 ==> l[end - k - 1] != ' ',
    ensures
        spaces_before(l, end) == k,
    decreases k,
{
    if k == 0 {
    } else {
        assert(l[end - 1] == ' ');
        lemma_spaces_before_eq(l, end - 1, k - 1);
    }
}

pub proof fn lemma_spaces_from_eq(l: Seq<char>, start: int, k: int)
    requires
        0 <= start,
        0 <= k,
        start + k <= l.len(),
        forall|j: int| start <= j < start + k ==> l[j] == ' ',
        start + k < l.len() ==> l[start + k] != ' ',
    ensures
        spaces_from(l, start) == k,
    decreases k,
{
    if k == 0 {
    } else {
        assert(l[start] == ' ');
        lemma_spaces_from_eq(l, start + 1, k - 1);
    }
}

/// Whether the trimmed line opens a document marker or a directive.
pub open spec fn skip_line(t: Seq<char>) -> bool {
    ||| t.len() == 0
    ||| t[0] == '#'
    ||| t[0] == '%'
    ||| (t.len() >= 3 && t[0] == '-' && t[1] == '-' && t[2] == '-')
    ||| (t.len() >= 3 && t[0] == '.' && t[1] == '.' && t[2] == '.')
}

/// The message for too many spaces before the colon.
pub open spec fn msg_before(n: int, max: int) -> Seq<char> {
    "too many spaces before colon ("@ + dec_digits(n) + " > "@ + dec_digits(max) + ")"@
}

/// The message for too many spaces after the colon.
pub open spec fn msg_after(n: int, max: int) -> Seq<char> {
    "too many spaces after colon ("@ + dec_digits(n) + " > "@ + dec_digits(max) + ")"@
}

/// The problems the rule reports for one line: only the first mapping
/// colon is examined; spaces before it and after it are measured
/// against the configured limits, and a colon directly followed by a
/// comment lacks its space.
pub open spec fn line_problems(mb: int, ma: int, line_no: int, l: Seq<char>) -> Seq<ProblemView> {
    if skip_line(trimmed(l)) {
        Seq::empty()
    } else {
        match spec_find_key_colon(l) {
            None => Seq::empty(),
            Some(cp) => {
                let sb = spaces_before(l, cp);
                let p1 = if sb > mb {
                    seq![
                        ProblemView {
                            line: line_no,
                            column: cp + 1,
                            message: msg_before(sb, mb),
                            rule: "colons"@,
                            level: LintLevel::Error,
                        },
                    ]
                } else {
                    Seq::<ProblemView>::empty()
                };
                if cp + 1 < l.len() && l[cp + 1] == ' ' {
                    let sa = spaces_from(l, cp + 1);
                    if sa > ma {
                        p1 + seq![
                            ProblemView {
                                line: line_no,
                                column: cp + 2,
                                message: msg_after(sa, ma),
                                rule: "colons"@,
                                level: LintLevel::Error,
                            },
                        ]
                    } else {
                        p1
                    }
                } else if cp + 1 < l.len() && l[cp + 1] == '#' && ma > 0 {
                    p1 + seq![
                        ProblemView {
                            line: line_no,
                            column: cp + 2,
                            message: "missing space after colon"@,
                            rule: "colons"@,
                            level: LintLevel::Error,
                        },
                    ]
                } else {
                    p1
                }
            },
        }
    }
}

/// The problems reported for the first `n` lines, in line order.
pub open spec fn check_upto(mb: int, ma: int, lines: Seq<Seq<char>>, n: int) -> Seq<ProblemView>
    decreases n,
{
    if n <= 0 {
        Seq::empty()
    } else {
        check_upto(mb, ma, lines, n - 1) + line_problems(mb, ma, n, lines[n - 1])
    }
}

/// All problems the rule reports for a document's lines.
pub open spec fn spec_check(mb: int, ma: int, lines: Seq<Seq<char>>) -> Seq<ProblemView> {
    check_upto(mb, ma, lines, lines.len() as int)
}

/// Rule that checks spacing around the key/value colon.
#[derive(Debug)]
pub struct ColonsRule {
    /// Maximum spaces allowed before a colon.
    pub max_spaces_before: usize,
    /// Maximum spaces allowed after a colon.
    pub max_spaces_after: usize,
}

impl ColonsRule {
    /// Create a new colons rule with the defaults (0 before, 1 after).
    pub fn new() -> (r: Self)
        ensures
            r.max_spaces_before == 0 && r.max_spaces_after == 1,
    {
        ColonsRule { max_spaces_before: 0, max_spaces_after: 1 }
    }

    /// Create a colons rule with custom spacing.
    pub fn with_spacing(max_before: usize, max_after: usize) -> (r: Self)
        ensures
            r.max_spaces_before == max_before && r.max_spaces_after == max_after,
    {
        ColonsRule { max_spaces_before: max_before, max_spaces_after: max_after }
    }

    /// The stable name of this rule.
    pub fn name(&self) -> (r: &'static str)
        ensures
            r@ == "colons"@,
    {
        "colons"
    }

    fn before_message(n: usize, max: usize) -> (r: String)
        ensures
            r@ == msg_before(n as int, max as int),
    {
        let mut s = String::from_str("too many spaces before colon (");
        let a = usize_to_string(n);
        s.append(a.as_str());
        s.append(" > ");
        let b = usize_to_string(max);
        s.append(b.as_str());
        s.append(")");
        s
    }

    fn after_message(n: usize, max: usize) -> (r: String)
        ensures
            r@ == msg_after(n as int, max as int),
    {
        let mut s = String::from_str("too many spaces after colon (");
        let a = usize_to_string(n);
        s.append(a.as_str());
        s.append(" > ");
        let b = usize_to_string(max);
        s.append(b.as_str());
        s.append(")");
        s
    }

    /// Check the spacing around the first mapping colon of every line.
    pub fn check(&self, context: &LintContext) -> (r: Vec<LintProblem>)
        ensures
            r.deep_view() == spec_check(
                self.max_spaces_before as int,
                self.max_spaces_after as int,
                context.lines.deep_view(),
            ),
    {
        let ghost mb = self.max_spaces_before as int;
        let ghost ma = self.max_spaces_after as int;
        let ghost lns = context.lines.deep_view();
        let mut problems: Vec<LintProblem> = Vec::new();
        let mut i: usize = 0;
        while i < context.lines.len()
            invariant
                0 <= i <= context.lines@.len(),
                mb == self.max_spaces_before as int,
                ma == self.max_spaces_after as int,
                lns == context.lines.deep_view(),
                lns.len() == context.lines@.len(),
                problems.deep_view() == check_upto(mb, ma, lns, i as int),
            decreases context.lines@.len() - i,
        {
            let ghost old_problems = problems.deep_view();
            let ghost l = lns[i as int];
            let v = chars_of(context.lines[i].as_str());
            assert(v@ == l);
            let n = v.len();
            let t = trim_chars(&v);
            let skip = t.len() == 0 || t[0] == '#' || t[0] == '%' || (t.len() >= 3 && t[0] == '-'
                && t[1] == '-' && t[2] == '-') || (t.len() >= 3 && t[0] == '.' && t[1] == '.' && t[2]
                == '.');
            if !skip {
                match find_key_colon(&v) {
                    None => {},
                    Some(cp) => {
                        proof {
                            lemma_find_sep_in_range(l, 0, crate::scanner::QuoteState::Outside);
                        }
                        assert(cp < n);
                        let mut sb: usize = 0;
                        while sb < cp && v[cp - sb - 1] == ' '
                            invariant
                                0 <= sb <= cp < n,
                                n == v@.len(),
                                forall|j: int| cp - sb <= j < cp ==> v@[j] == ' ',
                            decreases cp - sb,
                        {
                            sb = sb + 1;
                        }
                        proof {
                            lemma_spaces_before_eq(v@, cp as int, sb as int);
                        }
                        if sb > self.max_spaces_before {
                            let msg = Self::before_message(sb, self.max_spaces_before);
                            problems.push(
                                LintProblem::new(i + 1, cp + 1, msg.as_str(), "colons",
                                    LintLevel::Error),
                            );
                        }
                        if cp + 1 < n && v[cp + 1] == ' ' {
                            let mut sa: usize = 0;
                            while cp + 1 + sa < n && v[cp + 1 + sa] == ' '
                                invariant
                                    0 <= sa,
                                    cp + 1 + sa <= n,
                                    cp + 1 < n,
                                    n == v@.len(),
                                    forall|j: int| cp + 1 <= j < cp + 1 + sa ==> v@[j] == ' ',
                                decreases n - sa,
                            {
                                sa = sa + 1;
                            }
                            proof {
                                lemma_spaces_from_eq(v@, cp as int + 1, sa as int);
                            }
                            if sa > self.max_spaces_after {
                                let msg = Self::after_message(sa, self.max_spaces_after);
                                problems.push(
                                    LintProblem::new(i + 1, cp + 2, msg.as_str(), "colons",
                                        LintLevel::Error),
                                );
                            }
                        } else if cp + 1 < n && v[cp + 1] == '#' && self.max_spaces_after > 0 {
                            problems.push(
                                LintProblem::new(i + 1, cp + 2, "missing space after colon",
                                    "colons", LintLevel::Error),
                            );
                        }
                    },
                }
            }
            proof {
                assert(problems.deep_view() =~= old_problems + line_problems(mb, ma, i + 1, l));
            }
            i = i + 1;
        }
        problems
    }

    /// The compiled-in level of this rule.
    pub fn default_level(&self) -> (r: RuleLevel)
        ensures
            r == RuleLevel::Error,
    {
        RuleLevel::Error
    }

    /// This rule has no auto-fix.
    pub fn is_fixable(&self) -> (r: bool)
        ensures
            !r,
    {
        false
    }
}

impl Default for ColonsRule {
    fn default() -> (r: Self)
        ensures
            r.max_spaces_before == 0 && r.max_spaces_after == 1,
    {
        Self::new()
    }
}

} // verus!
