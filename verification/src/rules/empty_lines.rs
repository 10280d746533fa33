//! Empty lines rule: limits consecutive blank lines.

use vstd::prelude::*;
use vstd::string::*;

use crate::problem::{LintLevel, LintProblem, ProblemView};
use crate::rules::{split_char_lines, split_lines, LintContext, RuleLevel};
use crate::text::{
    blank_line, chars_of, dec_digits, is_blank, join_lines_string, join_nl, usize_to_string,
};

verus! {

/// Number of blank lines at the front of the document.
pub open spec fn blank_prefix(lines: Seq<Seq<char>>) -> int
    decreases lines.len(),
{
    if lines.len() == 0 {
        0
    } else if is_blank(lines[0]) {
        1 + blank_prefix(lines.skip(1))
    } else {
        0
    }
}

/// Number of blank lines at the back of the document.
pub open spec fn blank_suffix(lines: Seq<Seq<char>>) -> int
    decreases lines.len(),
{
    if lines.len() == 0 {
        0
    } else if is_blank(lines.last()) {
        1 + blank_suffix(lines.drop_last())
    } else {
        0
    }
}

/// Number of consecutive blank lines immediately before index `n`.
pub open spec fn run_before(lines: Seq<Seq<char>>, n: int) -> int
    decreases n,
{
    if n <= 0 {
        0
    } else if is_blank(lines[n - 1]) {
        1 + run_before(lines, n - 1)
    } else {
        0
    }
}

pub proof fn lemma_blank_prefix_eq(lines: Seq<Seq<char>>, i: int)
    requires
        0 <= i <= lines.len(),
        forall|j: int| 0 <= j < i ==> is_blank(lines[j]),
        i < lines.len() ==> !is_blank(lines[i]),
    ensures
        blank_prefix(lines) == i,
    decreases lines.len(),
{
    if i == 0 {
    } else {
        assert forall|j: int| 0 <= j < i - 1 implies is_blank(lines.skip(1)[j]) by {
            assert(lines.skip(1)[j] == lines[j + 1]);
        }
        if i - 1 < lines.skip(1).len() {
            assert(lines.skip(1)[i - 1] == lines[i]);
        }
        lemma_blank_prefix_eq(lines.skip(1), i - 1);
    }
}

pub proof fn lemma_blank_suffix_eq(lines: Seq<Seq<char>>, k: int)
    requires
        0 <= k <= lines.len(),
        forall|j: int| lines.len() - k <= j < lines.len() ==> is_blank(lines[j]),
        k < lines.len() ==> !is_blank(lines[lines.len() - k - 1]),
    ensures
        blank_suffix(lines) == k,
    decreases lines.len(),
{
    if k == 0 {
    } else {
        assert forall|j: int|
            lines.drop_last().len() - (k - 1) <= j < lines.drop_last().len() implies is_blank(
            lines.drop_last()[j],
        ) by {
            assert(lines.drop_last()[j] == lines[j]);
        }
        if k - 1 < lines.drop_last().len() {
            assert(lines.drop_last()[lines.drop_last().len() - (k - 1) - 1] == lines[lines.len() - k
                - 1]);
        }
        lemma_blank_suffix_eq(lines.drop_last(), k - 1);
    }
}

/// The message for an over-long blank run at the start of the file.
pub open spec fn msg_start(n: int, max: int) -> Seq<char> {
    "too many blank lines at start of file ("@ + dec_digits(n) + " > "@ + dec_digits(max) + ")"@
}

/// The message for an over-long blank run at the end of the file.
pub open spec fn msg_end(n: int, max: int) -> Seq<char> {
    "too many blank lines at end of file ("@ + dec_digits(n) + " > "@ + dec_digits(max) + ")"@
}

/// The message for an over-long blank run between content lines.
pub open spec fn msg_mid(n: int, max: int) -> Seq<char> {
    "too many blank lines ("@ + dec_digits(n) + " > "@ + dec_digits(max) + ")"@
}

/// The problem reported at a content line for the blank run before it:
/// a run longer than the limit is flagged at its first line, unless the
/// run starts the file (that is the start check's business).
pub open spec fn mid_line_problems(max: int, lines: Seq<Seq<char>>, j: int) -> Seq<ProblemView> {
    let run = run_before(lines, j);
    if !is_blank(lines[j]) && run > max && j - run != 0 {
        seq![
            ProblemView {
                line: j - run + 1,
                column: 1,
                message: msg_mid(run, max),
                rule: "empty-lines"@,
                level: LintLevel::Error,
            },
        ]
    } else {
        Seq::empty()
    }
}

/// The middle-run problems for the first `n` lines, in line order.
pub open spec fn mid_upto(max: int, lines: Seq<Seq<char>>, n: int) -> Seq<ProblemView>
    decreases n,
{
    if n <= 0 {
        Seq::empty()
    } else {
        mid_upto(max, lines, n - 1) + mid_line_problems(max, lines, n - 1)
    }
}

/// All problems the rule reports: the start check, then the end check,
/// then the middle runs.  A document that is blank throughout reports
/// only the start check.
pub open spec fn spec_check(max: int, max_start: int, max_end: int, lines: Seq<Seq<char>>) -> Seq<
    ProblemView,
> {
    let p = blank_prefix(lines);
    let start_part = if p > max_start {
        seq![
            ProblemView {
                line: 1,
                column: 1,
                message: msg_start(p, max_start),
                rule: "empty-lines"@,
                level: LintLevel::Error,
            },
        ]
    } else {
        Seq::<ProblemView>::empty()
    };
    if p == lines.len() {
        start_part
    } else {
        let e = blank_suffix(lines);
        let end_part = if e > max_end {
            seq![
                ProblemView {
                    line: lines.len() - e + 1,
                    column: 1,
                    message: msg_end(e, max_end),
                    rule: "empty-lines"@,
                    level: LintLevel::Error,
                },
            ]
        } else {
            Seq::<ProblemView>::empty()
        };
        start_part + end_part + mid_upto(max, lines, lines.len() as int)
    }
}

/// A run of `k` empty lines.
pub open spec fn repeat_empty(k: int) -> Seq<Seq<char>> {
    Seq::new(
        (if k >= 0 {
            k
        } else {
            0
        }) as nat,
        |i: int| Seq::<char>::empty(),
    )
}

/// Whether every line from `j + 1` on is blank.
pub open spec fn all_blank_after(lines: Seq<Seq<char>>, j: int) -> bool {
    forall|k: int| j < k < lines.len() ==> is_blank(lines[k])
}

/// The repaired middle of the document, walking from index `j` with
/// `consecutive` blank lines pending: each content line is preceded by
/// at most `max` of the pending blanks, and the last content line is
/// followed by at most `max_end` of the file's trailing blanks.
pub open spec fn fix_mid(
    lines: Seq<Seq<char>>,
    j: int,
    consecutive: int,
    max: int,
    max_end: int,
) -> Seq<Seq<char>>
    decreases lines.len() - j,
{
    if j < 0 || j >= lines.len() {
        Seq::empty()
    } else if is_blank(lines[j]) {
        fix_mid(lines, j + 1, consecutive + 1, max, max_end)
    } else {
        let kept = repeat_empty(
            if consecutive <= max {
                consecutive
            } else {
                max
            },
        ).push(lines[j]);
        if all_blank_after(lines, j) {
            kept + repeat_empty(
                if max_end <= lines.len() - 1 - j {
                    max_end
                } else {
                    lines.len() - 1 - j
                },
            )
        } else {
            kept + fix_mid(lines, j + 1, 0, max, max_end)
        }
    }
}

/// What fixing does to the content: keep at most `max_start` leading
/// blanks, squeeze middle runs to `max`, keep at most `max_end` trailing
/// blanks, and rejoin, keeping a final break exactly when the content
/// had one.  An empty document is left alone.
pub open spec fn spec_fix(content: Seq<char>, max: int, max_start: int, max_end: int) -> Option<
    Seq<char>,
> {
    let ls = split_lines(content);
    if ls.len() == 0 {
        None
    } else {
        let p = blank_prefix(ls);
        let start_keep = repeat_empty(
            if max_start <= p {
                max_start
            } else {
                p
            },
        );
        let out = start_keep + fix_mid(ls, p, 0, max, max_end);
        Some(
            join_nl(out) + (if content.len() > 0 && content.last() == '\n' {
                seq!['\n']
            } else {
                Seq::<char>::empty()
            }),
        )
    }
}

/// Rule that limits consecutive empty lines.
#[derive(Debug)]
pub struct EmptyLinesRule {
    /// Maximum allowed consecutive empty lines.
    pub max: usize,
    /// Maximum empty lines at the start of the file.
    pub max_start: usize,
    /// Maximum empty lines at the end of the file.
    pub max_end: usize,
}

impl EmptyLinesRule {
    /// Create a new rule with the default limits (2 inside, 0 at the edges).
    pub fn new() -> (r: Self)
        ensures
            r.max == 2 && r.max_start == 0 && r.max_end == 0,
    {
        EmptyLinesRule { max: 2, max_start: 0, max_end: 0 }
    }

    /// Create a new rule with custom limits.
    pub fn with_config(max: usize, max_start: usize, max_end: usize) -> (r: Self)
        ensures
            r.max == max && r.max_start == max_start && r.max_end == max_end,
    {
        EmptyLinesRule { max, max_start, max_end }
    }

    /// Whether a line is empty: only whitespace.
    pub fn is_empty_line(line: &str) -> (r: bool)
        ensures
            r == is_blank(line@),
    {
        let v = chars_of(line);
        blank_line(&v)
    }

    /// The stable name of this rule.
    pub fn name(&self) -> (r: &'static str)
        ensures
            r@ == "empty-lines"@,
    {
        "empty-lines"
    }

    fn start_message(n: usize, max: usize) -> (r: String)
        ensures
            r@ == msg_start(n as int, max as int),
    {
        let mut s = String::from_str("too many blank lines at start of file (");
        let a = usize_to_string(n);
        s.append(a.as_str());
        s.append(" > ");
        let b = usize_to_string(max);
        s.append(b.as_str());
        s.append(")");
        s
    }

    fn end_message(n: usize, max: usize) -> (r: String)
        ensures
            r@ == msg_end(n as int, max as int),
    {
        let mut s = String::from_str("too many blank lines at end of file (");
        let a = usize_to_string(n);
        s.append(a.as_str());
        s.append(" > ");
        let b = usize_to_string(max);
        s.append(b.as_str());
        s.append(")");
        s
    }

    fn mid_message(n: usize, max: usize) -> (r: String)
        ensures
            r@ == msg_mid(n as int, max as int),
    {
        let mut s = String::from_str("too many blank lines (");
        let a = usize_to_string(n);
        s.append(a.as_str());
        s.append(" > ");
        let b = usize_to_string(max);
        s.append(b.as_str());
        s.append(")");
        s
    }

    /// Count the blank lines at the front; `r == lines.len()` means the
    /// whole document is blank.
    fn count_blank_prefix(lines: &Vec<String>) -> (r: usize)
        ensures
            r == blank_prefix(lines.deep_view()),
            r <= lines.deep_view().len(),
    {
        let ghost lns = lines.deep_view();
        let mut i: usize = 0;
        while i < lines.len() && Self::is_empty_line(lines[i].as_str())
            invariant
                0 <= i <= lines@.len(),
                lns == lines.deep_view(),
                lns.len() == lines@.len(),
                forall|j: int| 0 <= j < i ==> is_blank(lns[j]),
            decreases lines@.len() - i,
        {
            i = i + 1;
        }
        proof {
            lemma_blank_prefix_eq(lns, i as int);
        }
        i
    }

    /// Check the start run, the end run, and every middle run.
    pub fn check(&self, context: &LintContext) -> (r: Vec<LintProblem>)
        ensures
            r.deep_view() == spec_check(
                self.max as int,
                self.max_start as int,
                self.max_end as int,
                context.lines.deep_view(),
            ),
    {
        let ghost lns = context.lines.deep_view();
        let mut problems: Vec<LintProblem> = Vec::new();
        let n = context.lines.len();

        let start_count = Self::count_blank_prefix(&context.lines);
        if start_count > self.max_start {
            let msg = Self::start_message(start_count, self.max_start);
            problems.push(
                LintProblem::new(1, 1, msg.as_str(), "empty-lines", LintLevel::Error),
            );
        }
        if start_count == n {
            assert(problems.deep_view() =~= spec_check(
                self.max as int,
                self.max_start as int,
                self.max_end as int,
                lns,
            ));
            return problems;
        }

        let mut end_count: usize = 0;
        while end_count < n && Self::is_empty_line(context.lines[n - end_count - 1].as_str())
            invariant
                0 <= end_count <= n,
                n == context.lines@.len(),
                lns == context.lines.deep_view(),
                lns.len() == n,
                forall|j: int| n - end_count <= j < n ==> is_blank(lns[j]),
            decreases n - end_count,
        {
            end_count = end_count + 1;
        }
        proof {
            lemma_blank_suffix_eq(lns, end_count as int);
        }
        if end_count > self.max_end {
            let line_num = n - end_count + 1;
            let msg = Self::end_message(end_count, self.max_end);
            problems.push(
                LintProblem::new(line_num, 1, msg.as_str(), "empty-lines", LintLevel::Error),
            );
        }

        let ghost head = problems.deep_view();
        assert(head + mid_upto(self.max as int, lns, 0) =~= head);
        let mut consecutive: usize = 0;
        let mut j: usize = 0;
        while j < n
            invariant
                0 <= j <= n,
                n == context.lines@.len(),
                lns == context.lines.deep_view(),
                lns.len() == n,
                consecutive as int == run_before(lns, j as int),
                consecutive <= j,
                problems.deep_view() == head + mid_upto(self.max as int, lns, j as int),
            decreases n - j,
        {
            let ghost old_problems = problems.deep_view();
            if Self::is_empty_line(context.lines[j].as_str()) {
                consecutive = consecutive + 1;
            } else {
                if consecutive > self.max && j - consecutive != 0 {
                    let block_start = j - consecutive + 1;
                    let msg = Self::mid_message(consecutive, self.max);
                    problems.push(
                        LintProblem::new(block_start, 1, msg.as_str(), "empty-lines",
                            LintLevel::Error),
                    );
                }
                consecutive = 0;
            }
            proof {
                assert(problems.deep_view() =~= old_problems + mid_line_problems(
                    self.max as int,
                    lns,
                    j as int,
                ));
            }
            j = j + 1;
        }
        assert(problems.deep_view() =~= spec_check(
            self.max as int,
            self.max_start as int,
            self.max_end as int,
            lns,
        ));
        problems
    }

    /// The compiled-in level of this rule.
    pub fn default_level(&self) -> (r: RuleLevel)
        ensures
            r == RuleLevel::Error,
    {
        RuleLevel::Error
    }

    /// This rule supports auto-fixing.
    pub fn is_fixable(&self) -> (r: bool)
        ensures
            r,
    {
        true
    }

    /// Whether every line from `from` on is blank.
    fn all_blank_from(lines: &Vec<Vec<char>>, from: usize) -> (r: bool)
        requires
            from <= lines@.len(),
        ensures
            r == all_blank_after(lines.deep_view(), from as int - 1),
    {
        let ghost lns = lines.deep_view();
        proof {
            crate::text::lemma_deep_view_chars(*lines);
        }
        let mut k: usize = from;
        while k < lines.len()
            invariant
                from <= k <= lines@.len(),
                lns == lines.deep_view(),
                lns.len() == lines@.len(),
                forall|t: int| 0 <= t < lines@.len() ==> lns[t] == lines@[t]@,
                forall|t: int| from <= t < k ==> is_blank(lns[t]),
            decreases lines@.len() - k,
        {
            let line = &lines[k];
            if !blank_line(line) {
                assert(!is_blank(lns[k as int]));
                return false;
            }
            k = k + 1;
        }
        true
    }

    /// Squeeze blank runs down to the configured limits.
    pub fn fix(&self, content: &str, _problem: &LintProblem) -> (r: Option<String>)
        ensures
            r.deep_view() == spec_fix(
                content@,
                self.max as int,
                self.max_start as int,
                self.max_end as int,
            ),
    {
        let ghost maxg = self.max as int;
        let ghost max_endg = self.max_end as int;
        let cv = chars_of(content);
        let lines = split_char_lines(&cv);
        let ghost lns = lines.deep_view();
        proof {
            crate::text::lemma_deep_view_chars(lines);
        }
        let n = lines.len();
        if n == 0 {
            return None;
        }

        let mut start_count: usize = 0;
        while start_count < n && blank_line(&lines[start_count])
            invariant
                0 <= start_count <= n,
                n == lines@.len(),
                lns == lines.deep_view(),
                lns.len() == n,
                forall|t: int| 0 <= t < n ==> lns[t] == lines@[t]@,
                forall|j: int| 0 <= j < start_count ==> is_blank(lns[j]),
            decreases n - start_count,
        {
            start_count = start_count + 1;
        }
        proof {
            lemma_blank_prefix_eq(lns, start_count as int);
        }

        let mut out: Vec<Vec<char>> = Vec::new();
        let start_keep = if self.max_start <= start_count {
            self.max_start
        } else {
            start_count
        };
        Self::push_empty_lines(&mut out, start_keep);
        let ghost start_part = repeat_empty(start_keep as int);
        assert(out.deep_view() =~= start_part);

        let mut consecutive: usize = 0;
        let mut j: usize = start_count;
        while j < n
            invariant
                start_count <= j <= n,
                n == lines@.len(),
                lns == lines.deep_view(),
                lns.len() == n,
                forall|t: int| 0 <= t < n ==> lns[t] == lines@[t]@,
                consecutive <= j,
                start_part + fix_mid(lns, start_count as int, 0, maxg, max_endg) == out.deep_view()
                    + fix_mid(lns, j as int, consecutive as int, maxg, max_endg),
                maxg == self.max as int,
                max_endg == self.max_end as int,
                cv@ == content@,
                lns == split_lines(content@),
                blank_prefix(lns) == start_count as int,
                start_part == repeat_empty(start_keep as int),
                start_keep as int == (if self.max_start as int <= blank_prefix(lns) {
                    self.max_start as int
                } else {
                    blank_prefix(lns)
                }),
            decreases n - j,
        {
            let ghost old_out = out.deep_view();
            if blank_line(&lines[j]) {
                consecutive = consecutive + 1;
            } else {
                let keep = if consecutive <= self.max {
                    consecutive
                } else {
                    self.max
                };
                Self::push_empty_lines(&mut out, keep);
                let line_copy = crate::text::sub_chars(&lines[j], 0, lines[j].len());
                assert(line_copy@ =~= lns[j as int]);
                crate::text::push_line(&mut out, line_copy);
                proof {
                    assert(out.deep_view() =~= old_out + (repeat_empty(keep as int).push(
                        lns[j as int],
                    )));
                }
                if Self::all_blank_from(&lines, j + 1) {
                    let remaining = n - j - 1;
                    let end_keep = if self.max_end <= remaining {
                        self.max_end
                    } else {
                        remaining
                    };
                    let ghost before_tail = out.deep_view();
                    Self::push_empty_lines(&mut out, end_keep);
                    proof {
                        assert(fix_mid(lns, j as int, consecutive as int, maxg, max_endg)
                            =~= repeat_empty(keep as int).push(lns[j as int]) + repeat_empty(
                            end_keep as int,
                        ));
                        assert(out.deep_view() =~= old_out + fix_mid(
                            lns,
                            j as int,
                            consecutive as int,
                            maxg,
                            max_endg,
                        ));
                    }
                    let final_nl = cv.len() > 0 && cv[cv.len() - 1] == '\n';
                    return Some(join_lines_string(&out, final_nl));
                }
                consecutive = 0;
                proof {
                    assert(!all_blank_after(lns, j as int));
                    assert(out.deep_view() + fix_mid(lns, j + 1, 0, maxg, max_endg) =~= old_out
                        + (repeat_empty(keep as int).push(lns[j as int]) + fix_mid(
                        lns,
                        j + 1,
                        0,
                        maxg,
                        max_endg,
                    )));
                }
            }
            j = j + 1;
        }
        proof {
            assert(out.deep_view() + fix_mid(lns, n as int, consecutive as int, maxg, max_endg)
                =~= out.deep_view());
        }
        let final_nl = cv.len() > 0 && cv[cv.len() - 1] == '\n';
        Some(join_lines_string(&out, final_nl))
    }

    /// Append `k` empty lines.
    fn push_empty_lines(out: &mut Vec<Vec<char>>, k: usize)
        ensures
            final(out).deep_view() == old(out).deep_view() + repeat_empty(k as int),
    {
        let ghost base = out.deep_view();
        let mut t: usize = 0;
        proof {
            assert(base + repeat_empty(0) =~= base);
        }
        while t < k
            invariant
                0 <= t <= k,
                out.deep_view() == base + repeat_empty(t as int),
            decreases k - t,
        {
            let empty_line: Vec<char> = Vec::new();
            crate::text::push_line(out, empty_line);
            t = t + 1;
            proof {
                assert((base + repeat_empty(t - 1)).push(Seq::<char>::empty()) =~= base
                    + repeat_empty(t as int));
            }
        }
    }

}

impl Default for EmptyLinesRule {
    fn default() -> (r: Self)
        ensures
            r.max == 2 && r.max_start == 0 && r.max_end == 0,
    {
        Self::new()
    }
}

} // verus!
