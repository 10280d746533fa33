//! Comments rule: enforces consistent comment formatting.
//!
//! The rule checks for a space after the comment marker (configurable)
//! and for a minimum spacing between inline comments and the content
//! before them.

use vstd::prelude::*;
use vstd::string::*;

use crate::problem::{LintLevel, LintProblem, ProblemView};
use crate::rules::{split_char_lines, split_lines, LintContext, RuleLevel};
use crate::scanner::{find_unquoted, spec_find_unquoted};
use crate::text::{
    blank_line, chars_of, dec_digits, extend_chars, is_blank, join_lines_string, join_nl, push_line,
    sub_chars, trailing_ws, trailing_ws_len, trimmed_end, usize_to_string,
};

verus! {

/// A run of `k` spaces.
pub open spec fn spaces(k: int) -> Seq<char> {
    Seq::new(
        (if k >= 0 {
            k
        } else {
            0
        }) as nat,
        |i: int| ' ',
    )
}

/// Whether the line is a shebang line.
pub open spec fn is_shebang(l: Seq<char>) -> bool {
    l.len() >= 2 && l[0] == '#' && l[1] == '!'
}

/// Whether the character after the comment marker calls for a fix: a
/// space, a second marker, a shebang bang and a tab are all accepted.
pub open spec fn needs_space_after(l: Seq<char>, cs: int) -> bool {
    &&& cs + 1 < l.len()
    &&& l[cs + 1] != ' '
    &&& l[cs + 1] != '#'
    &&& l[cs + 1] != '!'
    &&& l[cs + 1] != '\t'
}

/// The message for an inline comment that sits too close to content.
pub open spec fn msg_too_few(n: int, min: int) -> Seq<char> {
    "too few spaces before comment ("@ + dec_digits(n) + " < "@ + dec_digits(min) + ")"@
}

/// The problems the rule reports for one line.
pub open spec fn line_problems(
    require_starting_space: bool,
    ignore_shebangs: bool,
    min_spaces: int,
    line_no: int,
    l: Seq<char>,
) -> Seq<ProblemView> {
    if is_blank(l) {
        Seq::empty()
    } else {
        match spec_find_unquoted(l, '#') {
            None => Seq::empty(),
            Some(cs) => {
                if ignore_shebangs && cs == 0 && is_shebang(l) {
                    Seq::empty()
                } else {
                    let p1 = if require_starting_space && needs_space_after(l, cs) {
                        seq![
                            ProblemView {
                                line: line_no,
                                column: cs + 2,
                                message: "missing space after comment marker (#)"@,
                                rule: "comments"@,
                                level: LintLevel::Error,
                            },
                        ]
                    } else {
                        Seq::<ProblemView>::empty()
                    };
                    let before = l.take(cs);
                    let p2 = if cs > 0 && trimmed_end(before).len() > 0 && trailing_ws(before)
                        < min_spaces {
                        seq![
                            ProblemView {
                                line: line_no,
                                column: cs + 1,
                                message: msg_too_few(trailing_ws(before), min_spaces),
                                rule: "comments"@,
                                level: LintLevel::Error,
                            },
                        ]
                    } else {
                        Seq::<ProblemView>::empty()
                    };
                    p1 + p2
                }
            },
        }
    }
}

/// The problems reported for the first `n` lines, in line order.
pub open spec fn check_upto(
    require_starting_space: bool,
    ignore_shebangs: bool,
    min_spaces: int,
    lines: Seq<Seq<char>>,
    n: int,
) -> Seq<ProblemView>
    decreases n,
{
    if n <= 0 {
        Seq::empty()
    } else {
        check_upto(require_starting_space, ignore_shebangs, min_spaces, lines, n - 1)
            + line_problems(require_starting_space, ignore_shebangs, min_spaces, n, lines[n - 1])
    }
}

/// All problems the rule reports for a document's lines.
pub open spec fn spec_check(
    require_starting_space: bool,
    ignore_shebangs: bool,
    min_spaces: int,
    lines: Seq<Seq<char>>,
) -> Seq<ProblemView> {
    check_upto(require_starting_space, ignore_shebangs, min_spaces, lines, lines.len() as int)
}

/// What fixing does to one line, and whether it changed anything: a
/// space is inserted after a bare comment marker, and an inline comment
/// too close to content is pushed out to the configured spacing.  The
/// shebang exemption applies to the first line only.
pub open spec fn fix_line(
    require_starting_space: bool,
    ignore_shebangs: bool,
    min_spaces: int,
    idx: int,
    l: Seq<char>,
) -> (Seq<char>, bool) {
    if is_blank(l) {
        (l, false)
    } else {
        match spec_find_unquoted(l, '#') {
            None => (l, false),
            Some(cs) => {
                if ignore_shebangs && idx == 0 && is_shebang(l) {
                    (l, false)
                } else {
                    let step1 = if require_starting_space && needs_space_after(l, cs) {
                        (l.take(cs + 1) + seq![' '] + l.skip(cs + 1), true)
                    } else {
                        (l, false)
                    };
                    let l1 = step1.0;
                    let before = l1.take(cs);
                    let step2 = if cs > 0 && trimmed_end(before).len() > 0 && trailing_ws(before)
                        < min_spaces {
                        (trimmed_end(before) + spaces(min_spaces) + l1.skip(cs), true)
                    } else {
                        (l1, false)
                    };
                    (step2.0, step1.1 || step2.1)
                }
            },
        }
    }
}

/// The repaired lines of the first `n` lines, with a flag telling
/// whether any line changed.
pub open spec fn fix_upto(
    require_starting_space: bool,
    ignore_shebangs: bool,
    min_spaces: int,
    lines: Seq<Seq<char>>,
    n: int,
) -> (Seq<Seq<char>>, bool)
    decreases n,
{
    if n <= 0 {
        (Seq::empty(), false)
    } else {
        let prev = fix_upto(require_starting_space, ignore_shebangs, min_spaces, lines, n - 1);
        let here = fix_line(require_starting_space, ignore_shebangs, min_spaces, n - 1, lines[n
            - 1]);
        (prev.0.push(here.0), prev.1 || here.1)
    }
}

/// What fixing does to the content: every line repaired, `None` when no
/// line changed, the final break kept exactly when the content had one.
pub open spec fn spec_fix(
    require_starting_space: bool,
    ignore_shebangs: bool,
    min_spaces: int,
    content: Seq<char>,
) -> Option<Seq<char>> {
    let ls = split_lines(content);
    let fixed = fix_upto(require_starting_space, ignore_shebangs, min_spaces, ls, ls.len() as int);
    if !fixed.1 {
        None
    } else {
        Some(
            join_nl(fixed.0) + (if content.len() > 0 && content.last() == '\n' {
                seq!['\n']
            } else {
                Seq::<char>::empty()
            }),
        )
    }
}

/// Rule that enforces consistent comment formatting.
#[derive(Debug)]
pub struct CommentsRule {
    /// Require a space after the comment marker.
    pub require_starting_space: bool,
    /// Ignore shebang lines.
    pub ignore_shebangs: bool,
    /// Minimum spaces between content and an inline comment.
    pub min_spaces_from_content: usize,
}

impl CommentsRule {
    /// Create a new rule with the default settings.
    pub fn new() -> (r: Self)
        ensures
            r.require_starting_space && r.ignore_shebangs && r.min_spaces_from_content == 2,
    {
        CommentsRule { require_starting_space: true, ignore_shebangs: true, min_spaces_from_content: 2 }
    }

    /// Create a new rule with custom settings.
    pub fn with_config(
        require_starting_space: bool,
        ignore_shebangs: bool,
        min_spaces_from_content: usize,
    ) -> (r: Self)
        ensures
            r.require_starting_space == require_starting_space,
            r.ignore_shebangs == ignore_shebangs,
            r.min_spaces_from_content == min_spaces_from_content,
    {
        CommentsRule { require_starting_space, ignore_shebangs, min_spaces_from_content }
    }

    /// Whether a line is a shebang line.
    pub fn is_shebang(line: &str) -> (r: bool)
        ensures
            r == is_shebang(line@),
    {
        let v = chars_of(line);
        v.len() >= 2 && v[0] == '#' && v[1] == '!'
    }

    /// The offset of the comment marker of the line, if any lies outside
    /// of a quoted scalar.
    pub fn find_comment_start(line: &str) -> (r: Option<usize>)
        ensures
            match r {
                Some(k) => spec_find_unquoted(line@, '#') == Some(k as int),
                None => spec_find_unquoted(line@, '#') is None,
            },
    {
        let v = chars_of(line);
        find_unquoted(&v, '#')
    }

    /// The stable name of this rule.
    pub fn name(&self) -> (r: &'static str)
        ensures
            r@ == "comments"@,
    {
        "comments"
    }

    fn too_few_message(n: usize, min: usize) -> (r: String)
        ensures
            r@ == msg_too_few(n as int, min as int),
    {
        let mut s = String::from_str("too few spaces before comment (");
        let a = usize_to_string(n);
        s.append(a.as_str());
        s.append(" < ");
        let b = usize_to_string(min);
        s.append(b.as_str());
        s.append(")");
        s
    }

    /// Check every line's comment, if it has one, for its spacing.
    pub fn check(&self, context: &LintContext) -> (r: Vec<LintProblem>)
        ensures
            r.deep_view() == spec_check(
                self.require_starting_space,
                self.ignore_shebangs,
                self.min_spaces_from_content as int,
                context.lines.deep_view(),
            ),
    {
        let ghost rs = self.require_starting_space;
        let ghost ish = self.ignore_shebangs;
        let ghost m = self.min_spaces_from_content as int;
        let ghost lns = context.lines.deep_view();
        let mut problems: Vec<LintProblem> = Vec::new();
        let mut i: usize = 0;
        while i < context.lines.len()
            invariant
                0 <= i <= context.lines@.len(),
                rs == self.require_starting_space,
                ish == self.ignore_shebangs,
                m == self.min_spaces_from_content as int,
                lns == context.lines.deep_view(),
                lns.len() == context.lines@.len(),
                problems.deep_view() == check_upto(rs, ish, m, lns, i as int),
            decreases context.lines@.len() - i,
        {
            let ghost old_problems = problems.deep_view();
            let ghost l = lns[i as int];
            let v = chars_of(context.lines[i].as_str());
            assert(v@ == l);
            let blank = blank_line(&v);
            if !blank {
                match find_unquoted(&v, '#') {
                    None => {},
                    Some(cs) => {
                        proof {
                            crate::scanner::lemma_find_from_in_range(
                                l,
                                '#',
                                0,
                                crate::scanner::QuoteState::Outside,
                            );
                        }
                        let vn = v.len();
                        assert(cs < vn);
                        let shebang = self.ignore_shebangs && cs == 0 && vn >= 2 && v[0] == '#'
                            && v[1] == '!';
                        if !shebang {
                            if self.require_starting_space && cs + 1 < v.len() {
                                let ch = v[cs + 1];
                                if ch != ' ' && ch != '#' && ch != '!' && ch != '\t' {
                                    problems.push(
                                        LintProblem::new(i + 1, cs + 2,
                                            "missing space after comment marker (#)", "comments",
                                            LintLevel::Error),
                                    );
                                }
                            }
                            if cs > 0 {
                                let before = sub_chars(&v, 0, cs);
                                let sp = trailing_ws_len(&before);
                                proof {
                                    crate::text::lemma_trailing_ws_props(before@);
                                }
                                if cs - sp > 0 && sp < self.min_spaces_from_content {
                                    let msg = Self::too_few_message(
                                        sp,
                                        self.min_spaces_from_content,
                                    );
                                    problems.push(
                                        LintProblem::new(i + 1, cs + 1, msg.as_str(), "comments",
                                            LintLevel::Error),
                                    );
                                }
                            }
                        }
                    },
                }
            }
            proof {
                assert(problems.deep_view() =~= old_problems + line_problems(rs, ish, m, i + 1, l));
            }
            i = i + 1;
        }
        problems
    }

    /// The compiled-in level of this rule.
    pub fn default_level(&self) -> (r: RuleLevel)
        ensures
            r == RuleLevel::Error,
    {
        RuleLevel::Error
    }

    /// This rule supports auto-fixing.
    pub fn is_fixable(&self) -> (r: bool)
        ensures
            r,
    {
        true
    }

    /// Repair one line, reporting whether anything changed.
    fn fix_one_line(&self, v: &Vec<char>, first_line: bool) -> (r: (Vec<char>, bool))
        ensures
            (r.0@, r.1) == fix_line(
                self.require_starting_space,
                self.ignore_shebangs,
                self.min_spaces_from_content as int,
                if first_line {
                    0
                } else {
                    1
                },
                v@,
            ),
    {
        let ghost l = v@;
        let blank = blank_line(v);
        if blank {
            let copy = sub_chars(v, 0, v.len());
            assert(copy@ =~= l);
            return (copy, false);
        }
        match find_unquoted(v, '#') {
            None => {
                let copy = sub_chars(v, 0, v.len());
                assert(copy@ =~= l);
                (copy, false)
            },
            Some(cs) => {
                proof {
                    crate::scanner::lemma_find_from_in_range(
                        l,
                        '#',
                        0,
                        crate::scanner::QuoteState::Outside,
                    );
                }
                let vn = v.len();
                assert(cs < vn);
                let shebang = self.ignore_shebangs && first_line && vn >= 2 && v[0] == '#'
                    && v[1] == '!';
                if shebang {
                    let copy = sub_chars(v, 0, v.len());
                    assert(copy@ =~= l);
                    return (copy, false);
                }
                let mut changed = false;
                let mut cur: Vec<char>;
                if self.require_starting_space && cs + 1 < v.len() {
                    let ch = v[cs + 1];
                    if ch != ' ' && ch != '#' && ch != '!' && ch != '\t' {
                        let mut built = sub_chars(v, 0, cs + 1);
                        built.push(' ');
                        extend_chars(&mut built, v, cs + 1, v.len());
                        assert(built@ =~= l.take(cs as int + 1) + seq![' '] + l.skip(cs as int + 1));
                        cur = built;
                        changed = true;
                    } else {
                        cur = sub_chars(v, 0, v.len());
                        assert(cur@ =~= l);
                    }
                } else {
                    cur = sub_chars(v, 0, v.len());
                    assert(cur@ =~= l);
                }
                let ghost l1 = cur@;
                if cs > 0 {
                    assert(cs < cur.len());
                    let before = sub_chars(&cur, 0, cs);
                    let sp = trailing_ws_len(&before);
                    proof {
                        crate::text::lemma_trailing_ws_props(before@);
                    }
                    if cs - sp > 0 && sp < self.min_spaces_from_content {
                        let mut built = sub_chars(&before, 0, cs - sp);
                        assert(built@ =~= trimmed_end(l1.take(cs as int)));
                        let mut t: usize = 0;
                        let ghost tb = built@;
                        while t < self.min_spaces_from_content
                            invariant
                                0 <= t <= self.min_spaces_from_content,
                                built@ == tb + spaces(t as int),
                            decreases self.min_spaces_from_content - t,
                        {
                            built.push(' ');
                            t = t + 1;
                            assert(built@ =~= tb + spaces(t as int));
                        }
                        extend_chars(&mut built, &cur, cs, cur.len());
                        assert(built@ =~= trimmed_end(l1.take(cs as int)) + spaces(
                            self.min_spaces_from_content as int,
                        ) + l1.skip(cs as int));
                        return (built, true);
                    }
                }
                (cur, changed)
            },
        }
    }

    /// Repair every line of the content; `None` when nothing changed.
    pub fn fix(&self, content: &str, _problem: &LintProblem) -> (r: Option<String>)
        ensures
            r.deep_view() == spec_fix(
                self.require_starting_space,
                self.ignore_shebangs,
                self.min_spaces_from_content as int,
                content@,
            ),
    {
        let ghost rs = self.require_starting_space;
        let ghost ish = self.ignore_shebangs;
        let ghost m = self.min_spaces_from_content as int;
        let cv = chars_of(content);
        let lines = split_char_lines(&cv);
        let ghost lns = lines.deep_view();
        proof {
            crate::text::lemma_deep_view_chars(lines);
        }
        let n = lines.len();
        let mut out: Vec<Vec<char>> = Vec::new();
        let mut changed = false;
        let mut i: usize = 0;
        while i < n
            invariant
                0 <= i <= n,
                n == lines@.len(),
                rs == self.require_starting_space,
                ish == self.ignore_shebangs,
                m == self.min_spaces_from_content as int,
                lns == lines.deep_view(),
                lns.len() == n,
                forall|t: int| 0 <= t < n ==> lns[t] == lines@[t]@,
                (out.deep_view(), changed) == fix_upto(rs, ish, m, lns, i as int),
            decreases n - i,
        {
            let ghost old_out = out.deep_view();
            let (fixed, line_changed) = self.fix_one_line(&lines[i], i == 0);
            assert((fixed@, line_changed) == fix_line(rs, ish, m, i as int, lns[i as int])) by {
                if i == 0 {
                } else {
                    assert(fix_line(rs, ish, m, 1, lns[i as int]) == fix_line(
                        rs,
                        ish,
                        m,
                        i as int,
                        lns[i as int],
                    ));
                }
            }
            push_line(&mut out, fixed);
            changed = changed || line_changed;
            i = i + 1;
        }
        if !changed {
            return None;
        }
        let final_nl = cv.len() > 0 && cv[cv.len() - 1] == '\n';
        Some(join_lines_string(&out, final_nl))
    }
}

impl Default for CommentsRule {
    fn default() -> (r: Self)
        ensures
            r.require_starting_space && r.ignore_shebangs && r.min_spaces_from_content == 2,
    {
        Self::new()
    }
}

} // verus!
