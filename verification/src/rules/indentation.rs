//! Indentation rule: validates that indentation is a multiple of one
//! unit and follows from the structural context.
//!
//! The rule runs a small state machine over the lines: an expected
//! indentation and a stack of enclosing levels.  In `consistent` mode
//! the unit is detected from the document's first indentation steps.

use vstd::prelude::*;
use vstd::string::*;

use crate::problem::{LintLevel, LintProblem, ProblemView};
use crate::rules::{LintContext, RuleLevel};
use crate::text::{
    add_cap, chars_of, contains_pair, dec_digits, find_char, first_idx, has_pair, leading_ws,
    leading_ws_len, lemma_leading_ws_props, plus_cap, sub_chars, trim_chars, trimmed,
    usize_to_string,
};

verus! {

/// Indentation configuration.
#[derive(Debug, Clone, Copy, PartialEq, Eq, Structural)]
pub enum IndentSpaces {
    /// Fixed number of spaces.
    Fixed(usize),
    /// Detect the unit from the first indented lines.
    Consistent,
}

/// Whether the trimmed line opens a document marker (`---` or `...`).
pub open spec fn starts_marker(t: Seq<char>) -> bool {
    t.len() >= 3 && ((t[0] == '-' && t[1] == '-' && t[2] == '-') || (t[0] == '.' && t[1] == '.'
        && t[2] == '.'))
}

/// Whether the trimmed line is a list item: `- ` or a bare `-`.
pub open spec fn is_list_item(t: Seq<char>) -> bool {
    (t.len() >= 2 && t[0] == '-' && t[1] == ' ') || (t.len() == 1 && t[0] == '-')
}

/// Whether the line's indentation holds a tab: one at the very start,
/// or a tab adjacent to a space anywhere.
pub open spec fn tab_in_indent(l: Seq<char>) -> bool {
    (l.len() > 0 && l[0] == '\t') || contains_pair(l, '\t', ' ') || contains_pair(l, ' ', '\t')
}

/// Whether the first colon of the line carries no value: nothing, or
/// only a comment, between it and the next colon or the line end.
pub open spec fn key_expects_nested(l: Seq<char>) -> bool {
    let c1 = first_idx(l, ':');
    if c1 >= l.len() {
        false
    } else {
        let rest = l.skip(c1 + 1);
        let c2 = first_idx(rest, ':');
        let seg = if c2 < rest.len() {
            rest.take(c2)
        } else {
            rest
        };
        let t2 = trimmed(seg);
        t2.len() == 0 || t2[0] == '#'
    }
}

/// Close stack levels at or above the current indentation; the
/// outermost level always stays.
pub open spec fn pop_to(stack: Seq<int>, cur: int) -> Seq<int>
    decreases stack.len(),
{
    if stack.len() > 1 && stack.last() >= cur {
        pop_to(stack.drop_last(), cur)
    } else {
        stack
    }
}

/// The message for indentation off the unit grid.
pub open spec fn msg_multiple(size: int, cur: int) -> Seq<char> {
    "wrong indentation: expected multiple of "@ + dec_digits(size) + " but got "@ + dec_digits(cur)
}

/// The message for indentation that misses the expected level.
pub open spec fn msg_expected(exp: int, cur: int) -> Seq<char> {
    "wrong indentation: expected "@ + dec_digits(exp) + " but got "@ + dec_digits(cur)
}

/// One line's transition of the state machine: the new expectation and
/// stack, and the problems reported.
pub open spec fn ind_line(
    size: int,
    st: (Option<int>, Seq<int>),
    line_no: int,
    l: Seq<char>,
) -> ((Option<int>, Seq<int>), Seq<ProblemView>) {
    let t = trimmed(l);
    if t.len() == 0 || t[0] == '#' {
        (st, Seq::empty())
    } else if tab_in_indent(l) {
        (
            st,
            seq![
                ProblemView {
                    line: line_no,
                    column: 1,
                    message: "found tab character in indentation"@,
                    rule: "indentation"@,
                    level: LintLevel::Error,
                },
            ],
        )
    } else {
        let cur = leading_ws(l);
        if starts_marker(t) {
            ((Some(0int), seq![0int]), Seq::empty())
        } else if cur % size != 0 {
            (
                st,
                seq![
                    ProblemView {
                        line: line_no,
                        column: 1,
                        message: msg_multiple(size, cur),
                        rule: "indentation"@,
                        level: LintLevel::Error,
                    },
                ],
            )
        } else if is_list_item(t) {
            let stack = st.1;
            let st1 = if stack.len() > 0 && cur <= stack.last() && cur != 0 {
                pop_to(stack, cur)
            } else {
                stack
            };
            ((Some(plus_cap(cur, size)), st1.push(cur)), Seq::empty())
        } else {
            let step = match st.0 {
                Some(exp) => {
                    let probs = if cur > exp && (cur - exp) % size != 0 {
                        seq![
                            ProblemView {
                                line: line_no,
                                column: 1,
                                message: msg_expected(exp, cur),
                                rule: "indentation"@,
                                level: LintLevel::Error,
                            },
                        ]
                    } else {
                        Seq::<ProblemView>::empty()
                    };
                    if cur > exp {
                        ((Some(cur), st.1.push(exp)), probs)
                    } else if cur < exp {
                        let s2 = pop_to(st.1, cur);
                        (
                            (
                                if s2.len() > 0 {
                                    Some(s2.last())
                                } else {
                                    None
                                },
                                s2,
                            ),
                            probs,
                        )
                    } else {
                        ((Some(exp), st.1), probs)
                    }
                },
                None => {
                    if cur > 0 {
                        ((Some(cur), st.1.push(0).push(cur)), Seq::<ProblemView>::empty())
                    } else {
                        ((Some(0int), st.1), Seq::<ProblemView>::empty())
                    }
                },
            };
            let exp2 = if first_idx(l, ':') < l.len() && key_expects_nested(l) {
                Some(plus_cap(cur, size))
            } else {
                step.0.0
            };
            ((exp2, step.0.1), step.1)
        }
    }
}

/// The state and the problems after the first `n` lines.
pub open spec fn ind_scan(size: int, lines: Seq<Seq<char>>, n: int) -> (
    (Option<int>, Seq<int>),
    Seq<ProblemView>,
)
    decreases n,
{
    if n <= 0 {
        ((None, seq![0int]), Seq::empty())
    } else {
        let prev = ind_scan(size, lines, n - 1);
        let here = ind_line(size, prev.0, n, lines[n - 1]);
        (here.0, prev.1 + here.1)
    }
}

/// One line's transition of the unit detection: the previous indentation
/// and the smallest increase seen so far.
pub open spec fn detect_line(prev: int, mn: Option<int>, l: Seq<char>) -> (int, Option<int>) {
    let t = trimmed(l);
    if t.len() == 0 || t[0] == '#' {
        (prev, mn)
    } else if starts_marker(t) {
        (0, mn)
    } else {
        let cur = leading_ws(l);
        let mn1 = if cur > prev {
            match mn {
                None => Some(
                    if prev == 0 {
                        cur
                    } else {
                        cur - prev
                    },
                ),
                Some(m) => Some(
                    {
                        let d = if prev == 0 {
                            cur
                        } else {
                            cur - prev
                        };
                        if d < m {
                            d
                        } else {
                            m
                        }
                    },
                ),
            }
        } else {
            mn
        };
        let prev1 = if cur > 0 {
            cur
        } else {
            prev
        };
        (prev1, mn1)
    }
}

/// The detection state after the first `n` lines.
pub open spec fn detect_scan(lines: Seq<Seq<char>>, n: int) -> (int, Option<int>)
    decreases n,
{
    if n <= 0 {
        (0, None)
    } else {
        let prev = detect_scan(lines, n - 1);
        detect_line(prev.0, prev.1, lines[n - 1])
    }
}

/// The detected unit: the smallest indentation increase observed, or 2
/// when the document has no indentation.
pub open spec fn spec_detect_size(lines: Seq<Seq<char>>) -> int {
    match detect_scan(lines, lines.len() as int).1 {
        None => 2,
        Some(m) => m,
    }
}

/// All problems the rule reports, for the given unit size; a unit of
/// zero disables the rule.
pub open spec fn spec_check_sized(size: int, lines: Seq<Seq<char>>) -> Seq<ProblemView> {
    if size == 0 {
        Seq::empty()
    } else {
        ind_scan(size, lines, lines.len() as int).1
    }
}

/// All problems the rule reports for a document's lines.
pub open spec fn spec_check(spaces: IndentSpaces, lines: Seq<Seq<char>>) -> Seq<ProblemView> {
    let size = match spaces {
        IndentSpaces::Fixed(n) => n as int,
        IndentSpaces::Consistent => spec_detect_size(lines),
    };
    spec_check_sized(size, lines)
}

/// The mathematical image of the level stack.
pub open spec fn istack_view(s: Seq<usize>) -> Seq<int> {
    s.map_values(|x: usize| x as int)
}

/// The mathematical image of the expectation.
pub open spec fn exp_view(e: Option<usize>) -> Option<int> {
    match e {
        None => None,
        Some(x) => Some(x as int),
    }
}

/// Detect the indentation unit used in the document.
pub fn detect_indent_size(context: &LintContext) -> (r: usize)
    ensures
        r as int == spec_detect_size(context.lines.deep_view()),
{
    let ghost lns = context.lines.deep_view();
    let mut prev: usize = 0;
    let mut mn: usize = 0;
    let mut have_min = false;
    let mut i: usize = 0;
    while i < context.lines.len()
        invariant
            0 <= i <= context.lines@.len(),
            lns == context.lines.deep_view(),
            lns.len() == context.lines@.len(),
            detect_scan(lns, i as int) == (
                prev as int,
                if have_min {
                    Some(mn as int)
                } else {
                    None
                },
            ),
        decreases context.lines@.len() - i,
    {
        let ghost l = lns[i as int];
        let v = chars_of(context.lines[i].as_str());
        assert(v@ == l);
        let t = trim_chars(&v);
        if t.len() == 0 || t[0] == '#' {
            // blank or comment line
        } else if t.len() >= 3 && ((t[0] == '-' && t[1] == '-' && t[2] == '-') || (t[0] == '.'
            && t[1] == '.' && t[2] == '.')) {
            prev = 0;
        } else {
            let cur = leading_ws_len(&v);
            proof {
                lemma_leading_ws_props(l);
            }
            if cur > prev {
                let d = if prev == 0 {
                    cur
                } else {
                    cur - prev
                };
                if !have_min || d < mn {
                    mn = d;
                    have_min = true;
                }
            }
            if cur > 0 {
                prev = cur;
            }
        }
        i = i + 1;
    }
    if have_min {
        mn
    } else {
        2
    }
}

/// Rule that checks indentation consistency.
#[derive(Debug)]
pub struct IndentationRule {
    /// Number of spaces for one indentation unit.
    pub spaces: IndentSpaces,
}

impl IndentationRule {
    /// Create a new indentation rule in consistent mode.
    pub fn new() -> (r: Self)
        ensures
            r.spaces == IndentSpaces::Consistent,
    {
        IndentationRule { spaces: IndentSpaces::Consistent }
    }

    /// Create an indentation rule with a fixed unit.
    pub fn with_spaces(spaces: usize) -> (r: Self)
        ensures
            r.spaces == IndentSpaces::Fixed(spaces),
    {
        IndentationRule { spaces: IndentSpaces::Fixed(spaces) }
    }

    /// Create an indentation rule in consistent mode.
    pub fn consistent() -> (r: Self)
        ensures
            r.spaces == IndentSpaces::Consistent,
    {
        IndentationRule { spaces: IndentSpaces::Consistent }
    }

    /// The stable name of this rule.
    pub fn name(&self) -> (r: &'static str)
        ensures
            r@ == "indentation"@,
    {
        "indentation"
    }

    fn multiple_message(size: usize, cur: usize) -> (r: String)
        ensures
            r@ == msg_multiple(size as int, cur as int),
    {
        let mut s = String::from_str("wrong indentation: expected multiple of ");
        let a = usize_to_string(size);
        s.append(a.as_str());
        s.append(" but got ");
        let b = usize_to_string(cur);
        s.append(b.as_str());
        s
    }

    fn expected_message(exp: usize, cur: usize) -> (r: String)
        ensures
            r@ == msg_expected(exp as int, cur as int),
    {
        let mut s = String::from_str("wrong indentation: expected ");
        let a = usize_to_string(exp);
        s.append(a.as_str());
        s.append(" but got ");
        let b = usize_to_string(cur);
        s.append(b.as_str());
        s
    }

    /// Run the indentation state machine over the lines.
    pub fn check(&self, context: &LintContext) -> (r: Vec<LintProblem>)
        ensures
            r.deep_view() == spec_check(self.spaces, context.lines.deep_view()),
    {
        let ghost lns = context.lines.deep_view();
        let size: usize = match self.spaces {
            IndentSpaces::Fixed(n) => n,
            IndentSpaces::Consistent => detect_indent_size(context),
        };
        let mut problems: Vec<LintProblem> = Vec::new();
        if size == 0 {
            assert(problems.deep_view() =~= spec_check(self.spaces, lns));
            return problems;
        }
        let ghost sz = size as int;
        let mut expected: Option<usize> = None;
        let mut stack: Vec<usize> = Vec::new();
        stack.push(0);
        proof {
            assert(istack_view(stack@) =~= seq![0int]) by {
                assert(istack_view(stack@)[0] == stack@[0] as int);
            }
        }
        let mut i: usize = 0;
        while i < context.lines.len()
            invariant
                0 <= i <= context.lines@.len(),
                sz == size as int,
                sz > 0,
                lns == context.lines.deep_view(),
                lns.len() == context.lines@.len(),
                stack@.len() >= 1,
                ((exp_view(expected), istack_view(stack@)), problems.deep_view()) == ind_scan(
                    sz,
                    lns,
                    i as int,
                ),
            decreases context.lines@.len() - i,
        {
            let ghost old_state = (exp_view(expected), istack_view(stack@));
            let ghost old_problems = problems.deep_view();
            let ghost l = lns[i as int];
            let v = chars_of(context.lines[i].as_str());
            assert(v@ == l);
            let n = v.len();
            let t = trim_chars(&v);
            if t.len() == 0 || t[0] == '#' {
                proof {
                    assert(problems.deep_view() =~= old_problems + ind_line(
                        sz,
                        old_state,
                        i + 1,
                        l,
                    ).1);
                }
            } else if (n > 0 && v[0] == '\t') || has_pair(&v, '\t', ' ') || has_pair(&v, ' ', '\t')
            {
                problems.push(
                    LintProblem::new(i + 1, 1, "found tab character in indentation", "indentation",
                        LintLevel::Error),
                );
                proof {
                    assert(problems.deep_view() =~= old_problems + ind_line(
                        sz,
                        old_state,
                        i + 1,
                        l,
                    ).1);
                }
            } else {
                let cur = leading_ws_len(&v);
                proof {
                    lemma_leading_ws_props(l);
                }
                let marker = t.len() >= 3 && ((t[0] == '-' && t[1] == '-' && t[2] == '-') || (t[0]
                    == '.' && t[1] == '.' && t[2] == '.'));
                if marker {
                    expected = Some(0);
                    stack.clear();
                    stack.push(0);
                    proof {
                        assert(istack_view(stack@) =~= seq![0int]) by {
                            assert(istack_view(stack@)[0] == stack@[0] as int);
                        }
                    }
                } else if cur % size != 0 {
                    let msg = Self::multiple_message(size, cur);
                    problems.push(
                        LintProblem::new(i + 1, 1, msg.as_str(), "indentation", LintLevel::Error),
                    );
                    proof {
                        assert(problems.deep_view() =~= old_problems + ind_line(
                            sz,
                            old_state,
                            i + 1,
                            l,
                        ).1);
                    }
                } else if (t.len() >= 2 && t[0] == '-' && t[1] == ' ') || t.len() == 1 && t[0]
                    == '-' {
                    let top = stack[stack.len() - 1];
                    proof {
                        assert(istack_view(stack@).last() == stack@.last() as int);
                    }
                    if cur <= top && cur != 0 {
                        let ghost pre_pop = istack_view(stack@);
                        while stack.len() > 1 && stack[stack.len() - 1] >= cur
                            invariant
                                stack@.len() >= 1,
                                pop_to(pre_pop, cur as int) == pop_to(
                                    istack_view(stack@),
                                    cur as int,
                                ),
                            decreases stack@.len(),
                        {
                            let ghost before = stack@;
                            stack.pop();
                            proof {
                                assert(istack_view(before).drop_last() =~= istack_view(
                                    before.drop_last(),
                                ));
                                assert(istack_view(before).last() == before.last() as int);
                            }
                        }
                        proof {
                            assert(istack_view(stack@).last() == stack@.last() as int);
                            assert(pop_to(istack_view(stack@), cur as int) == istack_view(stack@));
                        }
                    }
                    expected = Some(add_cap(cur, size));
                    let ghost st1 = istack_view(stack@);
                    stack.push(cur);
                    proof {
                        assert(istack_view(stack@) =~= st1.push(cur as int)) by {
                            assert forall|w: int| 0 <= w < stack@.len() implies istack_view(
                                stack@,
                            )[w] == st1.push(cur as int)[w] by {
                                assert(istack_view(stack@)[w] == stack@[w] as int);
                                if w < stack@.len() - 1 {
                                    assert(st1[w] == stack@[w] as int);
                                }
                            }
                        }
                    }
                } else {
                    match expected {
                        Some(exp) => {
                            if cur > exp && (cur - exp) % size != 0 {
                                let msg = Self::expected_message(exp, cur);
                                problems.push(
                                    LintProblem::new(i + 1, 1, msg.as_str(), "indentation",
                                        LintLevel::Error),
                                );
                            }
                            if cur > exp {
                                let ghost st1 = istack_view(stack@);
                                stack.push(exp);
                                proof {
                                    assert(istack_view(stack@) =~= st1.push(exp as int)) by {
                                        assert forall|w: int|
                                            0 <= w < stack@.len() implies istack_view(stack@)[w]
                                            == st1.push(exp as int)[w] by {
                                            assert(istack_view(stack@)[w] == stack@[w] as int);
                                            if w < stack@.len() - 1 {
                                                assert(st1[w] == stack@[w] as int);
                                            }
                                        }
                                    }
                                }
                                expected = Some(cur);
                            } else if cur < exp {
                                let ghost pre_pop = istack_view(stack@);
                                while stack.len() > 1 && stack[stack.len() - 1] >= cur
                                    invariant
                                        stack@.len() >= 1,
                                        pop_to(pre_pop, cur as int) == pop_to(
                                            istack_view(stack@),
                                            cur as int,
                                        ),
                                    decreases stack@.len(),
                                {
                                    let ghost before = stack@;
                                    stack.pop();
                                    proof {
                                        assert(istack_view(before).drop_last() =~= istack_view(
                                            before.drop_last(),
                                        ));
                                        assert(istack_view(before).last() == before.last() as int);
                                    }
                                }
                                proof {
                                    assert(istack_view(stack@).last() == stack@.last() as int);
                                    assert(pop_to(istack_view(stack@), cur as int) == istack_view(
                                        stack@,
                                    ));
                                }
                                expected = Some(stack[stack.len() - 1]);
                                proof {
                                    assert(istack_view(stack@).last() == stack@.last() as int);
                                }
                            }
                        },
                        None => {
                            if cur > 0 {
                                expected = Some(cur);
                                let ghost st1 = istack_view(stack@);
                                stack.push(0);
                                stack.push(cur);
                                proof {
                                    assert(istack_view(stack@) =~= st1.push(0int).push(
                                        cur as int,
                                    )) by {
                                        assert forall|w: int|
                                            0 <= w < stack@.len() implies istack_view(stack@)[w]
                                            == st1.push(0int).push(cur as int)[w] by {
                                            assert(istack_view(stack@)[w] == stack@[w] as int);
                                            if w < stack@.len() - 2 {
                                                assert(st1[w] == stack@[w] as int);
                                            }
                                        }
                                    }
                                }
                            } else {
                                expected = Some(0);
                            }
                        },
                    }
                    let c1 = find_char(&v, ':');
                    if c1 < n {
                        let rest = sub_chars(&v, c1 + 1, n);
                        let c2 = find_char(&rest, ':');
                        let seg = if c2 < rest.len() {
                            sub_chars(&rest, 0, c2)
                        } else {
                            sub_chars(&rest, 0, rest.len())
                        };
                        let t2 = trim_chars(&seg);
                        proof {
                            let restg = l.skip(c1 as int + 1);
                            assert(rest@ =~= restg);
                            assert(c2 as int == first_idx(restg, ':'));
                            let segg = if first_idx(restg, ':') < restg.len() {
                                restg.take(first_idx(restg, ':'))
                            } else {
                                restg
                            };
                            assert(seg@ =~= segg);
                            assert(t2@ == trimmed(segg));
                        }
                        if t2.len() == 0 || t2[0] == '#' {
                            assert(key_expects_nested(l));
                            expected = Some(add_cap(cur, size));
                        } else {
                            assert(!key_expects_nested(l));
                        }
                    } else {
                        assert(first_idx(l, ':') >= l.len());
                    }
                }
                proof {
                    assert(problems.deep_view() =~= old_problems + ind_line(
                        sz,
                        old_state,
                        i + 1,
                        l,
                    ).1);
                    assert((exp_view(expected), istack_view(stack@)) == ind_line(
                        sz,
                        old_state,
                        i + 1,
                        l,
                    ).0);
                }
            }
            i = i + 1;
        }
        problems
    }

    /// The compiled-in level of this rule.
    pub fn default_level(&self) -> (r: RuleLevel)
        ensures
            r == RuleLevel::Error,
    {
        RuleLevel::Error
    }

    /// This rule has no auto-fix.
    pub fn is_fixable(&self) -> (r: bool)
        ensures
            !r,
    {
        false
    }
}

impl Default for IndentationRule {
    fn default() -> (r: Self)
        ensures
            r.spaces == IndentSpaces::Consistent,
    {
        Self::new()
    }
}

} // verus!
