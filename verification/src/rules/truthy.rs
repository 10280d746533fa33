//! Truthy rule: restricts boolean spellings to an allowed set.
//!
//! The YAML 1.1 line of the format treats many spellings (`yes`, `no`,
//! `on`, `off`, `y`, `n`) as booleans, while later revisions accept only
//! `true` and `false`.  This rule flags the legacy spellings to avoid
//! subtle parser disagreements.

use vstd::prelude::*;
use vstd::string::*;

use crate::problem::{LintLevel, LintProblem, ProblemView};
use crate::rules::{LintContext, RuleLevel};
use crate::scanner::{find_unquoted, spec_find_unquoted};
use crate::text::{
    chars_eq_ignore_case, chars_of, col_after, col_after_idx, contains_char, eq_ignore_case,
    find_sub, is_blank, leading_ws, leading_ws_len, lemma_blank_leading_ws, lemma_find_sub_props,
    spec_find_sub, string_of, sub_chars, trim_chars, trimmed,
};

verus! {

/// Whether a token is wrapped in matching quotes.
pub open spec fn spec_is_quoted(v: Seq<char>) -> bool {
    v.len() >= 1 && ((v[0] == '"' && v.last() == '"') || (v[0] == '\'' && v.last() == '\''))
}

/// Whether a token is one of the boolean spellings of the format's
/// legacy revision, compared without regard to ASCII case.
pub open spec fn spec_is_truthy(s: Seq<char>) -> bool {
    ||| eq_ignore_case(s, "y"@)
    ||| eq_ignore_case(s, "yes"@)
    ||| eq_ignore_case(s, "on"@)
    ||| eq_ignore_case(s, "true"@)
    ||| eq_ignore_case(s, "n"@)
    ||| eq_ignore_case(s, "no"@)
    ||| eq_ignore_case(s, "off"@)
    ||| eq_ignore_case(s, "false"@)
}

/// Whether a token is in the allowed list, without regard to ASCII case.
pub open spec fn spec_is_allowed(allowed: Seq<Seq<char>>, s: Seq<char>) -> bool {
    exists|i: int| 0 <= i < allowed.len() && eq_ignore_case(allowed[i], s)
}

/// A value with an inline comment stripped and trimmed.
pub open spec fn strip_comment(v: Seq<char>) -> Seq<char> {
    match spec_find_unquoted(v, '#') {
        Some(ix) => trimmed(v.take(ix)),
        None => v,
    }
}

/// The key, the value and the value's 1-indexed column of a line, when
/// the line carries one.  A plain list item (`- token`) yields an empty
/// key and the token located in the line; a `key: value` line splits at
/// the first unquoted colon; blank lines, comments, items without a
/// value and values that are only a comment yield nothing.
pub open spec fn spec_parse_key_value(l: Seq<char>) -> Option<(Seq<char>, Seq<char>, int)> {
    let t = trimmed(l);
    if t.len() == 0 || t[0] == '#' {
        None
    } else if t[0] == '-' && (trimmed(t.skip(1)).len() == 0 || trimmed(t.skip(1))[0] == '#') {
        None
    } else if t[0] == '-' && !trimmed(t.skip(1)).contains(':') {
        let ah = trimmed(t.skip(1));
        match spec_find_sub(l, ah) {
            None => None,
            Some(vs) => Some((Seq::empty(), ah, vs + 1)),
        }
    } else {
        match spec_find_unquoted(l, ':') {
            None => None,
            Some(cp) => {
                let key = trimmed(l.take(cp));
                let sub = l.skip(cp + 1);
                let vp = trimmed(sub);
                if vp.len() == 0 || vp[0] == '#' {
                    None
                } else {
                    let value = strip_comment(vp);
                    if value.len() == 0 {
                        None
                    } else {
                        let vcol = if !is_blank(sub) {
                            cp + 1 + leading_ws(sub) + 1
                        } else {
                            col_after(cp + 1)
                        };
                        Some((key, value, vcol))
                    }
                }
            },
        }
    }
}

/// The message flagging a truthy value.
pub open spec fn msg_value(v: Seq<char>) -> Seq<char> {
    "truthy value \""@ + v + "\" should be replaced with \"true\" or \"false\""@
}

/// The message flagging a truthy key.
pub open spec fn msg_key(k: Seq<char>) -> Seq<char> {
    "truthy value \""@ + k + "\" used as key should be quoted"@
}

/// The problems the rule reports for one line: a flagged value first,
/// then, when keys are checked, a flagged key.
pub open spec fn line_problems(
    allowed: Seq<Seq<char>>,
    check_keys: bool,
    line_no: int,
    l: Seq<char>,
) -> Seq<ProblemView> {
    match spec_parse_key_value(l) {
        None => Seq::empty(),
        Some((k, v, vc)) => {
            let value_part = if !spec_is_quoted(v) && spec_is_truthy(v) && !spec_is_allowed(
                allowed,
                v,
            ) {
                seq![
                    ProblemView {
                        line: line_no,
                        column: vc,
                        message: msg_value(v),
                        rule: "truthy"@,
                        level: LintLevel::Error,
                    },
                ]
            } else {
                Seq::<ProblemView>::empty()
            };
            let key_part = if check_keys && k.len() > 0 && !spec_is_quoted(k) && spec_is_truthy(k)
                && !spec_is_allowed(allowed, k) {
                seq![
                    ProblemView {
                        line: line_no,
                        column: match spec_find_sub(l, k) {
                            Some(p) => p + 1,
                            None => 1,
                        },
                        message: msg_key(k),
                        rule: "truthy"@,
                        level: LintLevel::Error,
                    },
                ]
            } else {
                Seq::<ProblemView>::empty()
            };
            value_part + key_part
        },
    }
}

/// The problems reported for the first `n` lines, in line order.
pub open spec fn check_upto(
    allowed: Seq<Seq<char>>,
    check_keys: bool,
    lines: Seq<Seq<char>>,
    n: int,
) -> Seq<ProblemView>
    decreases n,
{
    if n <= 0 {
        Seq::empty()
    } else {
        check_upto(allowed, check_keys, lines, n - 1) + line_problems(
            allowed,
            check_keys,
            n,
            lines[n - 1],
        )
    }
}

/// All problems the rule reports for a document's lines.
pub open spec fn spec_check(
    allowed: Seq<Seq<char>>,
    check_keys: bool,
    lines: Seq<Seq<char>>,
) -> Seq<ProblemView> {
    check_upto(allowed, check_keys, lines, lines.len() as int)
}

/// Rule that restricts boolean spellings.
#[derive(Debug)]
pub struct TruthyRule {
    /// Allowed spellings.
    pub allowed_values: Vec<String>,
    /// Also check mapping keys.
    pub check_keys: bool,
}

impl TruthyRule {
    /// Create a new rule allowing only `true` and `false`.
    pub fn new() -> (r: Self)
        ensures
            r.allowed_values.deep_view() =~= seq!["true"@, "false"@],
            !r.check_keys,
    {
        let mut allowed_values: Vec<String> = Vec::new();
        allowed_values.push(String::from_str("true"));
        allowed_values.push(String::from_str("false"));
        TruthyRule { allowed_values, check_keys: false }
    }

    /// Create a new rule with custom settings.
    pub fn with_config(allowed_values: Vec<String>, check_keys: bool) -> (r: Self)
        ensures
            r.allowed_values == allowed_values,
            r.check_keys == check_keys,
    {
        TruthyRule { allowed_values, check_keys }
    }

    /// Whether a token is one of the legacy boolean spellings.
    pub fn is_truthy_value(value: &str) -> (r: bool)
        ensures
            r == spec_is_truthy(value@),
    {
        let v = chars_of(value);
        Self::truthy_chars(&v)
    }

    /// [`Self::is_truthy_value`] on a character vector.
    fn truthy_chars(v: &Vec<char>) -> (r: bool)
        ensures
            r == spec_is_truthy(v@),
    {
        let c1 = chars_of("y");
        let c2 = chars_of("yes");
        let c3 = chars_of("on");
        let c4 = chars_of("true");
        let c5 = chars_of("n");
        let c6 = chars_of("no");
        let c7 = chars_of("off");
        let c8 = chars_of("false");
        chars_eq_ignore_case(v, &c1) || chars_eq_ignore_case(v, &c2) || chars_eq_ignore_case(
            v,
            &c3,
        ) || chars_eq_ignore_case(v, &c4) || chars_eq_ignore_case(v, &c5) || chars_eq_ignore_case(
            v,
            &c6,
        ) || chars_eq_ignore_case(v, &c7) || chars_eq_ignore_case(v, &c8)
    }

    /// Whether a token is in the allowed list.
    pub fn is_allowed(&self, value: &str) -> (r: bool)
        ensures
            r == spec_is_allowed(self.allowed_values.deep_view(), value@),
    {
        let v = chars_of(value);
        self.allowed_chars(&v)
    }

    /// [`Self::is_allowed`] on a character vector.
    fn allowed_chars(&self, v: &Vec<char>) -> (r: bool)
        ensures
            r == spec_is_allowed(self.allowed_values.deep_view(), v@),
    {
        let ghost av = self.allowed_values.deep_view();
        let n = self.allowed_values.len();
        let mut i: usize = 0;
        while i < n
            invariant
                0 <= i <= n,
                av == self.allowed_values.deep_view(),
                av.len() == n,
                forall|j: int| 0 <= j < i ==> !eq_ignore_case(av[j], v@),
            decreases n - i,
        {
            let a = chars_of(self.allowed_values[i].as_str());
            if chars_eq_ignore_case(&a, v) {
                assert(spec_is_allowed(av, v@)) by {
                    assert(0 <= i < av.len() && eq_ignore_case(av[i as int], v@));
                }
                return true;
            }
            i = i + 1;
        }
        assert(!spec_is_allowed(av, v@));
        false
    }

    /// Whether a token is wrapped in matching quotes.
    pub fn is_quoted(value: &str) -> (r: bool)
        ensures
            r == spec_is_quoted(value@),
    {
        let v = chars_of(value);
        v.len() >= 1 && ((v[0] == '"' && v[v.len() - 1] == '"') || (v[0] == '\'' && v[v.len() - 1]
            == '\''))
    }

    /// The offset of the first occurrence of `target` in the line that
    /// lies outside of a quoted scalar.
    pub fn find_char_outside_quotes(s: &str, target: char) -> (r: Option<usize>)
        ensures
            match r {
                Some(k) => spec_find_unquoted(s@, target) == Some(k as int),
                None => spec_find_unquoted(s@, target) is None,
            },
    {
        let v = chars_of(s);
        find_unquoted(&v, target)
    }

    /// The offset of the colon separating a key from its value.
    pub fn find_key_value_separator(line: &str) -> (r: Option<usize>)
        ensures
            match r {
                Some(k) => spec_find_unquoted(line@, ':') == Some(k as int),
                None => spec_find_unquoted(line@, ':') is None,
            },
    {
        Self::find_char_outside_quotes(line, ':')
    }

    /// A value with its inline comment stripped and trimmed.
    pub fn strip_inline_comment(value: &str) -> (r: String)
        ensures
            r@ == strip_comment(value@),
    {
        let v = chars_of(value);
        match find_unquoted(&v, '#') {
            Some(ix) => {
                proof {
                    crate::scanner::lemma_find_from_in_range(
                        v@,
                        '#',
                        0,
                        crate::scanner::QuoteState::Outside,
                    );
                }
                let cut = sub_chars(&v, 0, ix);
                let t = trim_chars(&cut);
                string_of(&t)
            },
            None => string_of(&v),
        }
    }

    /// Extract the key, the value and the value's column from a line.
    pub fn parse_key_value(line: &str) -> (r: Option<(String, String, usize)>)
        ensures
            match r {
                Some(t) => spec_parse_key_value(line@) == Some((t.0@, t.1@, t.2 as int)),
                None => spec_parse_key_value(line@) is None,
            },
    {
        let v = chars_of(line);
        match Self::parse_kv_chars(&v) {
            None => None,
            Some((k, val, c)) => Some((string_of(&k), string_of(&val), c)),
        }
    }

    /// [`Self::parse_key_value`] on a character vector.
    fn parse_kv_chars(line: &Vec<char>) -> (r: Option<(Vec<char>, Vec<char>, usize)>)
        ensures
            match r {
                Some(t) => spec_parse_key_value(line@) == Some((t.0@, t.1@, t.2 as int)),
                None => spec_parse_key_value(line@) is None,
            },
    {
        let n = line.len();
        let t = trim_chars(line);
        if t.len() == 0 || t[0] == '#' {
            return None;
        }
        if t[0] == '-' {
            let tail = sub_chars(&t, 1, t.len());
            let ah = trim_chars(&tail);
            assert(ah@ == trimmed(trimmed(line@).skip(1)));
            if ah.len() == 0 || ah[0] == '#' {
                return None;
            }
            if !contains_char(&ah, ':') {
                match find_sub(line, &ah) {
                    None => {
                        return None;
                    },
                    Some(vs) => {
                        proof {
                            lemma_find_sub_props(line@, ah@, 0);
                        }
                        let key: Vec<char> = Vec::new();
                        assert(key@ =~= Seq::<char>::empty());
                        assert(spec_parse_key_value(line@) == Some(
                            (Seq::<char>::empty(), ah@, vs as int + 1),
                        ));
                        return Some((key, ah, vs + 1));
                    },
                }
            }
        }
        match find_unquoted(line, ':') {
            None => None,
            Some(cp) => {
                proof {
                    crate::scanner::lemma_find_from_in_range(
                        line@,
                        ':',
                        0,
                        crate::scanner::QuoteState::Outside,
                    );
                }
                let keyp = sub_chars(line, 0, cp);
                let key = trim_chars(&keyp);
                let sub = sub_chars(line, cp + 1, n);
                let vp = trim_chars(&sub);
                if vp.len() == 0 || vp[0] == '#' {
                    return None;
                }
                let value = match find_unquoted(&vp, '#') {
                    Some(ix) => {
                        proof {
                            crate::scanner::lemma_find_from_in_range(
                                vp@,
                                '#',
                                0,
                                crate::scanner::QuoteState::Outside,
                            );
                        }
                        let cut = sub_chars(&vp, 0, ix);
                        trim_chars(&cut)
                    },
                    None => vp,
                };
                if value.len() == 0 {
                    return None;
                }
                let lead = leading_ws_len(&sub);
                proof {
                    lemma_blank_leading_ws(sub@);
                    crate::text::lemma_leading_ws_props(sub@);
                }
                let vcol: usize = if lead < sub.len() {
                    cp + 1 + lead + 1
                } else {
                    col_after_idx(cp + 1)
                };
                proof {
                    assert(sub@ == line@.skip(cp as int + 1));
                    assert(key@ == trimmed(line@.take(cp as int)));
                    assert(value@ == strip_comment(trimmed(line@.skip(cp as int + 1))));
                    assert(spec_parse_key_value(line@) == Some((key@, value@, vcol as int)));
                }
                Some((key, value, vcol))
            },
        }
    }

    /// The stable name of this rule.
    pub fn name(&self) -> (r: &'static str)
        ensures
            r@ == "truthy"@,
    {
        "truthy"
    }

    fn value_message(v: &Vec<char>) -> (r: String)
        ensures
            r@ == msg_value(v@),
    {
        let mut s = String::from_str("truthy value \"");
        let m = string_of(v);
        s.append(m.as_str());
        s.append("\" should be replaced with \"true\" or \"false\"");
        s
    }

    fn key_message(k: &Vec<char>) -> (r: String)
        ensures
            r@ == msg_key(k@),
    {
        let mut s = String::from_str("truthy value \"");
        let m = string_of(k);
        s.append(m.as_str());
        s.append("\" used as key should be quoted");
        s
    }

    /// Flag every unquoted legacy boolean outside the allowed set.
    pub fn check(&self, context: &LintContext) -> (r: Vec<LintProblem>)
        ensures
            r.deep_view() == spec_check(
                self.allowed_values.deep_view(),
                self.check_keys,
                context.lines.deep_view(),
            ),
    {
        let ghost av = self.allowed_values.deep_view();
        let ghost ck = self.check_keys;
        let ghost lns = context.lines.deep_view();
        let mut problems: Vec<LintProblem> = Vec::new();
        let mut i: usize = 0;
        while i < context.lines.len()
            invariant
                0 <= i <= context.lines@.len(),
                av == self.allowed_values.deep_view(),
                ck == self.check_keys,
                lns == context.lines.deep_view(),
                lns.len() == context.lines@.len(),
                problems.deep_view() == check_upto(av, ck, lns, i as int),
            decreases context.lines@.len() - i,
        {
            let ghost old_problems = problems.deep_view();
            let ghost l = lns[i as int];
            let v = chars_of(context.lines[i].as_str());
            assert(v@ == l);
            match Self::parse_kv_chars(&v) {
                None => {},
                Some((key, value, vc)) => {
                    let vq = value.len() >= 1 && ((value[0] == '"' && value[value.len() - 1] == '"')
                        || (value[0] == '\'' && value[value.len() - 1] == '\''));
                    if !vq && Self::truthy_chars(&value) && !self.allowed_chars(&value) {
                        let msg = Self::value_message(&value);
                        problems.push(
                            LintProblem::new(i + 1, vc, msg.as_str(), "truthy", LintLevel::Error),
                        );
                    }
                    let kq = key.len() >= 1 && ((key[0] == '"' && key[key.len() - 1] == '"') || (
                    key[0] == '\'' && key[key.len() - 1] == '\''));
                    if self.check_keys && key.len() > 0 && !kq && Self::truthy_chars(&key)
                        && !self.allowed_chars(&key) {
                        let vn = v.len();
                        let key_col: usize = match find_sub(&v, &key) {
                            Some(p) => {
                                proof {
                                    lemma_find_sub_props(v@, key@, 0);
                                }
                                assert(p < vn);
                                p + 1
                            },
                            None => 1,
                        };
                        let msg = Self::key_message(&key);
                        problems.push(
                            LintProblem::new(i + 1, key_col, msg.as_str(), "truthy",
                                LintLevel::Error),
                        );
                    }
                },
            }
            proof {
                assert(problems.deep_view() =~= old_problems + line_problems(av, ck, i + 1, l));
            }
            i = i + 1;
        }
        problems
    }

    /// The compiled-in level of this rule: a warning.
    pub fn default_level(&self) -> (r: RuleLevel)
        ensures
            r == RuleLevel::Warning,
    {
        RuleLevel::Warning
    }

    /// This rule has no auto-fix.
    pub fn is_fixable(&self) -> (r: bool)
        ensures
            !r,
    {
        false
    }
}

impl Default for TruthyRule {
    fn default() -> (r: Self)
        ensures
            r.allowed_values.deep_view() =~= seq!["true"@, "false"@],
            !r.check_keys,
    {
        Self::new()
    }
}

} // verus!
