//! Key duplicates rule: detects a key appearing twice in one mapping scope.
//!
//! The rule tracks a stack of scopes keyed by indentation.  Dedenting
//! past a scope closes it; a list item opens a fresh scope of its own,
//! so equal keys in different list items are legal; a key whose value
//! is absent (or only a comment) opens a nested scope for its children.

use vstd::prelude::*;
use vstd::string::*;

use crate::problem::{LintLevel, LintProblem, ProblemView};
use crate::rules::{LintContext, RuleLevel};
use crate::scanner::{find_key_colon, lemma_find_sep_in_range, spec_find_key_colon};
use crate::text::{
    chars_eq, chars_of, col_after, col_after_idx, leading_ws, leading_ws_len,
    lemma_blank_leading_ws, lemma_leading_ws_props, string_of, sub_chars, trim_chars, trimmed,
};

verus! {

/// One tracked scope: its indentation and the keys seen in it.
pub struct Scope {
    /// Indentation level that opened the scope.
    pub indent: usize,
    /// Keys seen so far in this scope.
    pub keys: Vec<Vec<char>>,
}

/// The mathematical image of one scope.
pub open spec fn scope_view(s: Scope) -> (int, Seq<Seq<char>>) {
    (s.indent as int, s.keys.deep_view())
}

/// The mathematical image of the scope stack.
pub open spec fn stack_view(s: Seq<Scope>) -> Seq<(int, Seq<Seq<char>>)> {
    s.map_values(|e: Scope| scope_view(e))
}

/// Close the scopes that a line at `indent` has dedented past; the
/// outermost scope always stays.
pub open spec fn kd_pop(st: Seq<(int, Seq<Seq<char>>)>, indent: int) -> Seq<(int, Seq<Seq<char>>)>
    decreases st.len(),
{
    if st.len() > 1 && st.last().0 >= indent {
        kd_pop(st.drop_last(), indent)
    } else {
        st
    }
}

/// Record a key in the innermost scope.
pub open spec fn push_key(st: Seq<(int, Seq<Seq<char>>)>, k: Seq<char>) -> Seq<
    (int, Seq<Seq<char>>),
> {
    st.update(st.len() - 1, (st.last().0, st.last().1.push(k)))
}

/// A key with its surrounding quotes removed.
pub open spec fn extract_key(k: Seq<char>) -> Seq<char> {
    if k.len() >= 2 && ((k[0] == '"' && k.last() == '"') || (k[0] == '\'' && k.last() == '\'')) {
        k.subrange(1, k.len() - 1)
    } else {
        k
    }
}

/// `s` with leading whitespace removed.
pub open spec fn trim_start_of(s: Seq<char>) -> Seq<char> {
    s.skip(leading_ws(s))
}

/// The message flagging a duplicate key.
pub open spec fn msg_dup(k: Seq<char>) -> Seq<char> {
    "found duplicate key \""@ + k + "\""@
}

/// One line's transition: the new scope stack and the problems reported.
pub open spec fn kd_line(
    st0: Seq<(int, Seq<Seq<char>>)>,
    line_no: int,
    l: Seq<char>,
) -> (Seq<(int, Seq<Seq<char>>)>, Seq<ProblemView>) {
    let t = trimmed(l);
    if t.len() == 0 || t[0] == '#' {
        (st0, Seq::empty())
    } else {
        let indent = leading_ws(l);
        let st = kd_pop(st0, indent);
        if t[0] == '-' {
            let st1 = st.push((indent, Seq::empty()));
            let ad = trim_start_of(t.skip(1));
            match spec_find_key_colon(ad) {
                None => (st1, Seq::empty()),
                Some(cp) => {
                    let key = extract_key(trimmed(ad.take(cp)));
                    let st2 = if key.len() > 0 {
                        push_key(st1, key)
                    } else {
                        st1
                    };
                    let after_colon = trimmed(ad.skip(cp + 1));
                    let st3 = if after_colon.len() == 0 || after_colon[0] == '#' {
                        st2.push((col_after(col_after(indent)), Seq::empty()))
                    } else {
                        st2
                    };
                    (st3, Seq::empty())
                },
            }
        } else {
            match spec_find_key_colon(l) {
                None => (st, Seq::empty()),
                Some(cp) => {
                    let kp = trimmed(l.take(cp));
                    if kp.len() > 0 && (kp[0] == '%' || kp[0] == '!') {
                        (st, Seq::empty())
                    } else {
                        let key = extract_key(kp);
                        let dup = key.len() > 0 && st.last().1.contains(key);
                        let st2 = if key.len() > 0 && !dup {
                            push_key(st, key)
                        } else {
                            st
                        };
                        let probs = if dup {
                            seq![
                                ProblemView {
                                    line: line_no,
                                    column: 1,
                                    message: msg_dup(key),
                                    rule: "key-duplicates"@,
                                    level: LintLevel::Error,
                                },
                            ]
                        } else {
                            Seq::<ProblemView>::empty()
                        };
                        let after_colon = trimmed(l.skip(cp + 1));
                        let st3 = if after_colon.len() == 0 || after_colon[0] == '#' {
                            st2.push((indent, Seq::empty()))
                        } else {
                            st2
                        };
                        (st3, probs)
                    }
                },
            }
        }
    }
}

/// The scope stack and the problems after the first `n` lines.
pub open spec fn kd_scan(lines: Seq<Seq<char>>, n: int) -> (
    Seq<(int, Seq<Seq<char>>)>,
    Seq<ProblemView>,
)
    decreases n,
{
    if n <= 0 {
        (seq![(0int, Seq::<Seq<char>>::empty())], Seq::empty())
    } else {
        let prev = kd_scan(lines, n - 1);
        let here = kd_line(prev.0, n, lines[n - 1]);
        (here.0, prev.1 + here.1)
    }
}

/// All problems the rule reports for a document's lines.
pub open spec fn spec_check(lines: Seq<Seq<char>>) -> Seq<ProblemView> {
    kd_scan(lines, lines.len() as int).1
}

/// Relies on `yaml_rust2::YamlLoader::load_from_str`: parses the whole
/// document and reports whether it parsed.  Nothing is promised of the
/// result; the duplicate detection itself is line-based.
#[verifier::external_body]
fn document_parses(content: &str) -> bool {
    yaml_rust2::YamlLoader::load_from_str(content).is_ok()
}

/// Rule that detects duplicate keys in mappings.
#[derive(Debug)]
pub struct KeyDuplicatesRule;

impl KeyDuplicatesRule {
    /// The stable name of this rule.
    pub fn name(&self) -> (r: &'static str)
        ensures
            r@ == "key-duplicates"@,
    {
        "key-duplicates"
    }

    /// Whether the scope already saw this key.
    fn scope_contains(keys: &Vec<Vec<char>>, k: &Vec<char>) -> (r: bool)
        ensures
            r == keys.deep_view().contains(k@),
    {
        let ghost kv = keys.deep_view();
        proof {
            crate::text::lemma_deep_view_chars(*keys);
        }
        let n = keys.len();
        let mut i: usize = 0;
        while i < n
            invariant
                0 <= i <= n,
                kv == keys.deep_view(),
                kv.len() == n,
                forall|t: int| 0 <= t < n ==> kv[t] == keys@[t]@,
                forall|j: int| 0 <= j < i ==> kv[j] != k@,
            decreases n - i,
        {
            if chars_eq(&keys[i], k) {
                assert(kv.contains(k@)) by {
                    assert(kv[i as int] == k@);
                }
                return true;
            }
            i = i + 1;
        }
        assert(!kv.contains(k@));
        false
    }

    /// Extract a key from its text, removing surrounding quotes.
    fn extract(kp: &Vec<char>) -> (r: Vec<char>)
        ensures
            r@ == extract_key(kp@),
    {
        if kp.len() >= 2 && ((kp[0] == '"' && kp[kp.len() - 1] == '"') || (kp[0] == '\''
            && kp[kp.len() - 1] == '\'')) {
            sub_chars(kp, 1, kp.len() - 1)
        } else {
            sub_chars(kp, 0, kp.len())
        }
    }

    /// Track scopes line by line and flag re-used keys.
    pub fn check(&self, context: &LintContext) -> (r: Vec<LintProblem>)
        ensures
            r.deep_view() == spec_check(context.lines.deep_view()),
    {
        let ghost lns = context.lines.deep_view();
        let mut problems: Vec<LintProblem> = Vec::new();
        let mut stack: Vec<Scope> = Vec::new();
        let first_keys: Vec<Vec<char>> = Vec::new();
        stack.push(Scope { indent: 0, keys: first_keys });
        proof {
            assert(stack_view(stack@) =~= seq![(0int, Seq::<Seq<char>>::empty())]) by {
                assert(stack_view(stack@)[0] == scope_view(stack@[0]));
                assert(stack@[0].keys.deep_view() =~= Seq::<Seq<char>>::empty());
            }
        }
        let mut i: usize = 0;
        while i < context.lines.len()
            invariant
                0 <= i <= context.lines@.len(),
                lns == context.lines.deep_view(),
                lns.len() == context.lines@.len(),
                stack@.len() >= 1,
                (stack_view(stack@), problems.deep_view()) == kd_scan(lns, i as int),
            decreases context.lines@.len() - i,
        {
            let ghost old_state = stack_view(stack@);
            let ghost old_problems = problems.deep_view();
            let ghost l = lns[i as int];
            let v = chars_of(context.lines[i].as_str());
            assert(v@ == l);
            let n = v.len();
            let t = trim_chars(&v);
            if t.len() == 0 || t[0] == '#' {
                proof {
                    assert(kd_line(old_state, i + 1, l) == (old_state, Seq::<ProblemView>::empty()));
                    assert(problems.deep_view() =~= old_problems + Seq::<ProblemView>::empty());
                }
            } else {
                let indent = leading_ws_len(&v);
                proof {
                    lemma_leading_ws_props(l);
                    lemma_blank_leading_ws(l);
                }
                while stack.len() > 1 && stack[stack.len() - 1].indent >= indent
                    invariant
                        stack@.len() >= 1,
                        kd_pop(old_state, indent as int) == kd_pop(
                            stack_view(stack@),
                            indent as int,
                        ),
                    decreases stack@.len(),
                {
                    let ghost before = stack@;
                    stack.pop();
                    proof {
                        assert(stack_view(before).drop_last() =~= stack_view(before.drop_last()));
                        assert(stack_view(before).last() == scope_view(before.last()));
                    }
                }
                proof {
                    assert(stack_view(stack@).last() == scope_view(stack@.last()));
                    assert(kd_pop(stack_view(stack@), indent as int) == stack_view(stack@));
                }
                let ghost popped = stack_view(stack@);
                assert(popped == kd_pop(old_state, indent as int));
                if t[0] == '-' {
                    let fresh_keys: Vec<Vec<char>> = Vec::new();
                    stack.push(Scope { indent, keys: fresh_keys });
                    proof {
                        assert(stack_view(stack@) =~= popped.push(
                            (indent as int, Seq::<Seq<char>>::empty()),
                        )) by {
                            assert forall|w: int| 0 <= w < stack@.len() implies stack_view(stack@)[w]
                                == popped.push((indent as int, Seq::<Seq<char>>::empty()))[w] by {
                                assert(stack_view(stack@)[w] == scope_view(stack@[w]));
                                if w < stack@.len() - 1 {
                                    assert(popped[w] == scope_view(stack@[w]));
                                }
                                if w == stack@.len() - 1 {
                                    assert(stack@[w].keys.deep_view()
                                        =~= Seq::<Seq<char>>::empty());
                                }
                            }
                        }
                    }
                    let tail = sub_chars(&t, 1, t.len());
                    let adl = leading_ws_len(&tail);
                    proof {
                        lemma_leading_ws_props(tail@);
                    }
                    let ad = sub_chars(&tail, adl, tail.len());
                    assert(ad@ == trim_start_of(trimmed(l).skip(1)));
                    match find_key_colon(&ad) {
                        None => {},
                        Some(cp) => {
                            proof {
                                lemma_find_sep_in_range(
                                    ad@,
                                    0,
                                    crate::scanner::QuoteState::Outside,
                                );
                            }
                            let kpart = sub_chars(&ad, 0, cp);
                            let kt = trim_chars(&kpart);
                            let key = Self::extract(&kt);
                            if key.len() > 0 {
                                let ghost st1 = stack_view(stack@);
                                let mut top = match stack.pop() {
                                    Some(sc) => sc,
                                    None => {
                                        // the stack holds at least the scope just pushed
                                        proof {
                                            assert(false);
                                        }
                                        Scope { indent: 0, keys: Vec::new() }
                                    },
                                };
                                let ghost top_keys = top.keys.deep_view();
                                top.keys.push(key);
                                proof {
                                    assert(top.keys.deep_view() =~~= top_keys.push(
                                        extract_key(trimmed(ad@.take(cp as int))),
                                    ));
                                }
                                stack.push(top);
                                proof {
                                    assert(stack_view(stack@) =~= push_key(
                                        st1,
                                        extract_key(trimmed(ad@.take(cp as int))),
                                    )) by {
                                        assert forall|w: int|
                                            0 <= w < stack@.len() implies stack_view(stack@)[w]
                                            == push_key(
                                            st1,
                                            extract_key(trimmed(ad@.take(cp as int))),
                                        )[w] by {
                                            assert(stack_view(stack@)[w] == scope_view(stack@[w]));
                                            if w < stack@.len() - 1 {
                                                assert(st1[w] == scope_view(stack@[w]));
                                            }
                                        }
                                    }
                                }
                            }
                            let sub = sub_chars(&ad, cp + 1, ad.len());
                            let ac = trim_chars(&sub);
                            if ac.len() == 0 || ac[0] == '#' {
                                let fresh2: Vec<Vec<char>> = Vec::new();
                                let ghost st2 = stack_view(stack@);
                                let nested_indent = col_after_idx(col_after_idx(indent));
                                stack.push(Scope { indent: nested_indent, keys: fresh2 });
                                proof {
                                    assert(stack_view(stack@) =~= st2.push(
                                        (
                                            col_after(col_after(indent as int)),
                                            Seq::<Seq<char>>::empty(),
                                        ),
                                    )) by {
                                        assert forall|w: int|
                                            0 <= w < stack@.len() implies stack_view(stack@)[w]
                                            == st2.push(
                                            (
                                                col_after(col_after(indent as int)),
                                                Seq::<Seq<char>>::empty(),
                                            ),
                                        )[w] by {
                                            assert(stack_view(stack@)[w] == scope_view(stack@[w]));
                                            if w < stack@.len() - 1 {
                                                assert(st2[w] == scope_view(stack@[w]));
                                            }
                                            if w == stack@.len() - 1 {
                                                assert(stack@[w].keys.deep_view()
                                                    =~= Seq::<Seq<char>>::empty());
                                            }
                                        }
                                    }
                                }
                            }
                        },
                    }
                } else {
                    match find_key_colon(&v) {
                        None => {},
                        Some(cp) => {
                            proof {
                                lemma_find_sep_in_range(l, 0, crate::scanner::QuoteState::Outside);
                            }
                            let kpart = sub_chars(&v, 0, cp);
                            let kt = trim_chars(&kpart);
                            if kt.len() > 0 && (kt[0] == '%' || kt[0] == '!') {
                                // tag or directive: no key here
                            } else {
                                let key = Self::extract(&kt);
                                let mut dup = false;
                                if key.len() > 0 {
                                    let top_idx = stack.len() - 1;
                                    proof {
                                        assert(stack_view(stack@).last() == scope_view(
                                            stack@.last(),
                                        ));
                                    }
                                    if Self::scope_contains(&stack[top_idx].keys, &key) {
                                        dup = true;
                                        let msg = Self::dup_message(&key);
                                        problems.push(
                                            LintProblem::new(i + 1, 1, msg.as_str(),
                                                "key-duplicates", LintLevel::Error),
                                        );
                                    } else {
                                        let ghost st1 = stack_view(stack@);
                                        let mut top = match stack.pop() {
                                            Some(sc) => sc,
                                            None => {
                                                // the outermost scope never closes
                                                proof {
                                                    assert(false);
                                                }
                                                Scope { indent: 0, keys: Vec::new() }
                                            },
                                        };
                                        let ghost top_keys = top.keys.deep_view();
                                        top.keys.push(key);
                                        proof {
                                            assert(top.keys.deep_view() =~~= top_keys.push(
                                                extract_key(trimmed(l.take(cp as int))),
                                            ));
                                        }
                                        stack.push(top);
                                        proof {
                                            assert(stack_view(stack@) =~= push_key(
                                                st1,
                                                extract_key(trimmed(l.take(cp as int))),
                                            )) by {
                                                assert forall|w: int|
                                                    0 <= w < stack@.len() implies stack_view(
                                                    stack@,
                                                )[w] == push_key(
                                                    st1,
                                                    extract_key(trimmed(l.take(cp as int))),
                                                )[w] by {
                                                    assert(stack_view(stack@)[w] == scope_view(
                                                        stack@[w],
                                                    ));
                                                    if w < stack@.len() - 1 {
                                                        assert(st1[w] == scope_view(stack@[w]));
                                                    }
                                                }
                                            }
                                        }
                                    }
                                }
                                let sub = sub_chars(&v, cp + 1, n);
                                let ac = trim_chars(&sub);
                                if ac.len() == 0 || ac[0] == '#' {
                                    let fresh2: Vec<Vec<char>> = Vec::new();
                                    let ghost st2 = stack_view(stack@);
                                    stack.push(Scope { indent, keys: fresh2 });
                                    proof {
                                        assert(stack_view(stack@) =~= st2.push(
                                            (indent as int, Seq::<Seq<char>>::empty()),
                                        )) by {
                                            assert forall|w: int|
                                                0 <= w < stack@.len() implies stack_view(stack@)[w]
                                                == st2.push(
                                                (indent as int, Seq::<Seq<char>>::empty()),
                                            )[w] by {
                                                assert(stack_view(stack@)[w] == scope_view(
                                                    stack@[w],
                                                ));
                                                if w < stack@.len() - 1 {
                                                    assert(st2[w] == scope_view(stack@[w]));
                                                }
                                                if w == stack@.len() - 1 {
                                                    assert(stack@[w].keys.deep_view()
                                                        =~= Seq::<Seq<char>>::empty());
                                                }
                                            }
                                        }
                                    }
                                }
                            }
                        },
                    }
                }
                proof {
                    assert(problems.deep_view() =~= old_problems + kd_line(old_state, i + 1, l).1);
                    assert(stack_view(stack@) == kd_line(old_state, i + 1, l).0);
                }
            }
            i = i + 1;
        }
        // As a cross-check the document is handed to the full parser;
        // what it thinks of the document does not alter the line-based
        // problems above.
        let _ = document_parses(context.content.as_str());
        problems
    }

    fn dup_message(k: &Vec<char>) -> (r: String)
        ensures
            r@ == msg_dup(k@),
    {
        let mut s = String::from_str("found duplicate key \"");
        let m = string_of(k);
        s.append(m.as_str());
        s.append("\"");
        s
    }

    /// The compiled-in level of this rule.
    pub fn default_level(&self) -> (r: RuleLevel)
        ensures
            r == RuleLevel::Error,
    {
        RuleLevel::Error
    }

    /// This rule has no auto-fix.
    pub fn is_fixable(&self) -> (r: bool)
        ensures
            !r,
    {
        false
    }
}

} // verus!
