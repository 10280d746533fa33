//! Auto-fix driver: the convergence loop over the registry's rules.
//!
//! After every applied fix the whole document is re-scanned, because a
//! fix can shift every later position; only the first applicable fix of
//! each scan is applied.  The cycle is capped at a generous pass limit
//! as a defensive measure against rules that keep re-triggering one
//! another; the limit is far beyond anything a real document reaches.

use vstd::prelude::*;
use vstd::string::*;

use crate::problem::{LintProblem, ProblemView};
use crate::rules::{
    all_problems, find_rule, rule_fix_spec, rule_fixable, sort_spec, split_lines, LintContext,
    RuleEntry, RuleRegistry,
};
use crate::text::str_eq;

verus! {

/// Most passes the convergence loop will attempt before giving up.
pub const FIX_PASS_LIMIT: usize = 4096;

/// The first applicable fix among the sorted problems from index `i` on:
/// the name of its rule and the repaired content.
pub open spec fn first_fix_in(
    es: Seq<RuleEntry>,
    content: Seq<char>,
    probs: Seq<ProblemView>,
    i: int,
) -> Option<(Seq<char>, Seq<char>)>
    decreases probs.len() - i,
{
    if i < 0 || i >= probs.len() {
        None
    } else {
        let p = probs[i];
        let ri = find_rule(es, p.rule);
        if ri < es.len() && rule_fixable(es[ri].rule) && rule_fix_spec(
            es[ri].rule,
            content,
            p,
        ) is Some {
            Some((p.rule, rule_fix_spec(es[ri].rule, content, p)->Some_0))
        } else {
            first_fix_in(es, content, probs, i + 1)
        }
    }
}

/// The first applicable fix of one full scan of the content.
pub open spec fn first_fix(es: Seq<RuleEntry>, content: Seq<char>) -> Option<
    (Seq<char>, Seq<char>),
> {
    let probs = sort_spec(all_problems(es, content, split_lines(content)));
    first_fix_in(es, content, probs, 0)
}

/// The convergence loop: apply first fixes until none applies or the
/// fuel runs out, returning the final content and the names of the
/// rules whose fixes were applied, in order.
pub open spec fn fix_steps(es: Seq<RuleEntry>, content: Seq<char>, fuel: nat) -> (
    Seq<char>,
    Seq<Seq<char>>,
)
    decreases fuel,
{
    if fuel == 0 {
        (content, Seq::empty())
    } else {
        match first_fix(es, content) {
            None => (content, Seq::empty()),
            Some(step) => {
                let rec = fix_steps(es, step.1, (fuel - 1) as nat);
                (rec.0, seq![step.0] + rec.1)
            },
        }
    }
}

/// How often `name` occurs among the applied fixes.
pub open spec fn count_in(names: Seq<Seq<char>>, name: Seq<char>) -> int
    decreases names.len(),
{
    if names.len() == 0 {
        0
    } else {
        (if names[0] == name {
            1int
        } else {
            0int
        }) + count_in(names.skip(1), name)
    }
}

/// The problems of the first `n` that belong to registered rules without
/// an auto-fix.
pub open spec fn keep_unfixable(es: Seq<RuleEntry>, probs: Seq<ProblemView>, n: int) -> Seq<
    ProblemView,
>
    decreases n,
{
    if n <= 0 {
        Seq::empty()
    } else {
        let p = probs[n - 1];
        let ri = find_rule(es, p.rule);
        keep_unfixable(es, probs, n - 1) + (if ri < es.len() && !rule_fixable(es[ri].rule) {
            seq![p]
        } else {
            Seq::<ProblemView>::empty()
        })
    }
}

/// The problems remaining in the final content that no rule can fix.
pub open spec fn spec_unfixable(es: Seq<RuleEntry>, final_content: Seq<char>) -> Seq<ProblemView> {
    let probs = sort_spec(all_problems(es, final_content, split_lines(final_content)));
    keep_unfixable(es, probs, probs.len() as int)
}

/// Per-rule fix counters: an association of rule names with counts.
#[derive(Debug)]
pub struct FixCounts {
    entries: Vec<(String, usize)>,
}

impl FixCounts {
    /// The count recorded for a rule name.
    pub closed spec fn spec_count(&self, name: Seq<char>) -> int {
        count_entries(self.entries@, name)
    }

    /// Counter names are unique and counts positive.
    pub closed spec fn wf(&self) -> bool {
        &&& forall|i: int, j: int|
            0 <= i < j < self.entries@.len() ==> (#[trigger] self.entries@[i].0)@ != (
            #[trigger] self.entries@[j].0)@
        &&& forall|i: int| 0 <= i < self.entries@.len() ==> (#[trigger] self.entries@[i].1) >= 1
    }

    /// A fresh, empty set of counters.
    pub fn new() -> (r: Self)
        ensures
            r.wf(),
            forall|name: Seq<char>| r.spec_count(name) == 0,
    {
        FixCounts { entries: Vec::new() }
    }

    /// Whether any fix was recorded for this rule.
    pub fn contains_key(&self, name: &str) -> (r: bool)
        requires
            self.wf(),
        ensures
            r == (self.spec_count(name@) > 0),
    {
        let n = self.entries.len();
        let mut i: usize = 0;
        proof {
            assert(self.entries@.skip(0) =~= self.entries@);
        }
        while i < n
            invariant
                0 <= i <= n,
                n == self.entries@.len(),
                self.wf(),
                forall|j: int| 0 <= j < i ==> (#[trigger] self.entries@[j].0)@ != name@,
                count_entries(self.entries@, name@) == count_entries(
                    self.entries@.skip(i as int),
                    name@,
                ),
            decreases n - i,
        {
            if str_eq(self.entries[i].0.as_str(), name) {
                proof {
                    assert(self.entries@.skip(i as int)[0] == self.entries@[i as int]);
                    assert(self.entries@[i as int].1 >= 1);
                    assert(count_entries(self.entries@.skip(i as int), name@) == self.entries@[
                        i as int].1 as int);
                }
                return true;
            }
            i = i + 1;
            proof {
                assert(self.entries@.skip(i - 1)[0] == self.entries@[i - 1]);
                assert(self.entries@.skip(i - 1).skip(1) =~= self.entries@.skip(i as int));
            }
        }
        proof {
            assert(self.entries@.skip(n as int).len() == 0);
        }
        false
    }

    /// The count recorded for this rule, if any.
    pub fn get(&self, name: &str) -> (r: Option<usize>)
        requires
            self.wf(),
        ensures
            match r {
                Some(c) => c as int == self.spec_count(name@) && c >= 1,
                None => self.spec_count(name@) == 0,
            },
    {
        let n = self.entries.len();
        let mut i: usize = 0;
        proof {
            assert(self.entries@.skip(0) =~= self.entries@);
        }
        while i < n
            invariant
                0 <= i <= n,
                n == self.entries@.len(),
                self.wf(),
                forall|j: int| 0 <= j < i ==> (#[trigger] self.entries@[j].0)@ != name@,
                count_entries(self.entries@, name@) == count_entries(
                    self.entries@.skip(i as int),
                    name@,
                ),
            decreases n - i,
        {
            if str_eq(self.entries[i].0.as_str(), name) {
                proof {
                    assert(self.entries@.skip(i as int)[0] == self.entries@[i as int]);
                    assert(self.entries@[i as int].1 >= 1);
                    assert(count_entries(self.entries@.skip(i as int), name@) == self.entries@[
                        i as int].1 as int);
                }
                return Some(self.entries[i].1);
            }
            i = i + 1;
            proof {
                assert(self.entries@.skip(i - 1)[0] == self.entries@[i - 1]);
                assert(self.entries@.skip(i - 1).skip(1) =~= self.entries@.skip(i as int));
            }
        }
        proof {
            assert(self.entries@.skip(n as int).len() == 0);
        }
        None
    }

    /// Record one more fix for this rule.
    fn increment(&mut self, name: &str)
        requires
            old(self).wf(),
            old(self).spec_count(name@) < usize::MAX,
        ensures
            final(self).wf(),
            final(self).spec_count(name@) == old(self).spec_count(name@) + 1,
            forall|other: Seq<char>|
                other != name@ ==> final(self).spec_count(other) == old(self).spec_count(other),
    {
        let ghost before = self.entries@;
        let n = self.entries.len();
        let mut i: usize = 0;
        while i < n
            invariant
                0 <= i <= n,
                n == self.entries@.len(),
                before == self.entries@,
                old(self).wf(),
                before == old(self).entries@,
                count_entries(before, name@) < usize::MAX,
                forall|j: int| 0 <= j < i ==> (#[trigger] self.entries@[j].0)@ != name@,
            decreases n - i,
        {
            if str_eq(self.entries[i].0.as_str(), name) {
                let count = self.entries[i].1;
                proof {
                    lemma_count_entries_at(before, name@, i as int);
                    assert(count < usize::MAX);
                }
                let new_name = self.entries[i].0.clone();
                self.entries.set(i, (new_name, count + 1));
                proof {
                    assert(self.entries@[i as int].0@ == before[i as int].0@);
                    assert forall|a: int, b: int|
                        0 <= a < b < self.entries@.len() implies (#[trigger] self.entries@[a].0)@
                        != (#[trigger] self.entries@[b].0)@ by {
                        if a != i {
                            assert(self.entries@[a] == before[a]);
                        }
                        if b != i {
                            assert(self.entries@[b] == before[b]);
                        }
                        assert((old(self).entries@[a].0)@ != (old(self).entries@[b].0)@);
                    }
                    assert forall|a: int|
                        0 <= a < self.entries@.len() implies (#[trigger] self.entries@[a].1)
                        >= 1 by {
                        if a != i {
                            assert(self.entries@[a] == before[a]);
                            assert(old(self).entries@[a].1 >= 1);
                        }
                    }
                    lemma_count_entries_at(self.entries@, name@, i as int);
                    assert forall|other: Seq<char>|
                        other != name@ implies self.spec_count(other) == count_entries(
                        before,
                        other,
                    ) by {
                        lemma_count_entries_update_other(before, self.entries@, i as int, other);
                    }
                }
                return ;
            }
            i = i + 1;
        }
        proof {
            lemma_count_entries_none(before, name@);
        }
        self.entries.push((String::from_str(name), 1));
        proof {
            let e = self.entries@.last();
            assert(self.entries@ == before.push(e));
            assert(e.0@ == name@ && e.1 == 1);
            assert forall|a: int, b: int|
                0 <= a < b < self.entries@.len() implies (#[trigger] self.entries@[a].0)@ != (
                #[trigger] self.entries@[b].0)@ by {
                if b < self.entries@.len() - 1 {
                    assert(self.entries@[a] == before[a]);
                    assert(self.entries@[b] == before[b]);
                    assert((old(self).entries@[a].0)@ != (old(self).entries@[b].0)@);
                } else {
                    assert(self.entries@[a] == before[a]);
                    assert((old(self).entries@[a].0)@ != name@);
                }
            }
            assert forall|a: int|
                0 <= a < self.entries@.len() implies (#[trigger] self.entries@[a].1) >= 1 by {
                if a < self.entries@.len() - 1 {
                    assert(self.entries@[a] == before[a]);
                    assert(old(self).entries@[a].1 >= 1);
                }
            }
            lemma_count_entries_at(self.entries@, name@, n as int);
            assert forall|other: Seq<char>|
                other != name@ implies self.spec_count(other) == count_entries(before, other) by {
                lemma_count_entries_push_other(before, e, other);
            }
        }
    }
}

/// The count recorded for `name` in an association list: the value of
/// its first entry, or zero.
pub open spec fn count_entries(s: Seq<(String, usize)>, name: Seq<char>) -> int
    decreases s.len(),
{
    if s.len() == 0 {
        0
    } else if s[0].0@ == name {
        s[0].1 as int
    } else {
        count_entries(s.skip(1), name)
    }
}

/// The count of a name whose first occurrence is at `i`.
proof fn lemma_count_entries_at(s: Seq<(String, usize)>, name: Seq<char>, i: int)
    requires
        0 <= i < s.len(),
        forall|j: int| 0 <= j < i ==> (#[trigger] s[j].0)@ != name,
        s[i].0@ == name,
    ensures
        count_entries(s, name) == s[i].1 as int,
    decreases i,
{
    if i == 0 {
    } else {
        assert forall|j: int| 0 <= j < i - 1 implies (#[trigger] s.skip(1)[j].0)@ != name by {
            assert(s.skip(1)[j] == s[j + 1]);
        }
        assert(s.skip(1)[i - 1] == s[i]);
        lemma_count_entries_at(s.skip(1), name, i - 1);
    }
}

/// The count of a name that appears nowhere is zero.
proof fn lemma_count_entries_none(s: Seq<(String, usize)>, name: Seq<char>)
    requires
        forall|j: int| 0 <= j < s.len() ==> (#[trigger] s[j].0)@ != name,
    ensures
        count_entries(s, name) == 0,
    decreases s.len(),
{
    if s.len() > 0 {
        assert forall|j: int| 0 <= j < s.skip(1).len() implies (#[trigger] s.skip(1)[j].0)@
            != name by {
            assert(s.skip(1)[j] == s[j + 1]);
        }
        lemma_count_entries_none(s.skip(1), name);
    }
}

/// Updating one entry leaves every other name's count unchanged.
proof fn lemma_count_entries_update_other(
    s: Seq<(String, usize)>,
    s2: Seq<(String, usize)>,
    i: int,
    other: Seq<char>,
)
    requires
        0 <= i < s.len(),
        s2.len() == s.len(),
        forall|j: int| 0 <= j < s.len() && j != i ==> s2[j] == s[j],
        (s2[i].0)@ == (s[i].0)@,
        other != (s[i].0)@,
    ensures
        count_entries(s2, other) == count_entries(s, other),
    decreases s.len(),
{
    if s.len() > 0 {
        if i == 0 {
            assert(s2.skip(1) =~= s.skip(1));
        } else {
            assert(s2[0] == s[0]);
            if (s[0].0)@ == other {
            } else {
                assert forall|j: int|
                    0 <= j < s.skip(1).len() && j != i - 1 implies s2.skip(1)[j] == s.skip(1)[j] by {
                    assert(s.skip(1)[j] == s[j + 1]);
                    assert(s2.skip(1)[j] == s2[j + 1]);
                }
                assert(s.skip(1)[i - 1] == s[i]);
                assert(s2.skip(1)[i - 1] == s2[i]);
                lemma_count_entries_update_other(s.skip(1), s2.skip(1), i - 1, other);
            }
        }
    }
}

/// Appending an entry leaves every other name's count unchanged.
proof fn lemma_count_entries_push_other(
    s: Seq<(String, usize)>,
    e: (String, usize),
    other: Seq<char>,
)
    requires
        other != (e.0)@,
    ensures
        count_entries(s.push(e), other) == count_entries(s, other),
    decreases s.len(),
{
    if s.len() == 0 {
        assert(s.push(e)[0] == e);
        assert(s.push(e).skip(1) =~= Seq::<(String, usize)>::empty());
        assert(count_entries(s.push(e), other) == count_entries(
            Seq::<(String, usize)>::empty(),
            other,
        ));
    } else {
        assert(s.push(e)[0] == s[0]);
        assert(s.push(e).skip(1) =~= s.skip(1).push(e));
        if (s[0].0)@ == other {
            assert(count_entries(s.push(e), other) == s[0].1 as int);
        } else {
            lemma_count_entries_push_other(s.skip(1), e, other);
            assert(count_entries(s.push(e), other) == count_entries(s.skip(1).push(e), other));
        }
    }
}

/// Result of a fix operation for a single document.
#[derive(Debug)]
pub struct FixResult {
    /// Original file path.
    pub path: String,
    /// Number of problems fixed.
    pub fixes_applied: usize,
    /// Breakdown of fixes by rule.
    pub fixes_by_rule: FixCounts,
    /// Problems that could not be fixed.
    pub unfixable_problems: Vec<LintProblem>,
    /// The fixed content, when at least one fix was applied.
    pub fixed_content: Option<String>,
}

impl FixResult {
    /// Create a new result with no fixes.
    pub fn new(path: String) -> (r: FixResult)
        ensures
            r.path@ == path@,
            r.fixes_applied == 0,
            r.fixes_by_rule.wf(),
            forall|name: Seq<char>| r.fixes_by_rule.spec_count(name) == 0,
            r.unfixable_problems@.len() == 0,
            r.fixed_content is None,
    {
        FixResult {
            path,
            fixes_applied: 0,
            fixes_by_rule: FixCounts::new(),
            unfixable_problems: Vec::new(),
            fixed_content: None,
        }
    }

    /// Whether any fixes were applied.
    pub fn has_fixes(&self) -> (r: bool)
        ensures
            r == (self.fixes_applied > 0),
    {
        self.fixes_applied > 0
    }

    /// Whether any problems remain that cannot be fixed.
    pub fn has_unfixable(&self) -> (r: bool)
        ensures
            r == (self.unfixable_problems@.len() > 0),
    {
        self.unfixable_problems.len() > 0
    }
}

/// Fixer that repeatedly applies the registry's fixes to a document.
#[derive(Debug)]
pub struct Fixer<'a> {
    /// The rules and levels to fix against.
    pub registry: &'a RuleRegistry,
}

impl<'a> Fixer<'a> {
    /// Create a new fixer over the given rule registry.
    pub fn new(registry: &'a RuleRegistry) -> (r: Fixer<'a>)
        ensures
            r.registry.entries_view() == registry.entries_view(),
    {
        Fixer { registry }
    }

    /// Scan the content and apply the first applicable fix, if any.
    fn apply_first_fix(&self, content: &String) -> (r: Option<(String, String)>)
        ensures
            match r {
                Some(step) => first_fix(self.registry.entries_view(), content@) == Some(
                    (step.1@, step.0@),
                ),
                None => first_fix(self.registry.entries_view(), content@) is None,
            },
    {
        let ghost es = self.registry.entries_view();
        let context = LintContext::new(content.clone());
        let problems = self.registry.check_all(&context);
        let ghost probs = problems.deep_view();
        assert(probs == sort_spec(all_problems(es, content@, split_lines(content@))));
        let n = problems.len();
        let mut j: usize = 0;
        while j < n
            invariant
                0 <= j <= n,
                es == self.registry.entries_view(),
                n == problems@.len(),
                probs == problems.deep_view(),
                probs.len() == n,
                probs == sort_spec(all_problems(es, content@, split_lines(content@))),
                first_fix_in(es, content@, probs, 0) == first_fix_in(es, content@, probs, j as int),
            decreases n - j,
        {
            match self.registry.get(problems[j].rule.as_str()) {
                None => {},
                Some(rule) => {
                    if rule.is_fixable() {
                        match rule.fix(content.as_str(), &problems[j]) {
                            Some(fixed) => {
                                proof {
                                    let ri = find_rule(es, probs[j as int].rule);
                                    assert(ri < es.len());
                                    assert(rule_fixable(es[ri].rule));
                                    assert(rule_fix_spec(es[ri].rule, content@, probs[j as int])
                                        == Some(fixed@));
                                    assert(first_fix_in(es, content@, probs, j as int) == Some(
                                        (probs[j as int].rule, fixed@),
                                    ));
                                }
                                return Some((fixed, problems[j].rule.clone()));
                            },
                            None => {},
                        }
                    }
                },
            }
            j = j + 1;
        }
        None
    }

    /// Fix all fixable problems in the given content: re-scan after each
    /// applied fix, stop at a fixed point (or at the pass limit), and
    /// collect what remains that no rule can fix.
    pub fn fix(&self, path: &str, content: &str) -> (result: FixResult)
        ensures
            ({
                let es = self.registry.entries_view();
                let steps = fix_steps(es, content@, FIX_PASS_LIMIT as nat);
                &&& result.path@ == path@
                &&& result.fixes_applied as int == steps.1.len()
                &&& result.fixes_by_rule.wf()
                &&& forall|name: Seq<char>|
                    result.fixes_by_rule.spec_count(name) == count_in(steps.1, name)
                &&& (result.fixed_content matches Some(c) ==> c@ == steps.0)
                &&& (result.fixed_content is Some <==> steps.1.len() > 0)
                &&& result.unfixable_problems.deep_view() == spec_unfixable(es, steps.0)
            }),
    {
        let ghost es = self.registry.entries_view();
        let ghost steps = fix_steps(es, content@, FIX_PASS_LIMIT as nat);
        let mut result = FixResult::new(String::from_str(path));
        let mut current = String::from_str(content);
        let mut done = false;
        let mut pass: usize = 0;
        let ghost mut applied: Seq<Seq<char>> = Seq::empty();
        proof {
            assert(steps.1 =~= applied + fix_steps(
                es,
                current@,
                (FIX_PASS_LIMIT - pass) as nat,
            ).1);
        }
        while !done && pass < FIX_PASS_LIMIT
            invariant
                0 <= pass <= FIX_PASS_LIMIT,
                es == self.registry.entries_view(),
                steps == fix_steps(es, content@, FIX_PASS_LIMIT as nat),
                steps.0 == fix_steps(es, current@, (FIX_PASS_LIMIT - pass) as nat).0,
                steps.1 == applied + fix_steps(es, current@, (FIX_PASS_LIMIT - pass) as nat).1,
                applied.len() == pass as int,
                done ==> first_fix(es, current@) is None,
                result.fixes_applied == pass,
                result.fixes_by_rule.wf(),
                forall|name: Seq<char>|
                    result.fixes_by_rule.spec_count(name) == count_in(applied, name),
                result.path@ == path@,
                result.unfixable_problems@.len() == 0,
                result.fixed_content is None,
            decreases FIX_PASS_LIMIT - pass, (if done {
                0int
            } else {
                1int
            }),
        {
            match self.apply_first_fix(&current) {
                None => {
                    done = true;
                },
                Some((fixed, rule_name)) => {
                    proof {
                        assert(count_in(applied, rule_name@) <= applied.len()) by {
                            lemma_count_in_bound(applied, rule_name@);
                        }
                    }
                    current = fixed;
                    result.fixes_applied = result.fixes_applied + 1;
                    result.fixes_by_rule.increment(rule_name.as_str());
                    proof {
                        let ghost old_applied = applied;
                        applied = applied.push(rule_name@);
                        assert forall|name: Seq<char>|
                            result.fixes_by_rule.spec_count(name) == count_in(applied, name) by {
                            lemma_count_in_push(old_applied, rule_name@, name);
                        }
                    }
                    pass = pass + 1;
                },
            }
        }
        proof {
            if !done {
                assert(pass == FIX_PASS_LIMIT);
            }
            assert(steps.0 == current@);
            assert(steps.1 =~= applied);
        }
        let final_context = LintContext::new(current.clone());
        let remaining = self.registry.check_all(&final_context);
        let ghost rem = remaining.deep_view();
        assert(rem == sort_spec(all_problems(es, current@, split_lines(current@))));
        let m = remaining.len();
        let mut k: usize = 0;
        while k < m
            invariant
                0 <= k <= m,
                es == self.registry.entries_view(),
                m == remaining@.len(),
                rem == remaining.deep_view(),
                rem.len() == m,
                result.unfixable_problems.deep_view() == keep_unfixable(es, rem, k as int),
                result.path@ == path@,
                result.fixes_applied as int == applied.len(),
                result.fixes_by_rule.wf(),
                forall|name: Seq<char>|
                    result.fixes_by_rule.spec_count(name) == count_in(applied, name),
                result.fixed_content is None,
            decreases m - k,
        {
            let ghost old_unfixable = result.unfixable_problems.deep_view();
            match self.registry.get(remaining[k].rule.as_str()) {
                None => {},
                Some(rule) => {
                    if !rule.is_fixable() {
                        result.unfixable_problems.push(remaining[k].duplicate());
                    }
                },
            }
            proof {
                assert(result.unfixable_problems.deep_view() =~= old_unfixable + (
                if find_rule(es, rem[k as int].rule) < es.len() && !rule_fixable(
                    es[find_rule(es, rem[k as int].rule)].rule,
                ) {
                    seq![rem[k as int]]
                } else {
                    Seq::<ProblemView>::empty()
                }));
            }
            k = k + 1;
        }
        if result.fixes_applied > 0 {
            result.fixed_content = Some(current);
        }
        result
    }

    /// Report the fixes that applying would make, by applying them to a
    /// working copy.
    pub fn dry_run(&self, path: &str, content: &str) -> (result: FixResult)
        ensures
            ({
                let es = self.registry.entries_view();
                let steps = fix_steps(es, content@, FIX_PASS_LIMIT as nat);
                &&& result.path@ == path@
                &&& result.fixes_applied as int == steps.1.len()
                &&& result.fixes_by_rule.wf()
                &&& forall|name: Seq<char>|
                    result.fixes_by_rule.spec_count(name) == count_in(steps.1, name)
                &&& (result.fixed_content matches Some(c) ==> c@ == steps.0)
                &&& (result.fixed_content is Some <==> steps.1.len() > 0)
                &&& result.unfixable_problems.deep_view() == spec_unfixable(es, steps.0)
            }),
    {
        self.fix(path, content)
    }
}

/// A name occurs at most as often as there are applied fixes.
proof fn lemma_count_in_bound(names: Seq<Seq<char>>, name: Seq<char>)
    ensures
        0 <= count_in(names, name) <= names.len(),
    decreases names.len(),
{
    if names.len() > 0 {
        lemma_count_in_bound(names.skip(1), name);
    }
}

/// Appending an applied fix bumps exactly its own rule's count.
proof fn lemma_count_in_push(names: Seq<Seq<char>>, pushed: Seq<char>, name: Seq<char>)
    ensures
        count_in(names.push(pushed), name) == count_in(names, name) + (if pushed == name {
            1int
        } else {
            0int
        }),
    decreases names.len(),
{
    if names.len() == 0 {
        assert(names.push(pushed)[0] == pushed);
        assert(names.push(pushed).skip(1) =~= Seq::<Seq<char>>::empty());
        assert(count_in(names.push(pushed), name) == (if pushed == name {
            1int
        } else {
            0int
        }) + count_in(Seq::<Seq<char>>::empty(), name));
    } else {
        assert(names.push(pushed)[0] == names[0]);
        assert(names.push(pushed).skip(1) =~= names.skip(1).push(pushed));
        lemma_count_in_push(names.skip(1), pushed, name);
        assert(count_in(names.push(pushed), name) == (if names[0] == name {
            1int
        } else {
            0int
        }) + count_in(names.skip(1).push(pushed), name));
    }
}


/// A document with no applicable fix is a fixed point: fixing it again
/// applies nothing and leaves the content unchanged, whatever the fuel.
pub proof fn lemma_fix_fixed_point(es: Seq<RuleEntry>, content: Seq<char>, fuel: nat)
    requires
        first_fix(es, content) is None,
    ensures
        fix_steps(es, content, fuel) == (content, Seq::<Seq<char>>::empty()),
{
}

/// When the convergence loop stops before its fuel runs out, it stops
/// at a fixed point: no applicable fix remains in its output.
pub proof fn lemma_fix_converges(es: Seq<RuleEntry>, content: Seq<char>, fuel: nat)
    ensures
        fix_steps(es, content, fuel).1.len() < fuel ==> first_fix(
            es,
            fix_steps(es, content, fuel).0,
        ) is None,
    decreases fuel,
{
    if fuel > 0 {
        match first_fix(es, content) {
            None => {},
            Some(step) => {
                lemma_fix_converges(es, step.1, (fuel - 1) as nat);
            },
        }
    }
}

/// Re-running fix on its own converged output reports zero additional
/// fixes and leaves the content unchanged.
pub proof fn lemma_fix_idempotent(es: Seq<RuleEntry>, content: Seq<char>)
    ensures
        ({
            let out = fix_steps(es, content, FIX_PASS_LIMIT as nat);
            out.1.len() < FIX_PASS_LIMIT ==> fix_steps(es, out.0, FIX_PASS_LIMIT as nat) == (
                out.0,
                Seq::<Seq<char>>::empty(),
            )
        }),
{
    let out = fix_steps(es, content, FIX_PASS_LIMIT as nat);
    lemma_fix_converges(es, content, FIX_PASS_LIMIT as nat);
    if out.1.len() < FIX_PASS_LIMIT {
        lemma_fix_fixed_point(es, out.0, FIX_PASS_LIMIT as nat);
    }
}

} // verus!
