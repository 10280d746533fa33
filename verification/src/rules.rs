//! Linting rules, the scan context they share, and the rule registry.

use vstd::prelude::*;

use crate::problem::{
    lemma_problem_le_trans, lemma_problem_le_total, problem_le, LintLevel, LintProblem,
    ProblemView,
};
use crate::text::{chars_of, str_eq, string_of, sub_chars};

pub mod colons;
pub mod comments;
pub mod document_start;
pub mod empty_lines;
pub mod hyphens;
pub mod indentation;
pub mod key_duplicates;
pub mod line_length;
pub mod new_line_at_end_of_file;
pub mod trailing_spaces;
pub mod truthy;

verus! {

/// Configured reporting level for a rule.
#[derive(Debug, Clone, Copy, PartialEq, Eq, Structural)]
pub enum RuleLevel {
    /// Rule is disabled.
    Disable,
    /// Rule produces warnings.
    Warning,
    /// Rule produces errors.
    Error,
}

/// Index of the first line break in `s`, or `s.len()` when there is none.
pub open spec fn first_nl(s: Seq<char>) -> int
    decreases s.len(),
{
    if s.len() == 0 {
        0
    } else if s[0] == '\n' {
        0
    } else {
        1 + first_nl(s.skip(1))
    }
}

pub proof fn lemma_first_nl_eq(s: Seq<char>, i: int)
    requires
        0 <= i <= s.len(),
        forall|j: int| 0 <= j < i ==> s[j] != '\n',
        i < s.len() ==> s[i] == '\n',
    ensures
        first_nl(s) == i,
    decreases s.len(),
{
    if i == 0 {
    } else {
        assert forall|j: int| 0 <= j < i - 1 implies s.skip(1)[j] != '\n' by {
            assert(s.skip(1)[j] == s[j + 1]);
        }
        if i - 1 < s.skip(1).len() {
            assert(s.skip(1)[i - 1] == s[i]);
        }
        lemma_first_nl_eq(s.skip(1), i - 1);
    }
}

/// A line piece with a trailing carriage return removed.
pub open spec fn strip_cr(l: Seq<char>) -> Seq<char> {
    if l.len() > 0 && l.last() == '\r' {
        l.drop_last()
    } else {
        l
    }
}

/// The logical lines of a document: pieces between line breaks, without
/// the terminator, a trailing carriage return stripped from each piece.
/// A final piece after the last break is kept only when it is non-empty,
/// so a document ending in a line break yields no extra empty line.
pub open spec fn split_lines(s: Seq<char>) -> Seq<Seq<char>>
    decreases s.len(),
{
    if s.len() == 0 {
        Seq::empty()
    } else {
        let i = first_nl(s);
        if 0 <= i < s.len() {
            seq![strip_cr(s.take(i))] + split_lines(s.skip(i + 1))
        } else {
            seq![strip_cr(s)]
        }
    }
}

/// The lines of `cv` as character vectors.
pub fn split_char_lines(cv: &Vec<char>) -> (r: Vec<Vec<char>>)
    ensures
        r.deep_view() == split_lines(cv@),
{
    let n = cv.len();
    let mut out: Vec<Vec<char>> = Vec::new();
    let mut start: usize = 0;
    let mut i: usize = 0;
    proof {
        assert(cv@.skip(0) =~= cv@);
        assert(out.deep_view() + split_lines(cv@) =~= split_lines(cv@));
    }
    while i < n
        invariant
            0 <= start <= i <= n,
            n == cv@.len(),
            forall|j: int| start <= j < i ==> cv@[j] != '\n',
            out.deep_view() + split_lines(cv@.skip(start as int)) == split_lines(cv@),
        decreases n - i,
    {
        if cv[i] == '\n' {
            let ghost old_out = out.deep_view();
            let mut piece = sub_chars(cv, start, i);
            if piece.len() > 0 && piece[piece.len() - 1] == '\r' {
                piece.pop();
            }
            proof {
                let t = cv@.skip(start as int);
                assert forall|j: int| 0 <= j < i - start implies t[j] != '\n' by {
                    assert(t[j] == cv@[start + j]);
                }
                assert(t[i - start] == cv@[i as int]);
                lemma_first_nl_eq(t, i - start);
                assert(t.take(i - start) =~= cv@.subrange(start as int, i as int));
                assert(t.skip(i - start + 1) =~= cv@.skip(i + 1));
                assert(split_lines(t) == seq![strip_cr(cv@.subrange(start as int, i as int))]
                    + split_lines(cv@.skip(i + 1)));
                assert(piece@ == strip_cr(cv@.subrange(start as int, i as int)));
            }
            out.push(piece);
            proof {
                assert(out.deep_view() =~~= old_out.push(
                    strip_cr(cv@.subrange(start as int, i as int)),
                ));
                assert(old_out.push(strip_cr(cv@.subrange(start as int, i as int))) =~= old_out
                    + seq![strip_cr(cv@.subrange(start as int, i as int))]);
                assert((old_out + seq![strip_cr(cv@.subrange(start as int, i as int))])
                    + split_lines(cv@.skip(i + 1)) =~= old_out + (seq![
                    strip_cr(cv@.subrange(start as int, i as int)),
                ] + split_lines(cv@.skip(i + 1))));
            }
            start = i + 1;
        }
        i = i + 1;
    }
    if start < n {
        let ghost old_out = out.deep_view();
        let mut piece = sub_chars(cv, start, n);
        if piece.len() > 0 && piece[piece.len() - 1] == '\r' {
            piece.pop();
        }
        proof {
            let t = cv@.skip(start as int);
            assert forall|j: int| 0 <= j < t.len() implies t[j] != '\n' by {
                assert(t[j] == cv@[start + j]);
            }
            lemma_first_nl_eq(t, t.len() as int);
            assert(t =~= cv@.subrange(start as int, n as int));
            assert(split_lines(t) == seq![strip_cr(t)]);
            assert(piece@ == strip_cr(t));
        }
        out.push(piece);
        proof {
            let t = cv@.skip(start as int);
            assert(out.deep_view() =~~= old_out.push(strip_cr(t)));
            assert(old_out.push(strip_cr(t)) =~= old_out + seq![strip_cr(t)]);
        }
    } else {
        proof {
            assert(cv@.skip(start as int) =~= Seq::<char>::empty());
            assert(out.deep_view() + split_lines(cv@.skip(start as int)) =~= out.deep_view());
        }
    }
    out
}

/// Context provided to rules during checking.
#[derive(Debug)]
pub struct LintContext {
    /// The full content of the document.
    pub content: String,
    /// The lines of the content, in document order.
    pub lines: Vec<String>,
}

impl LintContext {
    /// The lines are exactly the line split of the content.
    pub open spec fn wf(&self) -> bool {
        self.lines.deep_view() == split_lines(self.content@)
    }

    /// Create a new lint context from content.
    pub fn new(content: String) -> (r: LintContext)
        ensures
            r.content@ == content@,
            r.wf(),
    {
        let cv = chars_of(content.as_str());
        let pieces = split_char_lines(&cv);
        let mut lines: Vec<String> = Vec::new();
        let mut k: usize = 0;
        while k < pieces.len()
            invariant
                0 <= k <= pieces@.len(),
                lines.deep_view() == pieces.deep_view().take(k as int),
            decreases pieces@.len() - k,
        {
            let ghost old_dv = lines.deep_view();
            let piece_str = string_of(&pieces[k]);
            lines.push(piece_str);
            proof {
                assert(lines.deep_view() =~~= old_dv.push(pieces@[k as int].deep_view()));
                assert(old_dv.push(pieces@[k as int].deep_view()) =~~= pieces.deep_view().take(
                    k as int + 1,
                ));
            }
            k = k + 1;
        }
        assert(pieces.deep_view().take(pieces@.len() as int) =~= pieces.deep_view());
        LintContext { content, lines }
    }
}


/// One registered rule: its implementation and its configured level.
#[derive(Debug)]
pub struct RuleEntry {
    /// The rule implementation.
    pub rule: RuleKind,
    /// The configured reporting level.
    pub level: RuleLevel,
}

/// The closed set of rule implementations the registry can hold.
#[derive(Debug)]
pub enum RuleKind {
    /// Trailing whitespace at line ends.
    TrailingSpaces(trailing_spaces::TrailingSpacesRule),
    /// Maximum line length.
    LineLength(line_length::LineLengthRule),
    /// Leading document start marker.
    DocumentStart(document_start::DocumentStartRule),
    /// Spacing around the key/value colon.
    Colons(colons::ColonsRule),
    /// Duplicate keys within one mapping scope.
    KeyDuplicates(key_duplicates::KeyDuplicatesRule),
    /// Indentation consistency.
    Indentation(indentation::IndentationRule),
    /// Final line break.
    NewLineAtEndOfFile(new_line_at_end_of_file::NewLineAtEndOfFileRule),
    /// Blank-line runs.
    EmptyLines(empty_lines::EmptyLinesRule),
    /// Spacing after list-item hyphens.
    Hyphens(hyphens::HyphensRule),
    /// Comment formatting.
    Comments(comments::CommentsRule),
    /// Legacy boolean spellings.
    Truthy(truthy::TruthyRule),
}

/// The stable name of a rule.
pub open spec fn rule_name_of(r: RuleKind) -> Seq<char> {
    match r {
        RuleKind::TrailingSpaces(_) => "trailing-spaces"@,
        RuleKind::LineLength(_) => "line-length"@,
        RuleKind::DocumentStart(_) => "document-start"@,
        RuleKind::Colons(_) => "colons"@,
        RuleKind::KeyDuplicates(_) => "key-duplicates"@,
        RuleKind::Indentation(_) => "indentation"@,
        RuleKind::NewLineAtEndOfFile(_) => "new-line-at-end-of-file"@,
        RuleKind::EmptyLines(_) => "empty-lines"@,
        RuleKind::Hyphens(_) => "hyphens"@,
        RuleKind::Comments(_) => "comments"@,
        RuleKind::Truthy(_) => "truthy"@,
    }
}

/// The compiled-in level of a rule.
pub open spec fn rule_default_level(r: RuleKind) -> RuleLevel {
    match r {
        RuleKind::DocumentStart(_) => RuleLevel::Disable,
        RuleKind::Truthy(_) => RuleLevel::Warning,
        _ => RuleLevel::Error,
    }
}

/// Whether a rule supports auto-fixing.
pub open spec fn rule_fixable(r: RuleKind) -> bool {
    match r {
        RuleKind::TrailingSpaces(_) => true,
        RuleKind::NewLineAtEndOfFile(_) => true,
        RuleKind::EmptyLines(_) => true,
        RuleKind::Comments(_) => true,
        _ => false,
    }
}

/// The problems a rule reports for a document.
pub open spec fn rule_check_spec(r: RuleKind, content: Seq<char>, lines: Seq<Seq<char>>) -> Seq<
    ProblemView,
> {
    match r {
        RuleKind::TrailingSpaces(_) => trailing_spaces::spec_check(lines),
        RuleKind::LineLength(rl) => line_length::spec_check(rl.max as int, lines),
        RuleKind::DocumentStart(rl) => document_start::spec_check(rl.presence, lines),
        RuleKind::Colons(rl) => colons::spec_check(
            rl.max_spaces_before as int,
            rl.max_spaces_after as int,
            lines,
        ),
        RuleKind::KeyDuplicates(_) => key_duplicates::spec_check(lines),
        RuleKind::Indentation(rl) => indentation::spec_check(rl.spaces, lines),
        RuleKind::NewLineAtEndOfFile(_) => new_line_at_end_of_file::spec_check(content, lines),
        RuleKind::EmptyLines(rl) => empty_lines::spec_check(
            rl.max as int,
            rl.max_start as int,
            rl.max_end as int,
            lines,
        ),
        RuleKind::Hyphens(rl) => hyphens::spec_check(rl.max_spaces_after as int, lines),
        RuleKind::Comments(rl) => comments::spec_check(
            rl.require_starting_space,
            rl.ignore_shebangs,
            rl.min_spaces_from_content as int,
            lines,
        ),
        RuleKind::Truthy(rl) => truthy::spec_check(
            rl.allowed_values.deep_view(),
            rl.check_keys,
            lines,
        ),
    }
}

/// What fixing one problem does to the content, for fixable rules.
pub open spec fn rule_fix_spec(r: RuleKind, content: Seq<char>, p: ProblemView) -> Option<
    Seq<char>,
> {
    match r {
        RuleKind::TrailingSpaces(_) => trailing_spaces::spec_fix(content, p),
        RuleKind::NewLineAtEndOfFile(_) => new_line_at_end_of_file::spec_fix(content),
        RuleKind::EmptyLines(rl) => empty_lines::spec_fix(
            content,
            rl.max as int,
            rl.max_start as int,
            rl.max_end as int,
        ),
        RuleKind::Comments(rl) => comments::spec_fix(
            rl.require_starting_space,
            rl.ignore_shebangs,
            rl.min_spaces_from_content as int,
            content,
        ),
        _ => None,
    }
}

impl RuleKind {
    /// The stable name of this rule.
    pub fn name(&self) -> (r: &'static str)
        ensures
            r@ == rule_name_of(*self),
    {
        match self {
            RuleKind::TrailingSpaces(rl) => rl.name(),
            RuleKind::LineLength(rl) => rl.name(),
            RuleKind::DocumentStart(rl) => rl.name(),
            RuleKind::Colons(rl) => rl.name(),
            RuleKind::KeyDuplicates(rl) => rl.name(),
            RuleKind::Indentation(rl) => rl.name(),
            RuleKind::NewLineAtEndOfFile(rl) => rl.name(),
            RuleKind::EmptyLines(rl) => rl.name(),
            RuleKind::Hyphens(rl) => rl.name(),
            RuleKind::Comments(rl) => rl.name(),
            RuleKind::Truthy(rl) => rl.name(),
        }
    }

    /// Check the given context for problems.
    pub fn check(&self, context: &LintContext) -> (r: Vec<LintProblem>)
        ensures
            r.deep_view() == rule_check_spec(*self, context.content@, context.lines.deep_view()),
    {
        match self {
            RuleKind::TrailingSpaces(rl) => rl.check(context),
            RuleKind::LineLength(rl) => rl.check(context),
            RuleKind::DocumentStart(rl) => rl.check(context),
            RuleKind::Colons(rl) => rl.check(context),
            RuleKind::KeyDuplicates(rl) => rl.check(context),
            RuleKind::Indentation(rl) => rl.check(context),
            RuleKind::NewLineAtEndOfFile(rl) => rl.check(context),
            RuleKind::EmptyLines(rl) => rl.check(context),
            RuleKind::Hyphens(rl) => rl.check(context),
            RuleKind::Comments(rl) => rl.check(context),
            RuleKind::Truthy(rl) => rl.check(context),
        }
    }

    /// The compiled-in level of this rule.
    pub fn default_level(&self) -> (r: RuleLevel)
        ensures
            r == rule_default_level(*self),
    {
        match self {
            RuleKind::TrailingSpaces(rl) => rl.default_level(),
            RuleKind::LineLength(rl) => rl.default_level(),
            RuleKind::DocumentStart(rl) => rl.default_level(),
            RuleKind::Colons(rl) => rl.default_level(),
            RuleKind::KeyDuplicates(rl) => rl.default_level(),
            RuleKind::Indentation(rl) => rl.default_level(),
            RuleKind::NewLineAtEndOfFile(rl) => rl.default_level(),
            RuleKind::EmptyLines(rl) => rl.default_level(),
            RuleKind::Hyphens(rl) => rl.default_level(),
            RuleKind::Comments(rl) => rl.default_level(),
            RuleKind::Truthy(rl) => rl.default_level(),
        }
    }

    /// Whether this rule supports auto-fixing.
    pub fn is_fixable(&self) -> (r: bool)
        ensures
            r == rule_fixable(*self),
    {
        match self {
            RuleKind::TrailingSpaces(rl) => rl.is_fixable(),
            RuleKind::NewLineAtEndOfFile(rl) => rl.is_fixable(),
            RuleKind::EmptyLines(rl) => rl.is_fixable(),
            RuleKind::Comments(rl) => rl.is_fixable(),
            _ => false,
        }
    }

    /// Fix the content for a specific problem; `None` when this rule
    /// cannot fix, or has nothing to change.
    pub fn fix(&self, content: &str, problem: &LintProblem) -> (r: Option<String>)
        ensures
            r.deep_view() == rule_fix_spec(*self, content@, problem@),
    {
        match self {
            RuleKind::TrailingSpaces(rl) => {
                if problem.line < 1 {
                    assert(trailing_spaces::spec_fix(content@, problem@) is None);
                    None
                } else {
                    rl.fix(content, problem)
                }
            },
            RuleKind::NewLineAtEndOfFile(rl) => rl.fix(content, problem),
            RuleKind::EmptyLines(rl) => rl.fix(content, problem),
            RuleKind::Comments(rl) => rl.fix(content, problem),
            _ => None,
        }
    }
}

/// The level a problem is reported at, for an enabled rule.
pub open spec fn report_level(level: RuleLevel) -> LintLevel {
    match level {
        RuleLevel::Warning => LintLevel::Warning,
        _ => LintLevel::Error,
    }
}

/// A problem re-levelled to the configured level.
pub open spec fn with_level(p: ProblemView, level: RuleLevel) -> ProblemView {
    ProblemView {
        line: p.line,
        column: p.column,
        message: p.message,
        rule: p.rule,
        level: report_level(level),
    }
}

/// The problems one registered rule contributes: none when disabled,
/// its checks at the configured level otherwise.
pub open spec fn entry_problems(e: RuleEntry, content: Seq<char>, lines: Seq<Seq<char>>) -> Seq<
    ProblemView,
> {
    if e.level == RuleLevel::Disable {
        Seq::empty()
    } else {
        rule_check_spec(e.rule, content, lines).map_values(|p: ProblemView| with_level(p, e.level))
    }
}

/// The problems of the first `n` registered rules, in registration order.
pub open spec fn all_problems_upto(
    es: Seq<RuleEntry>,
    content: Seq<char>,
    lines: Seq<Seq<char>>,
    n: int,
) -> Seq<ProblemView>
    decreases n,
{
    if n <= 0 {
        Seq::empty()
    } else {
        all_problems_upto(es, content, lines, n - 1) + entry_problems(es[n - 1], content, lines)
    }
}

/// Every problem every enabled registered rule reports, before sorting.
pub open spec fn all_problems(es: Seq<RuleEntry>, content: Seq<char>, lines: Seq<Seq<char>>) -> Seq<
    ProblemView,
> {
    all_problems_upto(es, content, lines, es.len() as int)
}

/// Index of the entry holding the rule of that name, or the length.
pub open spec fn find_rule(es: Seq<RuleEntry>, name: Seq<char>) -> int
    decreases es.len(),
{
    if es.len() == 0 {
        0
    } else if rule_name_of(es[0].rule) == name {
        0
    } else {
        1 + find_rule(es.skip(1), name)
    }
}

pub proof fn lemma_find_rule_eq(es: Seq<RuleEntry>, name: Seq<char>, i: int)
    requires
        0 <= i <= es.len(),
        forall|j: int| 0 <= j < i ==> rule_name_of(#[trigger] es[j].rule) != name,
        i < es.len() ==> rule_name_of(es[i].rule) == name,
    ensures
        find_rule(es, name) == i,
    decreases es.len(),
{
    if i == 0 {
    } else {
        assert forall|j: int| 0 <= j < i - 1 implies rule_name_of(#[trigger] es.skip(1)[j].rule)
            != name by {
            assert(es.skip(1)[j] == es[j + 1]);
        }
        if i - 1 < es.skip(1).len() {
            assert(es.skip(1)[i - 1] == es[i]);
        }
        lemma_find_rule_eq(es.skip(1), name, i - 1);
    }
}

/// Inserting a problem anywhere adds it to the multiset of problems.
pub proof fn lemma_to_multiset_insert(s: Seq<ProblemView>, i: int, x: ProblemView)
    requires
        0 <= i <= s.len(),
    ensures
        s.insert(i, x).to_multiset() =~= s.to_multiset().insert(x),
{
    broadcast use vstd::seq_lib::group_to_multiset_ensures;
    broadcast use vstd::multiset::group_multiset_axioms;

    let t = s.insert(i, x);
    assert(t.remove(i) =~= s);
    assert(t[i] == x);
    assert(t.remove(i).to_multiset() =~= t.to_multiset().remove(t[i]));
    assert(t.contains(x));
    assert(t.to_multiset().count(x) > 0);
    assert(t.to_multiset() =~= t.to_multiset().remove(x).insert(x));
}

/// Inserting a problem after all problems it does not precede.
pub open spec fn insert_sorted(s: Seq<ProblemView>, p: ProblemView) -> Seq<ProblemView>
    decreases s.len(),
{
    if s.len() == 0 {
        seq![p]
    } else if problem_le(s[0], p) {
        seq![s[0]] + insert_sorted(s.skip(1), p)
    } else {
        seq![p] + s
    }
}

/// The position-sorted order of a problem list; problems at equal
/// positions keep their original relative order.
pub open spec fn sort_spec(s: Seq<ProblemView>) -> Seq<ProblemView>
    decreases s.len(),
{
    if s.len() == 0 {
        Seq::empty()
    } else {
        insert_sorted(sort_spec(s.drop_last()), s.last())
    }
}

/// Inserting lands exactly at the first position whose problem does not
/// precede the inserted one.
pub proof fn lemma_insert_sorted_at(s: Seq<ProblemView>, p: ProblemView, pos: int)
    requires
        0 <= pos <= s.len(),
        forall|t: int| 0 <= t < pos ==> problem_le(#[trigger] s[t], p),
        pos < s.len() ==> !problem_le(s[pos], p),
    ensures
        insert_sorted(s, p) == s.insert(pos, p),
    decreases pos,
{
    if pos == 0 {
        if s.len() == 0 {
            assert(insert_sorted(s, p) =~= s.insert(0, p));
        } else {
            assert(insert_sorted(s, p) =~= s.insert(0, p));
        }
    } else {
        assert(problem_le(s[0], p));
        assert forall|t: int| 0 <= t < pos - 1 implies problem_le(#[trigger] s.skip(1)[t], p) by {
            assert(s.skip(1)[t] == s[t + 1]);
        }
        if pos - 1 < s.skip(1).len() {
            assert(s.skip(1)[pos - 1] == s[pos]);
        }
        lemma_insert_sorted_at(s.skip(1), p, pos - 1);
        assert(seq![s[0]] + s.skip(1).insert(pos - 1, p) =~= s.insert(pos, p));
    }
}

/// Sort problems by position, stably, keeping the collection.
fn sort_problems(input: Vec<LintProblem>) -> (r: Vec<LintProblem>)
    ensures
        r.deep_view() == sort_spec(input.deep_view()),
        r.deep_view().to_multiset() == input.deep_view().to_multiset(),
        forall|a: int, b: int|
            0 <= a < b < r.deep_view().len() ==> problem_le(
                #[trigger] r.deep_view()[a],
                #[trigger] r.deep_view()[b],
            ),
{
    broadcast use vstd::seq_lib::group_to_multiset_ensures;

    let ghost iv = input.deep_view();
    let mut out: Vec<LintProblem> = Vec::new();
    proof {
        assert(out.deep_view() =~= Seq::<ProblemView>::empty());
        assert(iv.take(0) =~= Seq::<ProblemView>::empty());
        assert(out.deep_view().to_multiset() =~= iv.take(0).to_multiset());
        assert(out.deep_view() =~= sort_spec(iv.take(0)));
    }
    let mut k: usize = 0;
    while k < input.len()
        invariant
            0 <= k <= input@.len(),
            iv == input.deep_view(),
            iv.len() == input@.len(),
            out.deep_view() == sort_spec(iv.take(k as int)),
            out.deep_view().to_multiset() == iv.take(k as int).to_multiset(),
            out.deep_view().len() == k,
            forall|a: int, b: int|
                0 <= a < b < out.deep_view().len() ==> problem_le(
                    #[trigger] out.deep_view()[a],
                    #[trigger] out.deep_view()[b],
                ),
        decreases input@.len() - k,
    {
        broadcast use vstd::seq_lib::group_to_multiset_ensures;

        let ghost old_out = out.deep_view();
        let p = input[k].duplicate();
        assert(p@ == iv[k as int]);
        let mut pos: usize = 0;
        while pos < out.len() && out[pos].position_le(&p)
            invariant
                0 <= pos <= out@.len(),
                old_out == out.deep_view(),
                out.deep_view().len() == out@.len(),
                p@ == iv[k as int],
                forall|t: int| 0 <= t < pos ==> problem_le(#[trigger] out.deep_view()[t], p@),
            decreases out@.len() - pos,
        {
            pos = pos + 1;
        }
        proof {
            if pos < out@.len() {
                lemma_problem_le_total(out.deep_view()[pos as int], p@);
            }
        }
        out.insert(pos, p);
        proof {
            assert(out.deep_view() =~= old_out.insert(pos as int, iv[k as int]));
            lemma_to_multiset_insert(old_out, pos as int, iv[k as int]);
            lemma_insert_sorted_at(old_out, iv[k as int], pos as int);
            assert(iv.take(k + 1).drop_last() =~= iv.take(k as int));
            assert(iv.take(k + 1).last() == iv[k as int]);
            assert(out.deep_view() =~= sort_spec(iv.take(k + 1)));
            assert(iv.take(k + 1) =~= iv.take(k as int).push(iv[k as int]));
            assert(iv.take(k + 1).to_multiset() =~= iv.take(k as int).to_multiset().insert(
                iv[k as int],
            ));
            assert forall|a: int, b: int|
                0 <= a < b < out.deep_view().len() implies problem_le(
                #[trigger] out.deep_view()[a],
                #[trigger] out.deep_view()[b],
            ) by {
                let dv = out.deep_view();
                let pp = iv[k as int];
                if a < pos && b == pos {
                } else if a == pos && b > pos {
                    lemma_problem_le_total(old_out[pos as int], pp);
                    lemma_problem_le_trans(pp, old_out[pos as int], old_out[b - 1]);
                } else if a < pos && b > pos {
                } else {
                }
            }
        }
        k = k + 1;
    }
    assert(iv.take(iv.len() as int) =~= iv);
    out
}

/// Registry of rules with their configured levels; registration order is
/// kept, and each rule name appears at most once.
#[derive(Debug)]
pub struct RuleRegistry {
    entries: Vec<RuleEntry>,
}

/// Rule names are pairwise distinct.
pub open spec fn names_unique(es: Seq<RuleEntry>) -> bool {
    forall|i: int, j: int|
        0 <= i < j < es.len() ==> rule_name_of(#[trigger] es[i].rule) != rule_name_of(
            #[trigger] es[j].rule,
        )
}

/// The shape of the default registry: the eleven built-in rules with
/// their default options, in the standard order, at their default levels.
pub open spec fn is_default_registry(es: Seq<RuleEntry>) -> bool {
    &&& es.len() == 11
    &&& es[0].rule is TrailingSpaces && es[0].level == RuleLevel::Error
    &&& (es[1].rule matches RuleKind::LineLength(r) && r.max == 80) && es[1].level
        == RuleLevel::Error
    &&& (es[2].rule matches RuleKind::DocumentStart(r) && r.presence
        == document_start::DocumentStartPresence::Disabled) && es[2].level == RuleLevel::Disable
    &&& (es[3].rule matches RuleKind::Colons(r) && r.max_spaces_before == 0 && r.max_spaces_after
        == 1) && es[3].level == RuleLevel::Error
    &&& es[4].rule is KeyDuplicates && es[4].level == RuleLevel::Error
    &&& (es[5].rule matches RuleKind::Indentation(r) && r.spaces
        == indentation::IndentSpaces::Consistent) && es[5].level == RuleLevel::Error
    &&& es[6].rule is NewLineAtEndOfFile && es[6].level == RuleLevel::Error
    &&& (es[7].rule matches RuleKind::EmptyLines(r) && r.max == 2 && r.max_start == 0 && r.max_end
        == 0) && es[7].level == RuleLevel::Error
    &&& (es[8].rule matches RuleKind::Hyphens(r) && r.max_spaces_after == 1) && es[8].level
        == RuleLevel::Error
    &&& (es[9].rule matches RuleKind::Comments(r) && r.require_starting_space && r.ignore_shebangs
        && r.min_spaces_from_content == 2) && es[9].level == RuleLevel::Error
    &&& (es[10].rule matches RuleKind::Truthy(r) && r.allowed_values.deep_view() =~= seq![
        "true"@,
        "false"@,
    ] && !r.check_keys) && es[10].level == RuleLevel::Warning
}

/// What registering a rule does: an entry of the same name is replaced
/// in place, otherwise a new entry is appended; either way the level is
/// reset to the rule's default.
pub open spec fn register_spec(es: Seq<RuleEntry>, rule: RuleKind) -> Seq<RuleEntry> {
    let e = RuleEntry { rule, level: rule_default_level(rule) };
    let i = find_rule(es, rule_name_of(rule));
    if i < es.len() {
        es.update(i, e)
    } else {
        es.push(e)
    }
}

/// What setting a level does: the named entry's level changes; an
/// unknown name changes nothing.
pub open spec fn set_level_spec(es: Seq<RuleEntry>, name: Seq<char>, level: RuleLevel) -> Seq<
    RuleEntry,
> {
    let i = find_rule(es, name);
    if i < es.len() {
        es.update(i, RuleEntry { rule: es[i].rule, level })
    } else {
        es
    }
}

impl RuleRegistry {
    /// The registered entries, in registration order.
    pub closed spec fn entries_view(&self) -> Seq<RuleEntry> {
        self.entries@
    }

    /// Create a new empty registry.
    pub fn new() -> (r: Self)
        ensures
            r.entries_view() =~= Seq::<RuleEntry>::empty(),
    {
        RuleRegistry { entries: Vec::new() }
    }

    /// Create a registry with the default rules.
    pub fn with_defaults() -> (r: Self)
        ensures
            is_default_registry(r.entries_view()),
    {
        let mut entries: Vec<RuleEntry> = Vec::new();
        entries.push(
            RuleEntry {
                rule: RuleKind::TrailingSpaces(trailing_spaces::TrailingSpacesRule),
                level: RuleLevel::Error,
            },
        );
        entries.push(
            RuleEntry {
                rule: RuleKind::LineLength(line_length::LineLengthRule::new()),
                level: RuleLevel::Error,
            },
        );
        entries.push(
            RuleEntry {
                rule: RuleKind::DocumentStart(document_start::DocumentStartRule::new()),
                level: RuleLevel::Disable,
            },
        );
        entries.push(
            RuleEntry { rule: RuleKind::Colons(colons::ColonsRule::new()), level: RuleLevel::Error },
        );
        entries.push(
            RuleEntry {
                rule: RuleKind::KeyDuplicates(key_duplicates::KeyDuplicatesRule),
                level: RuleLevel::Error,
            },
        );
        entries.push(
            RuleEntry {
                rule: RuleKind::Indentation(indentation::IndentationRule::new()),
                level: RuleLevel::Error,
            },
        );
        entries.push(
            RuleEntry {
                rule: RuleKind::NewLineAtEndOfFile(new_line_at_end_of_file::NewLineAtEndOfFileRule),
                level: RuleLevel::Error,
            },
        );
        entries.push(
            RuleEntry {
                rule: RuleKind::EmptyLines(empty_lines::EmptyLinesRule::new()),
                level: RuleLevel::Error,
            },
        );
        entries.push(
            RuleEntry {
                rule: RuleKind::Hyphens(hyphens::HyphensRule::new()),
                level: RuleLevel::Error,
            },
        );
        entries.push(
            RuleEntry {
                rule: RuleKind::Comments(comments::CommentsRule::new()),
                level: RuleLevel::Error,
            },
        );
        entries.push(
            RuleEntry {
                rule: RuleKind::Truthy(truthy::TruthyRule::new()),
                level: RuleLevel::Warning,
            },
        );
        RuleRegistry { entries }
    }

    /// Find the entry carrying a rule of this name.
    fn find(&self, name: &str) -> (r: usize)
        ensures
            r == find_rule(self.entries_view(), name@),
            r <= self.entries_view().len(),
    {
        let n = self.entries.len();
        let mut i: usize = 0;
        while i < n
            invariant
                0 <= i <= n,
                n == self.entries@.len(),
                forall|j: int|
                    0 <= j < i ==> rule_name_of(#[trigger] self.entries@[j].rule) != name@,
            decreases n - i,
        {
            if str_eq(self.entries[i].rule.name(), name) {
                proof {
                    lemma_find_rule_eq(self.entries@, name@, i as int);
                }
                return i;
            }
            i = i + 1;
        }
        proof {
            lemma_find_rule_eq(self.entries@, name@, n as int);
        }
        n
    }

    /// Register a rule at its default level, replacing any rule of the
    /// same name in place.
    pub fn register(&mut self, rule: RuleKind)
        ensures
            final(self).entries_view() == register_spec(old(self).entries_view(), rule),
    {
        let name = rule.name();
        let i = self.find(name);
        let level = rule.default_level();
        if i < self.entries.len() {
            self.entries.set(i, RuleEntry { rule, level });
        } else {
            self.entries.push(RuleEntry { rule, level });
        }
    }

    /// Get a registered rule by name.
    pub fn get(&self, name: &str) -> (r: Option<&RuleKind>)
        ensures
            ({
                let i = find_rule(self.entries_view(), name@);
                match r {
                    Some(k) => i < self.entries_view().len() && *k == self.entries_view()[i].rule,
                    None => i >= self.entries_view().len(),
                }
            }),
    {
        let i = self.find(name);
        if i < self.entries.len() {
            Some(&self.entries[i].rule)
        } else {
            None
        }
    }

    /// Get the configured level for a rule.
    pub fn get_level(&self, name: &str) -> (r: Option<RuleLevel>)
        ensures
            ({
                let i = find_rule(self.entries_view(), name@);
                match r {
                    Some(l) => i < self.entries_view().len() && l == self.entries_view()[i].level,
                    None => i >= self.entries_view().len(),
                }
            }),
    {
        let i = self.find(name);
        if i < self.entries.len() {
            Some(self.entries[i].level)
        } else {
            None
        }
    }

    /// Set the level for a registered rule; unknown names are ignored.
    pub fn set_level(&mut self, name: &str, level: RuleLevel)
        ensures
            final(self).entries_view() == set_level_spec(old(self).entries_view(), name@, level),
    {
        let i = self.find(name);
        if i < self.entries.len() {
            let ghost old_entries = self.entries@;
            let rule = match self.entries.remove(i) {
                RuleEntry { rule, level: _ } => rule,
            };
            self.entries.insert(i, RuleEntry { rule, level });
            proof {
                assert(self.entries@ =~= old_entries.update(
                    i as int,
                    RuleEntry { rule: old_entries[i as int].rule, level },
                ));
            }
        }
    }

    /// The names of all registered rules, in registration order.
    pub fn rule_names(&self) -> (r: Vec<&'static str>)
        ensures
            r@.len() == self.entries_view().len(),
            forall|i: int|
                0 <= i < r@.len() ==> #[trigger] r@[i]@ == rule_name_of(
                    self.entries_view()[i].rule,
                ),
    {
        let mut names: Vec<&'static str> = Vec::new();
        let mut i: usize = 0;
        while i < self.entries.len()
            invariant
                0 <= i <= self.entries@.len(),
                names@.len() == i,
                forall|j: int|
                    0 <= j < i ==> #[trigger] names@[j]@ == rule_name_of(self.entries@[j].rule),
            decreases self.entries@.len() - i,
        {
            names.push(self.entries[i].rule.name());
            i = i + 1;
        }
        names
    }

    /// Run all enabled rules on the given context and sort the problems
    /// by position, errors before warnings at equal positions.
    pub fn check_all(&self, context: &LintContext) -> (r: Vec<LintProblem>)
        ensures
            r.deep_view() == sort_spec(
                all_problems(self.entries_view(), context.content@, context.lines.deep_view()),
            ),
            r.deep_view().to_multiset() == all_problems(
                self.entries_view(),
                context.content@,
                context.lines.deep_view(),
            ).to_multiset(),
            forall|a: int, b: int|
                0 <= a < b < r.deep_view().len() ==> problem_le(
                    #[trigger] r.deep_view()[a],
                    #[trigger] r.deep_view()[b],
                ),
    {
        let ghost content = context.content@;
        let ghost lines = context.lines.deep_view();
        let mut problems: Vec<LintProblem> = Vec::new();
        proof {
            assert(problems.deep_view() =~= all_problems_upto(self.entries@, content, lines, 0));
        }
        let mut i: usize = 0;
        while i < self.entries.len()
            invariant
                0 <= i <= self.entries@.len(),
                content == context.content@,
                lines == context.lines.deep_view(),
                problems.deep_view() == all_problems_upto(self.entries@, content, lines, i as int),
            decreases self.entries@.len() - i,
        {
            let ghost old_problems = problems.deep_view();
            let ghost e = self.entries@[i as int];
            let level = self.entries[i].level;
            if !matches!(level, RuleLevel::Disable) {
                let lint_level = match level {
                    RuleLevel::Warning => LintLevel::Warning,
                    _ => LintLevel::Error,
                };
                let rule_problems = self.entries[i].rule.check(context);
                let ghost rp = rule_problems.deep_view();
                let mut j: usize = 0;
                while j < rule_problems.len()
                    invariant
                        0 <= j <= rule_problems@.len(),
                        rp == rule_problems.deep_view(),
                        rp.len() == rule_problems@.len(),
                        lint_level == report_level(e.level),
                        e.level != RuleLevel::Disable,
                        problems.deep_view() == old_problems + rp.map_values(
                            |p: ProblemView| with_level(p, e.level),
                        ).take(j as int),
                    decreases rule_problems@.len() - j,
                {
                    let q = LintProblem {
                        line: rule_problems[j].line,
                        column: rule_problems[j].column,
                        message: rule_problems[j].message.clone(),
                        rule: rule_problems[j].rule.clone(),
                        level: lint_level,
                    };
                    assert(q@ == with_level(rp[j as int], e.level));
                    problems.push(q);
                    proof {
                        assert(rp.map_values(|p: ProblemView| with_level(p, e.level)).take(
                            j + 1,
                        ) =~= rp.map_values(|p: ProblemView| with_level(p, e.level)).take(
                            j as int,
                        ).push(with_level(rp[j as int], e.level)));
                        assert(problems.deep_view() =~= (old_problems + rp.map_values(
                            |p: ProblemView| with_level(p, e.level),
                        ).take(j as int)).push(with_level(rp[j as int], e.level)));
                        assert((old_problems + rp.map_values(
                            |p: ProblemView| with_level(p, e.level),
                        ).take(j as int)).push(with_level(rp[j as int], e.level)) =~= old_problems
                            + rp.map_values(|p: ProblemView| with_level(p, e.level)).take(j + 1));
                    }
                    j = j + 1;
                }
                proof {
                    assert(rp.map_values(|p: ProblemView| with_level(p, e.level)).take(
                        rp.len() as int,
                    ) =~= rp.map_values(|p: ProblemView| with_level(p, e.level)));
                    assert(problems.deep_view() =~= old_problems + entry_problems(
                        e,
                        content,
                        lines,
                    ));
                }
            } else {
                proof {
                    assert(problems.deep_view() =~= old_problems + entry_problems(
                        e,
                        content,
                        lines,
                    ));
                }
            }
            i = i + 1;
        }
        sort_problems(problems)
    }
}

impl Default for RuleRegistry {
    fn default() -> (r: Self)
        ensures
            is_default_registry(r.entries_view()),
    {
        Self::with_defaults()
    }
}


/// Disabling a registered rule removes exactly its problems: every
/// document then reports what the registry without that rule reports,
/// the other rules' output untouched.
pub proof fn lemma_disable_removes_rule(
    es: Seq<RuleEntry>,
    i: int,
    content: Seq<char>,
    lines: Seq<Seq<char>>,
)
    requires
        0 <= i < es.len(),
    ensures
        all_problems(
            es.update(i, RuleEntry { rule: es[i].rule, level: RuleLevel::Disable }),
            content,
            lines,
        ) == all_problems(es.remove(i), content, lines),
{
    let ud = es.update(i, RuleEntry { rule: es[i].rule, level: RuleLevel::Disable });
    let rm = es.remove(i);
    lemma_disable_upto(es, i, content, lines, es.len() as int);
    assert(all_problems_upto(ud, content, lines, ud.len() as int) == all_problems_upto(
        rm,
        content,
        lines,
        rm.len() as int,
    ));
}

/// The prefix form of [`lemma_disable_removes_rule`].
proof fn lemma_disable_upto(
    es: Seq<RuleEntry>,
    i: int,
    content: Seq<char>,
    lines: Seq<Seq<char>>,
    n: int,
)
    requires
        0 <= i < es.len(),
        n <= es.len(),
    ensures
        ({
            let ud = es.update(i, RuleEntry { rule: es[i].rule, level: RuleLevel::Disable });
            let rm = es.remove(i);
            if n <= i {
                all_problems_upto(ud, content, lines, n) == all_problems_upto(rm, content, lines, n)
            } else {
                all_problems_upto(ud, content, lines, n) == all_problems_upto(
                    rm,
                    content,
                    lines,
                    n - 1,
                )
            }
        }),
    decreases n,
{
    let ud = es.update(i, RuleEntry { rule: es[i].rule, level: RuleLevel::Disable });
    let rm = es.remove(i);
    if n <= 0 {
    } else {
        lemma_disable_upto(es, i, content, lines, n - 1);
        if n - 1 < i {
            assert(ud[n - 1] == es[n - 1]);
            assert(rm[n - 1] == es[n - 1]);
        } else if n - 1 == i {
            assert(ud[n - 1].level == RuleLevel::Disable);
            assert(entry_problems(ud[n - 1], content, lines) =~= Seq::<ProblemView>::empty());
            assert(all_problems_upto(ud, content, lines, n) =~= all_problems_upto(
                ud,
                content,
                lines,
                n - 1,
            ));
        } else {
            assert(ud[n - 1] == es[n - 1]);
            assert(rm[n - 2] == es[n - 1]);
        }
    }
}

} // verus!
