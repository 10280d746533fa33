//! Output formatters: render a problem list as text.

use vstd::prelude::*;
use vstd::string::*;

use crate::problem::{LintLevel, LintProblem, ProblemView};
use crate::text::{chars_eq_ignore_case, chars_of, dec_digits, push_char, usize_to_string};

verus! {

/// A run of `k` spaces.
pub open spec fn pad_spaces(k: int) -> Seq<char> {
    Seq::new(
        (if k >= 0 {
            k
        } else {
            0
        }) as nat,
        |i: int| ' ',
    )
}

/// A level name padded to eight columns.
pub open spec fn pad_level(t: Seq<char>) -> Seq<char> {
    t + pad_spaces(8 - t.len())
}

/// The position text `line:column` of a problem.
pub open spec fn pos_text(p: ProblemView) -> Seq<char> {
    dec_digits(p.line) + seq![':'] + dec_digits(p.column)
}

/// The padding between a position and the level column.
pub open spec fn pos_pad(p: ProblemView) -> int {
    if pos_text(p).len() < 10 {
        10 - pos_text(p).len()
    } else {
        1
    }
}

/// One line of the standard report.
pub open spec fn std_line(p: ProblemView) -> Seq<char> {
    "  "@ + pos_text(p) + pad_spaces(pos_pad(p)) + pad_level(p.level.text()) + " "@ + p.message
        + "  ("@ + p.rule + ")"@ + seq!['\n']
}

/// The problem lines of the standard report, in order.
pub open spec fn std_lines_upto(problems: Seq<ProblemView>, n: int) -> Seq<char>
    decreases n,
{
    if n <= 0 {
        Seq::empty()
    } else {
        std_lines_upto(problems, n - 1) + std_line(problems[n - 1])
    }
}

/// The standard report: the path, then one line per problem; nothing at
/// all when there are no problems.
pub open spec fn std_output(problems: Seq<ProblemView>, path: Seq<char>) -> Seq<char> {
    if problems.len() == 0 {
        Seq::empty()
    } else {
        path + seq!['\n'] + std_lines_upto(problems, problems.len() as int)
    }
}

/// One line of the parsable report.
pub open spec fn parsable_line(p: ProblemView, path: Seq<char>) -> Seq<char> {
    path + seq![':'] + dec_digits(p.line) + seq![':'] + dec_digits(p.column) + ": ["@
        + p.level.text() + "] "@ + p.message + " ("@ + p.rule + ")"@ + seq!['\n']
}

/// The parsable report: one line per problem.
pub open spec fn parsable_output(problems: Seq<ProblemView>, path: Seq<char>, n: int) -> Seq<char>
    decreases n,
{
    if n <= 0 {
        Seq::empty()
    } else {
        parsable_output(problems, path, n - 1) + parsable_line(problems[n - 1], path)
    }
}

/// One line of the colored report, around already-styled fragments.
pub open spec fn colored_line(p: ProblemView, styled_level: Seq<char>, styled_rule: Seq<char>) -> Seq<
    char,
> {
    "  "@ + pos_text(p) + pad_spaces(pos_pad(p)) + styled_level + " "@ + p.message + "  "@
        + styled_rule + seq!['\n']
}

/// The colored report around already-styled fragments.
pub open spec fn colored_output(
    problems: Seq<ProblemView>,
    styled_path: Seq<char>,
    styled_levels: Seq<Seq<char>>,
    styled_rules: Seq<Seq<char>>,
    n: int,
) -> Seq<char>
    decreases n,
{
    if n <= 0 {
        styled_path + seq!['\n']
    } else {
        colored_output(problems, styled_path, styled_levels, styled_rules, n - 1) + colored_line(
            problems[n - 1],
            styled_levels[n - 1],
            styled_rules[n - 1],
        )
    }
}

/// Renders `line:column` for a problem.
fn position_string(p: &LintProblem) -> (r: String)
    ensures
        r@ == pos_text(p@),
{
    let mut s = usize_to_string(p.line);
    push_char(&mut s, ':');
    let c = usize_to_string(p.column);
    s.append(c.as_str());
    s
}

/// Appends `k` spaces.
fn append_spaces(s: &mut String, k: usize)
    ensures
        final(s)@ == old(s)@ + pad_spaces(k as int),
{
    let ghost base = s@;
    let mut t: usize = 0;
    proof {
        assert(base + pad_spaces(0) =~= base);
    }
    while t < k
        invariant
            0 <= t <= k,
            s@ == base + pad_spaces(t as int),
        decreases k - t,
    {
        push_char(s, ' ');
        t = t + 1;
        assert(s@ =~= base + pad_spaces(t as int));
    }
}

/// The level name padded to eight columns.
fn padded_level(level: &LintLevel) -> (r: String)
    ensures
        r@ == pad_level(level.text()),
{
    let mut s = String::from_str(level.as_str());
    let n = s.as_str().unicode_len();
    if n < 8 {
        append_spaces(&mut s, 8 - n);
    } else {
        assert(s@ + pad_spaces(8 - level.text().len()) =~= s@);
    }
    s
}

/// Standard human-readable output formatter.
#[derive(Debug)]
pub struct StandardFormatter;

impl StandardFormatter {
    /// Render the problems of one file: the path, then one aligned line
    /// per problem; an empty report when there are no problems.
    #[verifier::rlimit(60)]
    pub fn format_problems(&self, problems: &Vec<LintProblem>, file_path: &str) -> (r: String)
        ensures
            r@ == std_output(problems.deep_view(), file_path@),
    {
        let ghost pv = problems.deep_view();
        let mut output = String::new();
        if problems.len() == 0 {
            assert(output@ =~= std_output(pv, file_path@));
            return output;
        }
        output.append(file_path);
        push_char(&mut output, '\n');
        let ghost head = output@;
        assert(head + std_lines_upto(pv, 0) =~= head);
        let mut i: usize = 0;
        while i < problems.len()
            invariant
                0 <= i <= problems@.len(),
                pv == problems.deep_view(),
                pv.len() == problems@.len(),
                head == file_path@ + seq!['\n'],
                output@ == head + std_lines_upto(pv, i as int),
            decreases problems@.len() - i,
        {
            let p = &problems[i];
            output.append("  ");
            let pos = position_string(p);
            output.append(pos.as_str());
            let pos_len = pos.as_str().unicode_len();
            let padding: usize = if pos_len < 10 {
                10 - pos_len
            } else {
                1
            };
            append_spaces(&mut output, padding);
            let lvl = padded_level(&p.level);
            output.append(lvl.as_str());
            output.append(" ");
            output.append(p.message.as_str());
            output.append("  (");
            output.append(p.rule.as_str());
            output.append(")");
            push_char(&mut output, '\n');
            proof {
                assert(output@ =~= head + std_lines_upto(pv, i + 1));
            }
            i = i + 1;
        }
        output
    }
}

/// Parsable output formatter (`file:line:col: [level] message (rule)`),
/// suited to editors and automation.
#[derive(Debug)]
pub struct ParsableFormatter;

impl ParsableFormatter {
    /// Render the problems of one file, one self-contained line each.
    #[verifier::rlimit(60)]
    pub fn format_problems(&self, problems: &Vec<LintProblem>, file_path: &str) -> (r: String)
        ensures
            r@ == parsable_output(problems.deep_view(), file_path@, problems.deep_view().len() as int),
    {
        let ghost pv = problems.deep_view();
        let mut output = String::new();
        proof {
            assert(output@ =~= parsable_output(pv, file_path@, 0));
        }
        let mut i: usize = 0;
        while i < problems.len()
            invariant
                0 <= i <= problems@.len(),
                pv == problems.deep_view(),
                pv.len() == problems@.len(),
                output@ == parsable_output(pv, file_path@, i as int),
            decreases problems@.len() - i,
        {
            let p = &problems[i];
            output.append(file_path);
            push_char(&mut output, ':');
            let a = usize_to_string(p.line);
            output.append(a.as_str());
            push_char(&mut output, ':');
            let b = usize_to_string(p.column);
            output.append(b.as_str());
            output.append(": [");
            output.append(p.level.as_str());
            output.append("] ");
            output.append(p.message.as_str());
            output.append(" (");
            output.append(p.rule.as_str());
            output.append(")");
            push_char(&mut output, '\n');
            proof {
                assert(output@ =~= parsable_output(pv, file_path@, i + 1));
            }
            i = i + 1;
        }
        output
    }
}

/// Relies on `colored::Colorize::bold` and the `Display` of the colored
/// string: renders the text in bold when the process has colors enabled
/// and unchanged otherwise; which of the two happens depends on the
/// terminal, so nothing is promised of the result.
#[verifier::external_body]
fn style_bold(s: &str) -> String {
    colored::Colorize::bold(s).to_string()
}

/// Relies on `colored::Colorize::red`, as [`style_bold`] above.
#[verifier::external_body]
fn style_red(s: &str) -> String {
    colored::Colorize::red(s).to_string()
}

/// Relies on `colored::Colorize::yellow`, as [`style_bold`] above.
#[verifier::external_body]
fn style_yellow(s: &str) -> String {
    colored::Colorize::yellow(s).to_string()
}

/// Relies on `colored::Colorize::dimmed`, as [`style_bold`] above.
#[verifier::external_body]
fn style_dimmed(s: &str) -> String {
    colored::Colorize::dimmed(s).to_string()
}

/// Colored output formatter using terminal colors.
#[derive(Debug)]
pub struct ColoredFormatter;

impl ColoredFormatter {
    /// Render the problems of one file as the standard layout around
    /// styled fragments.  The styling depends on the terminal, so the
    /// report is pinned only up to the styled path, level and rule
    /// texts; without problems the report is empty.
    #[verifier::rlimit(60)]
    pub fn format_problems(&self, problems: &Vec<LintProblem>, file_path: &str) -> (r: String)
        ensures
            problems.deep_view().len() == 0 ==> r@ =~= Seq::<char>::empty(),
            problems.deep_view().len() > 0 ==> exists|
                sp: Seq<char>,
                sl: Seq<Seq<char>>,
                sr: Seq<Seq<char>>,
            |
                sl.len() == problems.deep_view().len() && sr.len() == problems.deep_view().len()
                    && r@ == colored_output(
                    problems.deep_view(),
                    sp,
                    sl,
                    sr,
                    problems.deep_view().len() as int,
                ),
    {
        let ghost pv = problems.deep_view();
        let mut output = String::new();
        if problems.len() == 0 {
            return output;
        }
        let styled_path = style_bold(file_path);
        output.append(styled_path.as_str());
        push_char(&mut output, '\n');
        let ghost sp = styled_path@;
        let ghost mut sl: Seq<Seq<char>> = Seq::empty();
        let ghost mut sr: Seq<Seq<char>> = Seq::empty();
        let mut i: usize = 0;
        while i < problems.len()
            invariant
                0 <= i <= problems@.len(),
                pv == problems.deep_view(),
                pv.len() == problems@.len(),
                sl.len() == i as int,
                sr.len() == i as int,
                output@ == colored_output(pv, sp, sl, sr, i as int),
            decreases problems@.len() - i,
        {
            let p = &problems[i];
            output.append("  ");
            let pos = position_string(p);
            output.append(pos.as_str());
            let pos_len = pos.as_str().unicode_len();
            let padding: usize = if pos_len < 10 {
                10 - pos_len
            } else {
                1
            };
            append_spaces(&mut output, padding);
            let padded = padded_level(&p.level);
            let styled_level = match p.level {
                LintLevel::Error => style_red(padded.as_str()),
                LintLevel::Warning => style_yellow(padded.as_str()),
            };
            output.append(styled_level.as_str());
            output.append(" ");
            output.append(p.message.as_str());
            output.append("  ");
            let mut rule_text = String::from_str("(");
            rule_text.append(p.rule.as_str());
            rule_text.append(")");
            let styled_rule = style_dimmed(rule_text.as_str());
            output.append(styled_rule.as_str());
            push_char(&mut output, '\n');
            proof {
                let old_sl = sl;
                let old_sr = sr;
                sl = sl.push(styled_level@);
                sr = sr.push(styled_rule@);
                lemma_colored_prefix(pv, sp, old_sl, old_sr, sl, sr, i as int);
                assert(output@ =~= colored_output(pv, sp, sl, sr, i + 1));
            }
            i = i + 1;
        }
        output
    }
}

/// A colored report only reads the styled fragments of the lines it
/// covers, so extending the fragment lists does not change it.
proof fn lemma_colored_prefix(
    problems: Seq<ProblemView>,
    sp: Seq<char>,
    sl1: Seq<Seq<char>>,
    sr1: Seq<Seq<char>>,
    sl2: Seq<Seq<char>>,
    sr2: Seq<Seq<char>>,
    n: int,
)
    requires
        n <= sl1.len(),
        n <= sr1.len(),
        sl1.len() <= sl2.len(),
        sr1.len() <= sr2.len(),
        forall|w: int| 0 <= w < sl1.len() ==> sl2[w] == sl1[w],
        forall|w: int| 0 <= w < sr1.len() ==> sr2[w] == sr1[w],
    ensures
        colored_output(problems, sp, sl2, sr2, n) == colored_output(problems, sp, sl1, sr1, n),
    decreases n,
{
    if n > 0 {
        lemma_colored_prefix(problems, sp, sl1, sr1, sl2, sr2, n - 1);
    }
}

/// Output format selection.
#[derive(Debug, Clone, Copy, PartialEq, Eq, Structural)]
pub enum OutputFormat {
    /// Standard human-readable format.
    Standard,
    /// Colored terminal output.
    Colored,
    /// Machine-parsable format.
    Parsable,
}

impl OutputFormat {
    /// Render the problems of one file in this format.
    pub fn format_problems(&self, problems: &Vec<LintProblem>, file_path: &str) -> (r: String)
        ensures
            *self is Standard ==> r@ == std_output(problems.deep_view(), file_path@),
            *self is Parsable ==> r@ == parsable_output(
                problems.deep_view(),
                file_path@,
                problems.deep_view().len() as int,
            ),
    {
        match self {
            OutputFormat::Standard => StandardFormatter.format_problems(problems, file_path),
            OutputFormat::Colored => ColoredFormatter.format_problems(problems, file_path),
            OutputFormat::Parsable => ParsableFormatter.format_problems(problems, file_path),
        }
    }
}

impl core::str::FromStr for OutputFormat {
    type Err = String;

    fn from_str(s: &str) -> Result<OutputFormat, String> {
        let v = chars_of(s);
        let standard = chars_of("standard");
        let colored_name = chars_of("colored");
        let parsable = chars_of("parsable");
        if chars_eq_ignore_case(&v, &standard) {
            Ok(OutputFormat::Standard)
        } else if chars_eq_ignore_case(&v, &colored_name) {
            Ok(OutputFormat::Colored)
        } else if chars_eq_ignore_case(&v, &parsable) {
            Ok(OutputFormat::Parsable)
        } else {
            let mut m = <String as vstd::string::StringExecFns>::from_str("Unknown output format: ");
            m.append(s);
            Err(m)
        }
    }
}

} // verus!
