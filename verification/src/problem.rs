//! Problem records and their severity levels.

use vstd::prelude::*;
use vstd::string::*;

verus! {

/// Severity level of a lint problem.
#[derive(Debug, Clone, Copy, PartialEq, Eq, Hash, Structural)]
pub enum LintLevel {
    /// Error level problem.
    Error,
    /// Warning level problem.
    Warning,
}

impl LintLevel {
    /// The lower-case name of the level, as printed in reports.
    pub open spec fn text(self) -> Seq<char> {
        match self {
            LintLevel::Error => "error"@,
            LintLevel::Warning => "warning"@,
        }
    }

    /// The lower-case name of the level.
    pub fn as_str(&self) -> (r: &'static str)
        ensures
            r@ == self.text(),
    {
        match self {
            LintLevel::Error => "error",
            LintLevel::Warning => "warning",
        }
    }
}

/// Rank used to order levels at equal positions: errors sort first.
pub open spec fn level_rank(l: LintLevel) -> int {
    match l {
        LintLevel::Error => 0,
        LintLevel::Warning => 1,
    }
}

/// Mathematical image of a [`LintProblem`].
pub struct ProblemView {
    pub line: int,
    pub column: int,
    pub message: Seq<char>,
    pub rule: Seq<char>,
    pub level: LintLevel,
}

/// The position order on problems: by line, then column, then level
/// (errors before warnings).  Messages and rule names do not order.
pub open spec fn problem_le(a: ProblemView, b: ProblemView) -> bool {
    ||| a.line < b.line
    ||| (a.line == b.line && a.column < b.column)
    ||| (a.line == b.line && a.column == b.column && level_rank(a.level) <= level_rank(b.level))
}

/// The position order is total: of any two problems, one comes first.
pub proof fn lemma_problem_le_total(a: ProblemView, b: ProblemView)
    ensures
        problem_le(a, b) || problem_le(b, a),
{
}

/// The position order is transitive.
pub proof fn lemma_problem_le_trans(a: ProblemView, b: ProblemView, c: ProblemView)
    ensures
        problem_le(a, b) && problem_le(b, c) ==> problem_le(a, c),
{
}

/// A lint problem found in a document.
#[derive(Debug, Clone)]
pub struct LintProblem {
    /// Line number (1-indexed).
    pub line: usize,
    /// Column number (1-indexed).
    pub column: usize,
    /// Description of the problem.
    pub message: String,
    /// Name of the rule that detected this problem.
    pub rule: String,
    /// Severity level.
    pub level: LintLevel,
}

impl View for LintProblem {
    type V = ProblemView;

    open spec fn view(&self) -> ProblemView {
        ProblemView {
            line: self.line as int,
            column: self.column as int,
            message: self.message@,
            rule: self.rule@,
            level: self.level,
        }
    }
}

impl DeepView for LintProblem {
    type V = ProblemView;

    open spec fn deep_view(&self) -> ProblemView {
        self.view()
    }
}

impl LintProblem {
    /// Create a new lint problem.
    pub fn new(line: usize, column: usize, message: &str, rule: &str, level: LintLevel) -> (r:
        LintProblem)
        ensures
            r@ == (ProblemView {
                line: line as int,
                column: column as int,
                message: message@,
                rule: rule@,
                level,
            }),
    {
        LintProblem {
            line,
            column,
            message: String::from_str(message),
            rule: String::from_str(rule),
            level,
        }
    }

    /// A fresh problem record holding the same values.
    pub fn duplicate(&self) -> (r: LintProblem)
        ensures
            r@ == self@,
    {
        LintProblem {
            line: self.line,
            column: self.column,
            message: self.message.clone(),
            rule: self.rule.clone(),
            level: self.level,
        }
    }

    /// Whether `self` comes no later than `other` in position order.
    pub fn position_le(&self, other: &LintProblem) -> (r: bool)
        ensures
            r == problem_le(self@, other@),
    {
        if self.line != other.line {
            self.line < other.line
        } else if self.column != other.column {
            self.column < other.column
        } else {
            match (self.level, other.level) {
                (LintLevel::Warning, LintLevel::Error) => false,
                _ => true,
            }
        }
    }
}

impl PartialEq for LintProblem {
    fn eq(&self, other: &Self) -> (r: bool) {
        self.line == other.line && self.column == other.column && self.message == other.message
            && self.rule == other.rule && self.level == other.level
    }
}

impl Eq for LintProblem {

}

impl vstd::std_specs::cmp::PartialEqSpecImpl for LintProblem {
    open spec fn obeys_eq_spec() -> bool {
        true
    }

    open spec fn eq_spec(&self, other: &LintProblem) -> bool {
        self@ == other@
    }
}

impl PartialOrd for LintProblem {
    fn partial_cmp(&self, other: &Self) -> (r: Option<core::cmp::Ordering>) {
        if self.line < other.line {
            Some(core::cmp::Ordering::Less)
        } else if self.line > other.line {
            Some(core::cmp::Ordering::Greater)
        } else if self.column < other.column {
            Some(core::cmp::Ordering::Less)
        } else if self.column > other.column {
            Some(core::cmp::Ordering::Greater)
        } else {
            match (self.level, other.level) {
                (LintLevel::Error, LintLevel::Warning) => Some(core::cmp::Ordering::Less),
                (LintLevel::Warning, LintLevel::Error) => Some(core::cmp::Ordering::Greater),
                _ => Some(core::cmp::Ordering::Equal),
            }
        }
    }
}

impl vstd::std_specs::cmp::PartialOrdSpecImpl for LintProblem {
    open spec fn obeys_partial_cmp_spec() -> bool {
        true
    }

    open spec fn partial_cmp_spec(&self, other: &LintProblem) -> Option<core::cmp::Ordering> {
        if self@.line < other@.line {
            Some(core::cmp::Ordering::Less)
        } else if self@.line > other@.line {
            Some(core::cmp::Ordering::Greater)
        } else if self@.column < other@.column {
            Some(core::cmp::Ordering::Less)
        } else if self@.column > other@.column {
            Some(core::cmp::Ordering::Greater)
        } else if level_rank(self@.level) < level_rank(other@.level) {
            Some(core::cmp::Ordering::Less)
        } else if level_rank(self@.level) > level_rank(other@.level) {
            Some(core::cmp::Ordering::Greater)
        } else {
            Some(core::cmp::Ordering::Equal)
        }
    }
}

} // verus!
