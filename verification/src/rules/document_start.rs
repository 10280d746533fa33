//! Document start rule: requires or forbids a leading `---` marker.

use vstd::prelude::*;

use crate::problem::{LintLevel, LintProblem, ProblemView};
use crate::rules::{LintContext, RuleLevel};
use crate::text::{trim_chars, trimmed};

verus! {

/// Configuration for the document start requirement.
#[derive(Debug, Clone, Copy, PartialEq, Eq, Structural)]
pub enum DocumentStartPresence {
    /// Require `---` at document start.
    Required,
    /// Forbid `---` at document start.
    Forbidden,
    /// No requirement (disabled).
    Disabled,
}

/// Whether a trimmed first line carries the document start marker:
/// exactly `---`, or `---` followed by a space.
pub open spec fn is_start_marker(t: Seq<char>) -> bool {
    &&& t.len() >= 3
    &&& t[0] == '-'
    &&& t[1] == '-'
    &&& t[2] == '-'
    &&& (t.len() == 3 || t[3] == ' ')
}

/// Whether the document opens with a start marker on its first line.
pub open spec fn has_document_start(lines: Seq<Seq<char>>) -> bool {
    lines.len() > 0 && is_start_marker(trimmed(lines[0]))
}

/// The problems the rule reports, by configured presence.
pub open spec fn spec_check(presence: DocumentStartPresence, lines: Seq<Seq<char>>) -> Seq<
    ProblemView,
> {
    match presence {
        DocumentStartPresence::Disabled => Seq::empty(),
        DocumentStartPresence::Required => {
            if !has_document_start(lines) {
                seq![
                    ProblemView {
                        line: 1,
                        column: 1,
                        message: "missing document start \"---\""@,
                        rule: "document-start"@,
                        level: LintLevel::Error,
                    },
                ]
            } else {
                Seq::empty()
            }
        },
        DocumentStartPresence::Forbidden => {
            if has_document_start(lines) {
                seq![
                    ProblemView {
                        line: 1,
                        column: 1,
                        message: "found forbidden document start \"---\""@,
                        rule: "document-start"@,
                        level: LintLevel::Error,
                    },
                ]
            } else {
                Seq::empty()
            }
        },
    }
}

/// Rule that checks for a `---` marker at document start.
#[derive(Debug)]
pub struct DocumentStartRule {
    /// Whether the marker should be present.
    pub presence: DocumentStartPresence,
}

impl DocumentStartRule {
    /// Create a new rule, disabled by default.
    pub fn new() -> (r: Self)
        ensures
            r.presence == DocumentStartPresence::Disabled,
    {
        DocumentStartRule { presence: DocumentStartPresence::Disabled }
    }

    /// Create a rule that requires the marker.
    pub fn required() -> (r: Self)
        ensures
            r.presence == DocumentStartPresence::Required,
    {
        DocumentStartRule { presence: DocumentStartPresence::Required }
    }

    /// Create a rule that forbids the marker.
    pub fn forbidden() -> (r: Self)
        ensures
            r.presence == DocumentStartPresence::Forbidden,
    {
        DocumentStartRule { presence: DocumentStartPresence::Forbidden }
    }

    /// The stable name of this rule.
    pub fn name(&self) -> (r: &'static str)
        ensures
            r@ == "document-start"@,
    {
        "document-start"
    }

    /// Check the first line for the marker, by configured presence.
    pub fn check(&self, context: &LintContext) -> (r: Vec<LintProblem>)
        ensures
            r.deep_view() == spec_check(self.presence, context.lines.deep_view()),
    {
        let ghost lns = context.lines.deep_view();
        let mut problems: Vec<LintProblem> = Vec::new();
        if matches!(self.presence, DocumentStartPresence::Disabled) {
            assert(problems.deep_view() =~= spec_check(self.presence, lns));
            return problems;
        }
        let has_start: bool = if context.lines.len() == 0 {
            false
        } else {
            let line = crate::text::chars_of(context.lines[0].as_str());
            let t = trim_chars(&line);
            t.len() >= 3 && t[0] == '-' && t[1] == '-' && t[2] == '-' && (t.len() == 3 || t[3]
                == ' ')
        };
        assert(has_start == has_document_start(lns));
        match self.presence {
            DocumentStartPresence::Required => {
                if !has_start {
                    problems.push(
                        LintProblem::new(1, 1, "missing document start \"---\"", "document-start",
                            LintLevel::Error),
                    );
                }
            },
            DocumentStartPresence::Forbidden => {
                if has_start {
                    problems.push(
                        LintProblem::new(1, 1, "found forbidden document start \"---\"",
                            "document-start", LintLevel::Error),
                    );
                }
            },
            DocumentStartPresence::Disabled => {},
        }
        assert(problems.deep_view() =~= spec_check(self.presence, lns));
        problems
    }

    /// The compiled-in level of this rule: disabled.
    pub fn default_level(&self) -> (r: RuleLevel)
        ensures
            r == RuleLevel::Disable,
    {
        RuleLevel::Disable
    }

    /// This rule has no auto-fix.
    pub fn is_fixable(&self) -> (r: bool)
        ensures
            !r,
    {
        false
    }
}

impl Default for DocumentStartRule {
    fn default() -> (r: Self)
        ensures
            r.presence == DocumentStartPresence::Disabled,
    {
        Self::new()
    }
}

} // verus!
