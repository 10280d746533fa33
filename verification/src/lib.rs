//! Core engine of a style linter for YAML documents.
//!
//! The linter works on raw text, line by line: it detects formatting
//! violations (trailing whitespace, over-long lines, blank-line runs,
//! duplicate keys, ambiguous boolean literals, spacing around colons and
//! hyphens, comment formatting, missing final newline) and can repair a
//! subset of them.  It deliberately does not build a document tree: the
//! rules are heuristic, line-based checks built on a shared quote-aware
//! scanner.

use vstd::prelude::*;

pub mod config;
pub mod fixer;
pub mod linter;
pub mod output;
pub mod problem;
pub mod rules;
pub mod scanner;
pub mod text;

pub use config::Config;
pub use fixer::{FixResult, Fixer};
pub use linter::Linter;
pub use problem::{LintLevel, LintProblem};
pub use rules::RuleRegistry;

verus! {

/// Errors that can occur while configuring or driving the linter.
///
/// Rule checks themselves never fail; these errors arise from a bad
/// configuration or from the caller's I/O layer (which stores the
/// underlying description as text).
#[derive(Debug, Clone, PartialEq, Eq)]
pub enum LintError {
    /// A document could not be parsed at all.
    ParseError(String),
    /// Reading a file failed; the payload is the I/O error's text.
    IoError(String),
    /// The configuration is invalid.
    ConfigError(String),
    /// A rule name is not known.
    UnknownRule(String),
}

impl LintError {
    /// The detail text carried by this error.
    pub fn detail(&self) -> (r: &String)
        ensures
            r@ == self.detail_text(),
    {
        match self {
            LintError::ParseError(s) => s,
            LintError::IoError(s) => s,
            LintError::ConfigError(s) => s,
            LintError::UnknownRule(s) => s,
        }
    }

    /// The detail text, as a mathematical sequence.
    pub open spec fn detail_text(&self) -> Seq<char> {
        match self {
            LintError::ParseError(s) => s@,
            LintError::IoError(s) => s@,
            LintError::ConfigError(s) => s@,
            LintError::UnknownRule(s) => s@,
        }
    }
}


/// The suffix of `p` after the last occurrence of `c`, or all of `p`
/// when `c` does not occur.
pub open spec fn after_last(p: Seq<char>, c: char) -> Seq<char>
    decreases p.len(),
{
    if p.len() == 0 {
        p
    } else if p.last() == c {
        Seq::empty()
    } else {
        after_last(p.drop_last(), c).push(p.last())
    }
}

proof fn lemma_after_last_at(p: Seq<char>, c: char, k: int)
    requires
        0 <= k < p.len(),
        p[k] == c,
        forall|j: int| k < j < p.len() ==> p[j] != c,
    ensures
        after_last(p, c) == p.skip(k + 1),
    decreases p.len(),
{
    if k == p.len() - 1 {
        assert(after_last(p, c) =~= p.skip(k + 1));
    } else {
        assert(p.drop_last()[k] == p[k]);
        assert forall|j: int| k < j < p.drop_last().len() implies p.drop_last()[j] != c by {
            assert(p.drop_last()[j] == p[j]);
        }
        lemma_after_last_at(p.drop_last(), c, k);
        assert(after_last(p, c) =~= p.drop_last().skip(k + 1).push(p.last()));
        assert(p.drop_last().skip(k + 1).push(p.last()) =~= p.skip(k + 1));
    }
}

proof fn lemma_after_last_none(p: Seq<char>, c: char)
    requires
        forall|j: int| 0 <= j < p.len() ==> p[j] != c,
    ensures
        after_last(p, c) == p,
    decreases p.len(),
{
    if p.len() > 0 {
        assert forall|j: int| 0 <= j < p.drop_last().len() implies p.drop_last()[j] != c by {
            assert(p.drop_last()[j] == p[j]);
        }
        lemma_after_last_none(p.drop_last(), c);
        assert(after_last(p, c) =~= p);
    }
}

/// The suffix of `v` after the last occurrence of `c`.
fn after_last_chars(v: &Vec<char>, c: char) -> (r: Vec<char>)
    ensures
        r@ == after_last(v@, c),
{
    let n = v.len();
    let mut k: usize = n;
    while k > 0 && v[k - 1] != c
        invariant
            0 <= k <= n,
            n == v@.len(),
            forall|j: int| k <= j < n ==> v@[j] != c,
        decreases k,
    {
        k = k - 1;
    }
    proof {
        if k == 0 {
            lemma_after_last_none(v@, c);
            assert(v@.subrange(0, n as int) =~= v@);
        } else {
            lemma_after_last_at(v@, c, k - 1);
        }
    }
    crate::text::sub_chars(v, k, n)
}

/// Whether a path names a document the linter covers: a `yaml` or
/// `yml` extension, or one of the conventional configuration file
/// names.  The path is taken as text; the part after the last path
/// separator is its file name, and a file name whose only dot is a
/// leading one has no extension.
pub open spec fn spec_is_yaml_file(p: Seq<char>) -> bool {
    let name = after_last(p, '/');
    let has_ext = name.contains('.') && !(name.len() > 0 && name[0] == '.' && !name.skip(
        1,
    ).contains('.'));
    if has_ext {
        after_last(name, '.') == "yaml"@ || after_last(name, '.') == "yml"@
    } else {
        name == ".yamllint"@ || name == ".yamllint.yml"@ || name == ".yamllint.yaml"@
    }
}

/// Check whether a path names a document the linter covers.
pub fn is_yaml_file(path: &str) -> (r: bool)
    ensures
        r == spec_is_yaml_file(path@),
{
    let v = crate::text::chars_of(path);
    let name = after_last_chars(&v, '/');
    let has_dot = crate::text::contains_char(&name, '.');
    let hidden_only = name.len() > 0 && name[0] == '.' && {
        let tail = crate::text::sub_chars(&name, 1, name.len());
        assert(tail@ == name@.skip(1));
        !crate::text::contains_char(&tail, '.')
    };
    if has_dot && !hidden_only {
        let ext = after_last_chars(&name, '.');
        let yaml = crate::text::chars_of("yaml");
        let yml = crate::text::chars_of("yml");
        crate::text::chars_eq(&ext, &yaml) || crate::text::chars_eq(&ext, &yml)
    } else {
        let n1 = crate::text::chars_of(".yamllint");
        let n2 = crate::text::chars_of(".yamllint.yml");
        let n3 = crate::text::chars_of(".yamllint.yaml");
        crate::text::chars_eq(&name, &n1) || crate::text::chars_eq(&name, &n2)
            || crate::text::chars_eq(&name, &n3)
    }
}

} // verus!
