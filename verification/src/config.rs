//! Configuration: rule levels, per-rule options, presets, and the
//! construction of a rule registry from a configuration.
//!
//! The configuration document itself is parsed outside of this crate;
//! what arrives here is a plain description — [`RawConfig`] — holding
//! the preset name, the per-rule values and the ignore patterns as
//! ordinary strings and scalars.  Everything from there on (levels,
//! option validation, presets, registry construction) happens here.

use vstd::prelude::*;
use vstd::string::*;

use crate::rules::{
    colons, comments, document_start, empty_lines, hyphens, indentation, is_default_registry,
    key_duplicates, line_length, new_line_at_end_of_file, rule_name_of, trailing_spaces, truthy,
    RuleEntry, RuleKind, RuleLevel, RuleRegistry, split_lines,
};
use crate::rules::split_char_lines;
use crate::text::{chars_of, str_eq, string_of};
use crate::LintError;

verus! {

/// Indentation configuration.
#[derive(Debug, Clone, Copy, PartialEq, Eq, Structural)]
pub enum IndentConfig {
    /// Fixed number of spaces.
    Fixed(usize),
    /// Detect the unit from the document.
    Consistent,
}

/// Document start configuration.
#[derive(Debug, Clone, Copy, PartialEq, Eq, Structural)]
pub enum DocumentStartConfig {
    /// Require the marker at document start.
    Required,
    /// Forbid the marker at document start.
    Forbidden,
    /// No requirement.
    Disabled,
}

/// Rule-specific options.
#[derive(Debug, Clone)]
pub enum RuleOptions {
    /// Options of the line length rule.
    LineLength {
        /// Maximum allowed line length.
        max: usize,
    },
    /// Options of the indentation rule.
    Indentation {
        /// The indentation unit.
        spaces: IndentConfig,
    },
    /// Options of the colons rule.
    Colons {
        /// Maximum spaces before the colon.
        max_spaces_before: usize,
        /// Maximum spaces after the colon.
        max_spaces_after: usize,
    },
    /// Options of the empty lines rule.
    EmptyLines {
        /// Maximum consecutive blank lines.
        max: usize,
        /// Maximum blank lines at the start of the file.
        max_start: usize,
        /// Maximum blank lines at the end of the file.
        max_end: usize,
    },
    /// Options of the hyphens rule.
    Hyphens {
        /// Maximum spaces after a hyphen.
        max_spaces_after: usize,
    },
    /// Options of the comments rule.
    Comments {
        /// Require a space after the comment marker.
        require_starting_space: bool,
        /// Ignore shebang lines.
        ignore_shebangs: bool,
        /// Minimum spaces between content and an inline comment.
        min_spaces_from_content: usize,
    },
    /// Options of the truthy rule.
    Truthy {
        /// Allowed boolean spellings.
        allowed_values: Vec<String>,
        /// Also check mapping keys.
        check_keys: bool,
    },
    /// Options of the document start rule.
    DocumentStart {
        /// Whether the marker must be present.
        present: DocumentStartConfig,
    },
}

/// Whether two option records carry the same configuration.  Lists are
/// compared by their contents.
pub open spec fn options_matches(a: RuleOptions, b: RuleOptions) -> bool {
    match (a, b) {
        (
            RuleOptions::Truthy { allowed_values: va, check_keys: ka },
            RuleOptions::Truthy { allowed_values: vb, check_keys: kb },
        ) => va.deep_view() == vb.deep_view() && ka == kb,
        _ => a == b,
    }
}

/// Configuration for a single rule.
#[derive(Debug, Clone)]
pub enum RuleConfig {
    /// Only a level.
    Level(RuleLevel),
    /// A level together with options.
    Detailed {
        /// The configured level.
        level: RuleLevel,
        /// The rule's options.
        options: RuleOptions,
    },
}

/// The level a rule configuration carries.
pub open spec fn config_level(rc: RuleConfig) -> RuleLevel {
    match rc {
        RuleConfig::Level(level) => level,
        RuleConfig::Detailed { level, options: _ } => level,
    }
}

/// Whether two rule configurations agree, lists compared by contents.
pub open spec fn rule_config_matches(a: RuleConfig, b: RuleConfig) -> bool {
    match (a, b) {
        (RuleConfig::Level(la), RuleConfig::Level(lb)) => la == lb,
        (
            RuleConfig::Detailed { level: la, options: oa },
            RuleConfig::Detailed { level: lb, options: ob },
        ) => la == lb && options_matches(oa, ob),
        _ => false,
    }
}

impl RuleConfig {
    /// Get the rule level.
    pub fn level(&self) -> (r: RuleLevel)
        ensures
            r == config_level(*self),
    {
        match self {
            RuleConfig::Level(level) => *level,
            RuleConfig::Detailed { level, options: _ } => *level,
        }
    }

    /// Get the rule options if available.
    pub fn options(&self) -> (r: Option<&RuleOptions>)
        ensures
            match r {
                Some(o) => *self matches RuleConfig::Detailed { level: _, options } && *o
                    == options,
                None => *self is Level,
            },
    {
        match self {
            RuleConfig::Level(_) => None,
            RuleConfig::Detailed { level: _, options } => Some(options),
        }
    }
}

/// A scalar value of a configuration document, already classified.
#[derive(Debug, Clone)]
pub enum RawScalar {
    /// A non-negative integer.
    Nat(u64),
    /// A number that is not a non-negative integer.
    NumOther,
    /// A boolean.
    Bool(bool),
    /// A string.
    Str(String),
    /// A sequence; only its string elements are kept.
    List(Vec<String>),
    /// Anything else.
    Other,
}

/// The value configured for one rule in a configuration document.
#[derive(Debug, Clone)]
pub enum RawRuleValue {
    /// A bare level string.
    Level(String),
    /// A mapping of option keys to scalars.
    Options(Vec<(String, RawScalar)>),
    /// Anything else.
    Other,
}

/// A configuration document, reduced to plain values.
#[derive(Debug, Clone)]
pub struct RawConfig {
    /// The preset named under `extends`, when it is a string.
    pub extends: Option<String>,
    /// The rule entries, in document order; a `None` key stands for a
    /// key that is not a string.
    pub rules: Option<Vec<(Option<String>, RawRuleValue)>>,
    /// The text under `ignore`, when it is a string.
    pub ignore: Option<String>,
}

/// The value stored under a key in an option mapping.
pub open spec fn raw_get(map: Seq<(String, RawScalar)>, key: Seq<char>) -> Option<RawScalar>
    decreases map.len(),
{
    if map.len() == 0 {
        None
    } else if map[0].0@ == key {
        Some(map[0].1)
    } else {
        raw_get(map.skip(1), key)
    }
}

/// A non-negative integer under the key, or the default.
pub open spec fn raw_nat_or(map: Seq<(String, RawScalar)>, key: Seq<char>, default: int) -> int {
    match raw_get(map, key) {
        Some(RawScalar::Nat(n)) => (n as usize) as int,
        _ => default,
    }
}

/// A boolean under the key, or the default.
pub open spec fn raw_bool_or(map: Seq<(String, RawScalar)>, key: Seq<char>, default: bool) -> bool {
    match raw_get(map, key) {
        Some(RawScalar::Bool(b)) => b,
        _ => default,
    }
}

/// The views of the configured allowed truthy spellings, or the default
/// pair when the document configures none.
pub open spec fn truthy_values_view(map: Seq<(String, RawScalar)>) -> Seq<Seq<char>> {
    match raw_get(map, "allowed-values"@) {
        Some(RawScalar::List(vs)) => vs.deep_view(),
        _ => seq!["true"@, "false"@],
    }
}

/// The error text for invalid line length options.
pub open spec fn line_length_err(map: Seq<(String, RawScalar)>) -> Option<Seq<char>> {
    if raw_nat_or(map, "max"@, 80) == 0 {
        Some("line-length max must be greater than 0"@)
    } else {
        None
    }
}

/// The error text for invalid indentation options.
pub open spec fn indentation_err(map: Seq<(String, RawScalar)>) -> Option<Seq<char>> {
    match raw_get(map, "spaces"@) {
        Some(RawScalar::Nat(n)) => {
            if n == 0 || n > 16 {
                Some("indentation spaces must be between 1 and 16"@)
            } else {
                None
            }
        },
        Some(RawScalar::NumOther) => Some("indentation spaces must be a positive integer"@),
        Some(RawScalar::Str(s)) => {
            if s@ == "consistent"@ {
                None
            } else {
                Some("indentation spaces must be a number or 'consistent'"@)
            }
        },
        None => None,
        _ => Some("indentation spaces must be a number or 'consistent'"@),
    }
}

/// The error text for invalid truthy options.
pub open spec fn truthy_err(map: Seq<(String, RawScalar)>) -> Option<Seq<char>> {
    match raw_get(map, "allowed-values"@) {
        Some(RawScalar::List(vs)) => {
            if vs@.len() == 0 {
                Some("truthy allowed-values cannot be empty"@)
            } else {
                None
            }
        },
        _ => None,
    }
}

/// The error text for invalid document start options.
pub open spec fn document_start_err(map: Seq<(String, RawScalar)>) -> Option<Seq<char>> {
    match raw_get(map, "present"@) {
        Some(RawScalar::Bool(_)) => None,
        None => None,
        _ => Some("document-start 'present' must be a boolean (true or false)"@),
    }
}

/// The text of the configuration error that parsing the options of the
/// named rule raises, or `None` when the options are valid.
pub open spec fn parse_options_err(name: Seq<char>, map: Seq<(String, RawScalar)>) -> Option<
    Seq<char>,
> {
    if name == "line-length"@ {
        line_length_err(map)
    } else if name == "indentation"@ {
        indentation_err(map)
    } else if name == "colons"@ || name == "empty-lines"@ || name == "hyphens"@ || name
        == "comments"@ {
        None
    } else if name == "truthy"@ {
        truthy_err(map)
    } else if name == "document-start"@ {
        document_start_err(map)
    } else {
        Some("Rule '"@ + name + "' does not support options"@)
    }
}

/// The shape of valid line length options.
pub open spec fn line_length_shape(map: Seq<(String, RawScalar)>, o: RuleOptions) -> bool {
    o matches RuleOptions::LineLength { max } && max as int == raw_nat_or(map, "max"@, 80)
}

/// The shape of valid indentation options.
pub open spec fn indentation_shape(map: Seq<(String, RawScalar)>, o: RuleOptions) -> bool {
    o matches RuleOptions::Indentation { spaces } && spaces == (match raw_get(map, "spaces"@) {
        Some(RawScalar::Nat(n)) => IndentConfig::Fixed(n as usize),
        _ => IndentConfig::Consistent,
    })
}

/// The shape of valid colons options.
pub open spec fn colons_shape(map: Seq<(String, RawScalar)>, o: RuleOptions) -> bool {
    o matches RuleOptions::Colons { max_spaces_before, max_spaces_after } && max_spaces_before
        as int == raw_nat_or(map, "max-spaces-before"@, 0) && max_spaces_after as int == raw_nat_or(
        map,
        "max-spaces-after"@,
        1,
    )
}

/// The shape of valid empty lines options.
pub open spec fn empty_lines_shape(map: Seq<(String, RawScalar)>, o: RuleOptions) -> bool {
    o matches RuleOptions::EmptyLines { max, max_start, max_end } && max as int == raw_nat_or(
        map,
        "max"@,
        2,
    ) && max_start as int == raw_nat_or(map, "max-start"@, 0) && max_end as int == raw_nat_or(
        map,
        "max-end"@,
        0,
    )
}

/// The shape of valid hyphens options.
pub open spec fn hyphens_shape(map: Seq<(String, RawScalar)>, o: RuleOptions) -> bool {
    o matches RuleOptions::Hyphens { max_spaces_after } && max_spaces_after as int == raw_nat_or(
        map,
        "max-spaces-after"@,
        1,
    )
}

/// The shape of valid comments options.
pub open spec fn comments_shape(map: Seq<(String, RawScalar)>, o: RuleOptions) -> bool {
    o matches RuleOptions::Comments {
        require_starting_space,
        ignore_shebangs,
        min_spaces_from_content,
    } && require_starting_space == raw_bool_or(map, "require-starting-space"@, true)
        && ignore_shebangs == raw_bool_or(map, "ignore-shebangs"@, true) && min_spaces_from_content
        as int == raw_nat_or(map, "min-spaces-from-content"@, 2)
}

/// The shape of valid truthy options.
pub open spec fn truthy_shape(map: Seq<(String, RawScalar)>, o: RuleOptions) -> bool {
    o matches RuleOptions::Truthy { allowed_values, check_keys } && allowed_values.deep_view()
        == truthy_values_view(map) && check_keys == raw_bool_or(map, "check-keys"@, false)
}

/// The shape of valid document start options.
pub open spec fn document_start_shape(map: Seq<(String, RawScalar)>, o: RuleOptions) -> bool {
    o matches RuleOptions::DocumentStart { present } && present == (match raw_get(
        map,
        "present"@,
    ) {
        Some(RawScalar::Bool(b)) => if b {
            DocumentStartConfig::Required
        } else {
            DocumentStartConfig::Forbidden
        },
        _ => DocumentStartConfig::Disabled,
    })
}

/// The shape of validly parsed options for the named rule: every field
/// is pinned; the truthy list is pinned by its contents.
pub open spec fn options_shape(
    name: Seq<char>,
    map: Seq<(String, RawScalar)>,
    o: RuleOptions,
) -> bool {
    if name == "line-length"@ {
        line_length_shape(map, o)
    } else if name == "indentation"@ {
        indentation_shape(map, o)
    } else if name == "colons"@ {
        colons_shape(map, o)
    } else if name == "empty-lines"@ {
        empty_lines_shape(map, o)
    } else if name == "hyphens"@ {
        hyphens_shape(map, o)
    } else if name == "comments"@ {
        comments_shape(map, o)
    } else if name == "truthy"@ {
        truthy_shape(map, o)
    } else if name == "document-start"@ {
        document_start_shape(map, o)
    } else {
        false
    }
}

/// The level named by a configuration string.
pub open spec fn level_of_text(s: Seq<char>) -> Option<RuleLevel> {
    if s == "error"@ {
        Some(RuleLevel::Error)
    } else if s == "warning"@ {
        Some(RuleLevel::Warning)
    } else if s == "disable"@ {
        Some(RuleLevel::Disable)
    } else {
        None
    }
}

/// The level configured inside an options mapping: a valid `level`
/// string names it, an invalid one is an error, anything else (or none)
/// falls back to the error level.
pub open spec fn detailed_level(map: Seq<(String, RawScalar)>) -> Result<RuleLevel, Seq<char>> {
    match raw_get(map, "level"@) {
        Some(RawScalar::Str(s)) => match level_of_text(s@) {
            Some(l) => Ok(l),
            None => Err("Invalid rule level: "@ + s@),
        },
        _ => Ok(RuleLevel::Error),
    }
}

/// Index of the first entry configuring the named rule, or the length.
pub open spec fn find_cfg(rules: Seq<(String, RuleConfig)>, name: Seq<char>) -> int
    decreases rules.len(),
{
    if rules.len() == 0 {
        0
    } else if rules[0].0@ == name {
        0
    } else {
        1 + find_cfg(rules.skip(1), name)
    }
}

pub proof fn lemma_find_cfg_eq(rules: Seq<(String, RuleConfig)>, name: Seq<char>, i: int)
    requires
        0 <= i <= rules.len(),
        forall|j: int| 0 <= j < i ==> (#[trigger] rules[j].0)@ != name,
        i < rules.len() ==> rules[i].0@ == name,
    ensures
        find_cfg(rules, name) == i,
    decreases rules.len(),
{
    if i == 0 {
    } else {
        assert forall|j: int| 0 <= j < i - 1 implies (#[trigger] rules.skip(1)[j].0)@ != name by {
            assert(rules.skip(1)[j] == rules[j + 1]);
        }
        if i - 1 < rules.skip(1).len() {
            assert(rules.skip(1)[i - 1] == rules[i]);
        }
        lemma_find_cfg_eq(rules.skip(1), name, i - 1);
    }
}

/// The eleven built-in rules with the levels of the default preset.
pub open spec fn is_default_preset(rules: Seq<(String, RuleConfig)>) -> bool {
    &&& rules.len() == 11
    &&& rules[0].0@ == "trailing-spaces"@ && rules[0].1 == RuleConfig::Level(RuleLevel::Error)
    &&& rules[1].0@ == "line-length"@ && rules[1].1 == RuleConfig::Level(RuleLevel::Error)
    &&& rules[2].0@ == "document-start"@ && rules[2].1 == RuleConfig::Level(RuleLevel::Disable)
    &&& rules[3].0@ == "colons"@ && rules[3].1 == RuleConfig::Level(RuleLevel::Error)
    &&& rules[4].0@ == "key-duplicates"@ && rules[4].1 == RuleConfig::Level(RuleLevel::Error)
    &&& rules[5].0@ == "indentation"@ && rules[5].1 == RuleConfig::Level(RuleLevel::Error)
    &&& rules[6].0@ == "new-line-at-end-of-file"@ && rules[6].1 == RuleConfig::Level(
        RuleLevel::Error,
    )
    &&& rules[7].0@ == "empty-lines"@ && rules[7].1 == RuleConfig::Level(RuleLevel::Error)
    &&& rules[8].0@ == "hyphens"@ && rules[8].1 == RuleConfig::Level(RuleLevel::Error)
    &&& rules[9].0@ == "comments"@ && rules[9].1 == RuleConfig::Level(RuleLevel::Error)
    &&& rules[10].0@ == "truthy"@ && rules[10].1 == RuleConfig::Level(RuleLevel::Warning)
}

/// The eleven built-in rules with the levels of the relaxed preset.
pub open spec fn is_relaxed_preset(rules: Seq<(String, RuleConfig)>) -> bool {
    &&& rules.len() == 11
    &&& rules[0].0@ == "trailing-spaces"@ && rules[0].1 == RuleConfig::Level(RuleLevel::Warning)
    &&& rules[1].0@ == "line-length"@ && rules[1].1 == RuleConfig::Level(RuleLevel::Warning)
    &&& rules[2].0@ == "document-start"@ && rules[2].1 == RuleConfig::Level(RuleLevel::Disable)
    &&& rules[3].0@ == "colons"@ && rules[3].1 == RuleConfig::Level(RuleLevel::Warning)
    &&& rules[4].0@ == "key-duplicates"@ && rules[4].1 == RuleConfig::Level(RuleLevel::Error)
    &&& rules[5].0@ == "indentation"@ && rules[5].1 == RuleConfig::Level(RuleLevel::Warning)
    &&& rules[6].0@ == "new-line-at-end-of-file"@ && rules[6].1 == RuleConfig::Level(
        RuleLevel::Warning,
    )
    &&& rules[7].0@ == "empty-lines"@ && rules[7].1 == RuleConfig::Level(RuleLevel::Warning)
    &&& rules[8].0@ == "hyphens"@ && rules[8].1 == RuleConfig::Level(RuleLevel::Warning)
    &&& rules[9].0@ == "comments"@ && rules[9].1 == RuleConfig::Level(RuleLevel::Warning)
    &&& rules[10].0@ == "truthy"@ && rules[10].1 == RuleConfig::Level(RuleLevel::Warning)
}

/// Main configuration structure: an ordered rule-name to configuration
/// mapping and the ignore patterns.
#[derive(Debug, Clone)]
pub struct Config {
    /// Rule configurations, in order, one entry per rule name.
    pub rules: Vec<(String, RuleConfig)>,
    /// File patterns to ignore.
    pub ignore: Vec<String>,
}

impl Config {
    /// Create a new empty config.
    pub fn new() -> (r: Self)
        ensures
            r.rules@.len() == 0,
            r.ignore@.len() == 0,
    {
        Config { rules: Vec::new(), ignore: Vec::new() }
    }

    /// Create a config holding the default preset.
    pub fn with_default_preset() -> (r: Self)
        ensures
            is_default_preset(r.rules@),
            r.ignore@.len() == 0,
    {
        let mut rules: Vec<(String, RuleConfig)> = Vec::new();
        rules.push((String::from_str("trailing-spaces"), RuleConfig::Level(RuleLevel::Error)));
        rules.push((String::from_str("line-length"), RuleConfig::Level(RuleLevel::Error)));
        rules.push((String::from_str("document-start"), RuleConfig::Level(RuleLevel::Disable)));
        rules.push((String::from_str("colons"), RuleConfig::Level(RuleLevel::Error)));
        rules.push((String::from_str("key-duplicates"), RuleConfig::Level(RuleLevel::Error)));
        rules.push((String::from_str("indentation"), RuleConfig::Level(RuleLevel::Error)));
        rules.push(
            (String::from_str("new-line-at-end-of-file"), RuleConfig::Level(RuleLevel::Error)),
        );
        rules.push((String::from_str("empty-lines"), RuleConfig::Level(RuleLevel::Error)));
        rules.push((String::from_str("hyphens"), RuleConfig::Level(RuleLevel::Error)));
        rules.push((String::from_str("comments"), RuleConfig::Level(RuleLevel::Error)));
        rules.push((String::from_str("truthy"), RuleConfig::Level(RuleLevel::Warning)));
        Config { rules, ignore: Vec::new() }
    }

    /// Create a config holding the relaxed preset.
    pub fn with_relaxed_preset() -> (r: Self)
        ensures
            is_relaxed_preset(r.rules@),
            r.ignore@.len() == 0,
    {
        let mut rules: Vec<(String, RuleConfig)> = Vec::new();
        rules.push((String::from_str("trailing-spaces"), RuleConfig::Level(RuleLevel::Warning)));
        rules.push((String::from_str("line-length"), RuleConfig::Level(RuleLevel::Warning)));
        rules.push((String::from_str("document-start"), RuleConfig::Level(RuleLevel::Disable)));
        rules.push((String::from_str("colons"), RuleConfig::Level(RuleLevel::Warning)));
        rules.push((String::from_str("key-duplicates"), RuleConfig::Level(RuleLevel::Error)));
        rules.push((String::from_str("indentation"), RuleConfig::Level(RuleLevel::Warning)));
        rules.push(
            (String::from_str("new-line-at-end-of-file"), RuleConfig::Level(RuleLevel::Warning)),
        );
        rules.push((String::from_str("empty-lines"), RuleConfig::Level(RuleLevel::Warning)));
        rules.push((String::from_str("hyphens"), RuleConfig::Level(RuleLevel::Warning)));
        rules.push((String::from_str("comments"), RuleConfig::Level(RuleLevel::Warning)));
        rules.push((String::from_str("truthy"), RuleConfig::Level(RuleLevel::Warning)));
        Config { rules, ignore: Vec::new() }
    }

    /// Configure one rule, replacing any earlier entry of the same name
    /// in place.
    pub fn set_rule(&mut self, name: String, rc: RuleConfig)
        ensures
            ({
                let i = find_cfg(old(self).rules@, name@);
                if i < old(self).rules@.len() {
                    final(self).rules@ == old(self).rules@.update(
                        i,
                        (old(self).rules@[i].0, rc),
                    )
                } else {
                    final(self).rules@ == old(self).rules@.push((name, rc))
                }
            }),
            final(self).ignore@ == old(self).ignore@,
    {
        let n = self.rules.len();
        let mut i: usize = 0;
        while i < n
            invariant
                0 <= i <= n,
                n == self.rules@.len(),
                self.rules@ == old(self).rules@,
                self.ignore@ == old(self).ignore@,
                forall|j: int| 0 <= j < i ==> (#[trigger] self.rules@[j].0)@ != name@,
            decreases n - i,
        {
            if str_eq(self.rules[i].0.as_str(), name.as_str()) {
                proof {
                    lemma_find_cfg_eq(self.rules@, name@, i as int);
                }
                let ghost before = self.rules@;
                let old_name = match self.rules.remove(i) {
                    (stored, _) => stored,
                };
                self.rules.insert(i, (old_name, rc));
                proof {
                    assert(self.rules@ =~= before.update(i as int, (before[i as int].0, rc)));
                }
                return ;
            }
            i = i + 1;
        }
        proof {
            lemma_find_cfg_eq(self.rules@, name@, n as int);
        }
        self.rules.push((name, rc));
    }

    /// Get the configured level for a rule.
    pub fn get_rule_level(&self, rule_name: &str) -> (r: Option<RuleLevel>)
        ensures
            ({
                let i = find_cfg(self.rules@, rule_name@);
                match r {
                    Some(l) => i < self.rules@.len() && l == config_level(self.rules@[i].1),
                    None => i >= self.rules@.len(),
                }
            }),
    {
        let n = self.rules.len();
        let mut i: usize = 0;
        while i < n
            invariant
                0 <= i <= n,
                n == self.rules@.len(),
                forall|j: int| 0 <= j < i ==> (#[trigger] self.rules@[j].0)@ != rule_name@,
            decreases n - i,
        {
            if str_eq(self.rules[i].0.as_str(), rule_name) {
                proof {
                    lemma_find_cfg_eq(self.rules@, rule_name@, i as int);
                }
                return Some(self.rules[i].1.level());
            }
            i = i + 1;
        }
        proof {
            lemma_find_cfg_eq(self.rules@, rule_name@, n as int);
        }
        None
    }
}

impl Default for Config {
    fn default() -> (r: Self)
        ensures
            is_default_preset(r.rules@),
            r.ignore@.len() == 0,
    {
        Self::with_default_preset()
    }
}


/// Look up a key in an option mapping.
fn raw_lookup<'x>(map: &'x Vec<(String, RawScalar)>, key: &str) -> (r: Option<&'x RawScalar>)
    ensures
        match r {
            Some(v) => raw_get(map@, key@) == Some(*v),
            None => raw_get(map@, key@) is None,
        },
{
    let n = map.len();
    let mut i: usize = 0;
    proof {
        assert(map@.skip(0) =~= map@);
    }
    while i < n
        invariant
            0 <= i <= n,
            n == map@.len(),
            raw_get(map@, key@) == raw_get(map@.skip(i as int), key@),
        decreases n - i,
    {
        if str_eq(map[i].0.as_str(), key) {
            proof {
                assert(map@.skip(i as int)[0] == map@[i as int]);
            }
            return Some(&map[i].1);
        }
        i = i + 1;
        proof {
            assert(map@.skip(i - 1)[0] == map@[i - 1]);
            assert(map@.skip(i - 1).skip(1) =~= map@.skip(i as int));
        }
    }
    None
}

/// A non-negative integer under the key, or the default.
fn raw_nat_lookup(map: &Vec<(String, RawScalar)>, key: &str, default: usize) -> (r: usize)
    ensures
        r as int == raw_nat_or(map@, key@, default as int),
{
    match raw_lookup(map, key) {
        Some(RawScalar::Nat(n)) => *n as usize,
        _ => default,
    }
}

/// A boolean under the key, or the default.
fn raw_bool_lookup(map: &Vec<(String, RawScalar)>, key: &str, default: bool) -> (r: bool)
    ensures
        r == raw_bool_or(map@, key@, default),
{
    match raw_lookup(map, key) {
        Some(RawScalar::Bool(b)) => *b,
        _ => default,
    }
}

/// Whether a rule name is one of the eleven built-in rules.
pub open spec fn known_rule(name: Seq<char>) -> bool {
    ||| name == "trailing-spaces"@
    ||| name == "line-length"@
    ||| name == "document-start"@
    ||| name == "colons"@
    ||| name == "key-duplicates"@
    ||| name == "indentation"@
    ||| name == "new-line-at-end-of-file"@
    ||| name == "empty-lines"@
    ||| name == "hyphens"@
    ||| name == "comments"@
    ||| name == "truthy"@
}

/// The shape of the rule implementation built for a configuration: each
/// field follows the options, or the rule's defaults where the
/// configuration has none; the truthy list is pinned by its contents.
pub open spec fn kind_shape(name: Seq<char>, rc: RuleConfig, k: RuleKind) -> bool {
    if name == "trailing-spaces"@ {
        k is TrailingSpaces
    } else if name == "line-length"@ {
        k matches RuleKind::LineLength(r) && r.max as int == (match rc {
            RuleConfig::Detailed { level: _, options: RuleOptions::LineLength { max } } => max as int,
            _ => 80,
        })
    } else if name == "document-start"@ {
        k matches RuleKind::DocumentStart(r) && r.presence == (match rc {
            RuleConfig::Detailed { level: _, options: RuleOptions::DocumentStart { present } } => (
            match present {
                DocumentStartConfig::Required => document_start::DocumentStartPresence::Required,
                DocumentStartConfig::Forbidden => document_start::DocumentStartPresence::Forbidden,
                DocumentStartConfig::Disabled => document_start::DocumentStartPresence::Disabled,
            }),
            _ => document_start::DocumentStartPresence::Disabled,
        })
    } else if name == "colons"@ {
        k matches RuleKind::Colons(r) && (match rc {
            RuleConfig::Detailed {
                level: _,
                options: RuleOptions::Colons { max_spaces_before, max_spaces_after },
            } => r.max_spaces_before == max_spaces_before && r.max_spaces_after == max_spaces_after,
            _ => r.max_spaces_before == 0 && r.max_spaces_after == 1,
        })
    } else if name == "key-duplicates"@ {
        k is KeyDuplicates
    } else if name == "indentation"@ {
        k matches RuleKind::Indentation(r) && r.spaces == (match rc {
            RuleConfig::Detailed { level: _, options: RuleOptions::Indentation { spaces } } => (
            match spaces {
                IndentConfig::Fixed(n) => indentation::IndentSpaces::Fixed(n),
                IndentConfig::Consistent => indentation::IndentSpaces::Consistent,
            }),
            _ => indentation::IndentSpaces::Consistent,
        })
    } else if name == "new-line-at-end-of-file"@ {
        k is NewLineAtEndOfFile
    } else if name == "empty-lines"@ {
        k matches RuleKind::EmptyLines(r) && (match rc {
            RuleConfig::Detailed {
                level: _,
                options: RuleOptions::EmptyLines { max, max_start, max_end },
            } => r.max == max && r.max_start == max_start && r.max_end == max_end,
            _ => r.max == 2 && r.max_start == 0 && r.max_end == 0,
        })
    } else if name == "hyphens"@ {
        k matches RuleKind::Hyphens(r) && (match rc {
            RuleConfig::Detailed { level: _, options: RuleOptions::Hyphens { max_spaces_after } } => r.max_spaces_after
                == max_spaces_after,
            _ => r.max_spaces_after == 1,
        })
    } else if name == "comments"@ {
        k matches RuleKind::Comments(r) && (match rc {
            RuleConfig::Detailed {
                level: _,
                options: RuleOptions::Comments {
                    require_starting_space,
                    ignore_shebangs,
                    min_spaces_from_content,
                },
            } => r.require_starting_space == require_starting_space && r.ignore_shebangs
                == ignore_shebangs && r.min_spaces_from_content == min_spaces_from_content,
            _ => r.require_starting_space && r.ignore_shebangs && r.min_spaces_from_content == 2,
        })
    } else if name == "truthy"@ {
        k matches RuleKind::Truthy(r) && (match rc {
            RuleConfig::Detailed {
                level: _,
                options: RuleOptions::Truthy { allowed_values, check_keys },
            } => r.allowed_values.deep_view() == allowed_values.deep_view() && r.check_keys
                == check_keys,
            _ => r.allowed_values.deep_view() =~= seq!["true"@, "false"@] && !r.check_keys,
        })
    } else {
        false
    }
}

/// The configured rule names are pairwise distinct.
pub open spec fn cfg_names_unique(rules: Seq<(String, RuleConfig)>) -> bool {
    forall|i: int, j: int|
        0 <= i < j < rules.len() ==> (#[trigger] rules[i].0)@ != (#[trigger] rules[j].0)@
}

/// The known rules a configuration enables, in order: one triple of
/// name, level and configuration per entry with a recognised name.
pub open spec fn configured_entries(rules: Seq<(String, RuleConfig)>, n: int) -> Seq<
    (Seq<char>, RuleLevel, RuleConfig),
>
    decreases n,
{
    if n <= 0 {
        Seq::empty()
    } else {
        let prev = configured_entries(rules, n - 1);
        let name = rules[n - 1].0@;
        if known_rule(name) {
            prev.push((name, config_level(rules[n - 1].1), rules[n - 1].1))
        } else {
            prev
        }
    }
}

impl Config {
    /// Build the rule implementation for a configured rule name.
    fn build_kind(rule_name: &str, rc: &RuleConfig) -> (r: Option<RuleKind>)
        ensures
            match r {
                Some(k) => known_rule(rule_name@) && kind_shape(rule_name@, *rc, k),
                None => !known_rule(rule_name@),
            },
    {
        if str_eq(rule_name, "trailing-spaces") {
            Some(RuleKind::TrailingSpaces(trailing_spaces::TrailingSpacesRule))
        } else if str_eq(rule_name, "line-length") {
            match rc.options() {
                Some(RuleOptions::LineLength { max }) => Some(
                    RuleKind::LineLength(line_length::LineLengthRule::with_max(*max)),
                ),
                _ => Some(RuleKind::LineLength(line_length::LineLengthRule::new())),
            }
        } else if str_eq(rule_name, "document-start") {
            match rc.options() {
                Some(RuleOptions::DocumentStart { present }) => match present {
                    DocumentStartConfig::Required => Some(
                        RuleKind::DocumentStart(document_start::DocumentStartRule::required()),
                    ),
                    DocumentStartConfig::Forbidden => Some(
                        RuleKind::DocumentStart(document_start::DocumentStartRule::forbidden()),
                    ),
                    DocumentStartConfig::Disabled => Some(
                        RuleKind::DocumentStart(document_start::DocumentStartRule::new()),
                    ),
                },
                _ => Some(RuleKind::DocumentStart(document_start::DocumentStartRule::new())),
            }
        } else if str_eq(rule_name, "colons") {
            match rc.options() {
                Some(RuleOptions::Colons { max_spaces_before, max_spaces_after }) => Some(
                    RuleKind::Colons(
                        colons::ColonsRule::with_spacing(*max_spaces_before, *max_spaces_after),
                    ),
                ),
                _ => Some(RuleKind::Colons(colons::ColonsRule::new())),
            }
        } else if str_eq(rule_name, "key-duplicates") {
            Some(RuleKind::KeyDuplicates(key_duplicates::KeyDuplicatesRule))
        } else if str_eq(rule_name, "indentation") {
            match rc.options() {
                Some(RuleOptions::Indentation { spaces }) => match spaces {
                    IndentConfig::Fixed(n) => Some(
                        RuleKind::Indentation(indentation::IndentationRule::with_spaces(*n)),
                    ),
                    IndentConfig::Consistent => Some(
                        RuleKind::Indentation(indentation::IndentationRule::consistent()),
                    ),
                },
                _ => Some(RuleKind::Indentation(indentation::IndentationRule::new())),
            }
        } else if str_eq(rule_name, "new-line-at-end-of-file") {
            Some(RuleKind::NewLineAtEndOfFile(new_line_at_end_of_file::NewLineAtEndOfFileRule))
        } else if str_eq(rule_name, "empty-lines") {
            match rc.options() {
                Some(RuleOptions::EmptyLines { max, max_start, max_end }) => Some(
                    RuleKind::EmptyLines(
                        empty_lines::EmptyLinesRule::with_config(*max, *max_start, *max_end),
                    ),
                ),
                _ => Some(RuleKind::EmptyLines(empty_lines::EmptyLinesRule::new())),
            }
        } else if str_eq(rule_name, "hyphens") {
            match rc.options() {
                Some(RuleOptions::Hyphens { max_spaces_after }) => Some(
                    RuleKind::Hyphens(hyphens::HyphensRule::with_config(*max_spaces_after)),
                ),
                _ => Some(RuleKind::Hyphens(hyphens::HyphensRule::new())),
            }
        } else if str_eq(rule_name, "comments") {
            match rc.options() {
                Some(
                    RuleOptions::Comments {
                        require_starting_space,
                        ignore_shebangs,
                        min_spaces_from_content,
                    },
                ) => Some(
                    RuleKind::Comments(
                        comments::CommentsRule::with_config(
                            *require_starting_space,
                            *ignore_shebangs,
                            *min_spaces_from_content,
                        ),
                    ),
                ),
                _ => Some(RuleKind::Comments(comments::CommentsRule::new())),
            }
        } else if str_eq(rule_name, "truthy") {
            match rc.options() {
                Some(RuleOptions::Truthy { allowed_values, check_keys }) => {
                    let cloned = allowed_values.clone();
                    proof {
                        broadcast use vstd::std_specs::vec::vec_clone_deep_view_proof;

                        assert(cloned.deep_view() =~= allowed_values.deep_view());
                    }
                    Some(RuleKind::Truthy(truthy::TruthyRule::with_config(cloned, *check_keys)))
                },
                _ => Some(RuleKind::Truthy(truthy::TruthyRule::new())),
            }
        } else {
            None
        }
    }

    /// Create a rule registry configured according to this config: each
    /// recognised rule is registered with its options at its configured
    /// level, in order; unknown names are skipped; an empty
    /// configuration yields the default registry.  The characterisation
    /// of the result assumes each rule is configured at most once, which
    /// every configuration built by this crate satisfies.
    pub fn create_registry(&self) -> (r: RuleRegistry)
        ensures
            self.rules@.len() == 0 ==> is_default_registry(r.entries_view()),
            self.rules@.len() > 0 && cfg_names_unique(self.rules@) ==> ({
                let eff = configured_entries(self.rules@, self.rules@.len() as int);
                &&& r.entries_view().len() == eff.len()
                &&& forall|i: int|
                    0 <= i < eff.len() ==> {
                        &&& rule_name_of(#[trigger] r.entries_view()[i].rule) == eff[i].0
                        &&& r.entries_view()[i].level == eff[i].1
                        &&& kind_shape(eff[i].0, eff[i].2, r.entries_view()[i].rule)
                    }
            }),
    {
        let n = self.rules.len();
        if n == 0 {
            return RuleRegistry::with_defaults();
        }
        let ghost rules = self.rules@;
        let mut registry = RuleRegistry::new();
        let mut i: usize = 0;
        while i < n
            invariant
                0 <= i <= n,
                n == self.rules@.len(),
                rules == self.rules@,
                cfg_names_unique(rules) ==> ({
                    let eff = configured_entries(rules, i as int);
                    &&& registry.entries_view().len() == eff.len()
                    &&& forall|t: int|
                        0 <= t < eff.len() ==> {
                            &&& rule_name_of(#[trigger] registry.entries_view()[t].rule)
                                == eff[t].0
                            &&& registry.entries_view()[t].level == eff[t].1
                            &&& kind_shape(eff[t].0, eff[t].2, registry.entries_view()[t].rule)
                        }
                }),
                cfg_names_unique(rules) ==> forall|t: int|
                    0 <= t < configured_entries(rules, i as int).len() ==> exists|w: int|
                        0 <= w < i && (#[trigger] configured_entries(rules, i as int)[t].0) == (
                        rules[w].0)@,
            decreases n - i,
        {
            let ghost old_entries = registry.entries_view();
            let name_string = self.rules[i].0.clone();
            let rule_name = name_string.as_str();
            assert(rule_name@ == rules[i as int].0@);
            match Self::build_kind(rule_name, &self.rules[i].1) {
                None => {},
                Some(kind) => {
                    let level = self.rules[i].1.level();
                    proof {
                        if cfg_names_unique(rules) {
                            assert forall|t: int|
                                0 <= t < old_entries.len() implies rule_name_of(
                                #[trigger] old_entries[t].rule,
                            ) != rule_name@ by {
                                let w = choose|w: int|
                                    0 <= w < i && (#[trigger] configured_entries(
                                        rules,
                                        i as int,
                                    )[t].0) == (rules[w].0)@;
                                assert((rules[w].0)@ != (rules[i as int].0)@);
                            }
                            crate::rules::lemma_find_rule_eq(
                                old_entries,
                                crate::rules::rule_name_of(kind),
                                old_entries.len() as int,
                            );
                        }
                    }
                    registry.register(kind);
                    proof {
                        if cfg_names_unique(rules) {
                            assert(registry.entries_view() =~= old_entries.push(
                                RuleEntry {
                                    rule: kind,
                                    level: crate::rules::rule_default_level(kind),
                                },
                            ));
                        }
                    }
                    let ghost mid_entries = registry.entries_view();
                    proof {
                        if cfg_names_unique(rules) {
                            assert forall|t: int|
                                0 <= t < mid_entries.len() - 1 implies rule_name_of(
                                #[trigger] mid_entries[t].rule,
                            ) != rule_name@ by {
                                assert(mid_entries[t] == old_entries[t]);
                            }
                            crate::rules::lemma_find_rule_eq(
                                mid_entries,
                                rule_name@,
                                mid_entries.len() - 1,
                            );
                        }
                    }
                    registry.set_level(rule_name, level);
                    proof {
                        if cfg_names_unique(rules) {
                            assert(registry.entries_view() =~= mid_entries.update(
                                mid_entries.len() - 1,
                                RuleEntry { rule: kind, level },
                            ));
                            let eff = configured_entries(rules, i + 1);
                            assert(eff =~= configured_entries(rules, i as int).push(
                                (rule_name@, level, rules[i as int].1),
                            ));
                            assert forall|t: int|
                                0 <= t < eff.len() implies exists|w: int|
                                0 <= w < i + 1 && (#[trigger] eff[t].0) == (rules[w].0)@ by {
                                if t < eff.len() - 1 {
                                    let w0 = choose|w: int|
                                        0 <= w < i && (#[trigger] configured_entries(
                                            rules,
                                            i as int,
                                        )[t].0) == (rules[w].0)@;
                                    assert(eff[t].0 == (rules[w0].0)@);
                                } else {
                                    assert(eff[t].0 == (rules[i as int].0)@);
                                }
                            }
                        }
                    }
                },
            }
            proof {
                if cfg_names_unique(rules) && !known_rule(rules[i as int].0@) {
                    assert(configured_entries(rules, i + 1) =~= configured_entries(
                        rules,
                        i as int,
                    ));
                }
            }
            i = i + 1;
        }
        registry
    }
}


impl Config {
    /// Parse the options of the line length rule.
    fn parse_line_length_options(map: &Vec<(String, RawScalar)>) -> (r: Result<
        RuleOptions,
        LintError,
    >)
        ensures
            match r {
                Ok(o) => line_length_err(map@) is None && line_length_shape(map@, o),
                Err(e) => line_length_err(map@) matches Some(m) && (
                e matches LintError::ConfigError(t) && t@ == m),
            },
    {
        let max = raw_nat_lookup(map, "max", 80);
        if max == 0 {
            Err(
                LintError::ConfigError(
                    String::from_str("line-length max must be greater than 0"),
                ),
            )
        } else {
            Ok(RuleOptions::LineLength { max })
        }
    }

    /// Parse the options of the indentation rule.
    fn parse_indentation_options(map: &Vec<(String, RawScalar)>) -> (r: Result<
        RuleOptions,
        LintError,
    >)
        ensures
            match r {
                Ok(o) => indentation_err(map@) is None && indentation_shape(map@, o),
                Err(e) => indentation_err(map@) matches Some(m) && (
                e matches LintError::ConfigError(t) && t@ == m),
            },
    {
        match raw_lookup(map, "spaces") {
            Some(RawScalar::Nat(n)) => {
                let num = *n;
                if num == 0 || num > 16 {
                    Err(
                        LintError::ConfigError(
                            String::from_str("indentation spaces must be between 1 and 16"),
                        ),
                    )
                } else {
                    Ok(RuleOptions::Indentation { spaces: IndentConfig::Fixed(num as usize) })
                }
            },
            Some(RawScalar::NumOther) => Err(
                LintError::ConfigError(
                    String::from_str("indentation spaces must be a positive integer"),
                ),
            ),
            Some(RawScalar::Str(sv)) => {
                if str_eq(sv.as_str(), "consistent") {
                    Ok(RuleOptions::Indentation { spaces: IndentConfig::Consistent })
                } else {
                    Err(
                        LintError::ConfigError(
                            String::from_str("indentation spaces must be a number or 'consistent'"),
                        ),
                    )
                }
            },
            None => Ok(RuleOptions::Indentation { spaces: IndentConfig::Consistent }),
            _ => Err(
                LintError::ConfigError(
                    String::from_str("indentation spaces must be a number or 'consistent'"),
                ),
            ),
        }
    }

    /// Parse the options of the colons rule.
    fn parse_colons_options(map: &Vec<(String, RawScalar)>) -> (r: Result<RuleOptions, LintError>)
        ensures
            r matches Ok(o) && colons_shape(map@, o),
    {
        Ok(
            RuleOptions::Colons {
                max_spaces_before: raw_nat_lookup(map, "max-spaces-before", 0),
                max_spaces_after: raw_nat_lookup(map, "max-spaces-after", 1),
            },
        )
    }

    /// Parse the options of the empty lines rule.
    fn parse_empty_lines_options(map: &Vec<(String, RawScalar)>) -> (r: Result<
        RuleOptions,
        LintError,
    >)
        ensures
            r matches Ok(o) && empty_lines_shape(map@, o),
    {
        Ok(
            RuleOptions::EmptyLines {
                max: raw_nat_lookup(map, "max", 2),
                max_start: raw_nat_lookup(map, "max-start", 0),
                max_end: raw_nat_lookup(map, "max-end", 0),
            },
        )
    }

    /// Parse the options of the hyphens rule.
    fn parse_hyphens_options(map: &Vec<(String, RawScalar)>) -> (r: Result<RuleOptions, LintError>)
        ensures
            r matches Ok(o) && hyphens_shape(map@, o),
    {
        Ok(RuleOptions::Hyphens { max_spaces_after: raw_nat_lookup(map, "max-spaces-after", 1) })
    }

    /// Parse the options of the comments rule.
    fn parse_comments_options(map: &Vec<(String, RawScalar)>) -> (r: Result<
        RuleOptions,
        LintError,
    >)
        ensures
            r matches Ok(o) && comments_shape(map@, o),
    {
        Ok(
            RuleOptions::Comments {
                require_starting_space: raw_bool_lookup(map, "require-starting-space", true),
                ignore_shebangs: raw_bool_lookup(map, "ignore-shebangs", true),
                min_spaces_from_content: raw_nat_lookup(map, "min-spaces-from-content", 2),
            },
        )
    }

    /// Parse the options of the truthy rule.
    fn parse_truthy_options(map: &Vec<(String, RawScalar)>) -> (r: Result<RuleOptions, LintError>)
        ensures
            match r {
                Ok(o) => truthy_err(map@) is None && truthy_shape(map@, o),
                Err(e) => truthy_err(map@) matches Some(m) && (
                e matches LintError::ConfigError(t) && t@ == m),
            },
    {
        let check_keys = raw_bool_lookup(map, "check-keys", false);
        match raw_lookup(map, "allowed-values") {
            Some(RawScalar::List(vs)) => {
                if vs.len() == 0 {
                    Err(
                        LintError::ConfigError(
                            String::from_str("truthy allowed-values cannot be empty"),
                        ),
                    )
                } else {
                    let cloned = vs.clone();
                    proof {
                        broadcast use vstd::std_specs::vec::vec_clone_deep_view_proof;

                        assert(cloned.deep_view() =~= vs.deep_view());
                    }
                    Ok(RuleOptions::Truthy { allowed_values: cloned, check_keys })
                }
            },
            _ => {
                let mut allowed_values: Vec<String> = Vec::new();
                allowed_values.push(String::from_str("true"));
                allowed_values.push(String::from_str("false"));
                proof {
                    assert(allowed_values.deep_view() =~= seq!["true"@, "false"@]);
                }
                Ok(RuleOptions::Truthy { allowed_values, check_keys })
            },
        }
    }

    /// Parse the options of the document start rule.
    fn parse_document_start_options(map: &Vec<(String, RawScalar)>) -> (r: Result<
        RuleOptions,
        LintError,
    >)
        ensures
            match r {
                Ok(o) => document_start_err(map@) is None && document_start_shape(map@, o),
                Err(e) => document_start_err(map@) matches Some(m) && (
                e matches LintError::ConfigError(t) && t@ == m),
            },
    {
        match raw_lookup(map, "present") {
            Some(RawScalar::Bool(b)) => Ok(
                RuleOptions::DocumentStart {
                    present: if *b {
                        DocumentStartConfig::Required
                    } else {
                        DocumentStartConfig::Forbidden
                    },
                },
            ),
            None => Ok(RuleOptions::DocumentStart { present: DocumentStartConfig::Disabled }),
            _ => Err(
                LintError::ConfigError(
                    String::from_str("document-start 'present' must be a boolean (true or false)"),
                ),
            ),
        }
    }

    /// Parse rule-specific options based on the rule name.
    fn parse_rule_options(rule_name: &str, map: &Vec<(String, RawScalar)>) -> (r: Result<
        RuleOptions,
        LintError,
    >)
        ensures
            match r {
                Ok(o) => parse_options_err(rule_name@, map@) is None && options_shape(
                    rule_name@,
                    map@,
                    o,
                ),
                Err(e) => parse_options_err(rule_name@, map@) matches Some(m) && (
                e matches LintError::ConfigError(t) && t@ == m),
            },
    {
        if str_eq(rule_name, "line-length") {
            Self::parse_line_length_options(map)
        } else if str_eq(rule_name, "indentation") {
            Self::parse_indentation_options(map)
        } else if str_eq(rule_name, "colons") {
            Self::parse_colons_options(map)
        } else if str_eq(rule_name, "empty-lines") {
            Self::parse_empty_lines_options(map)
        } else if str_eq(rule_name, "hyphens") {
            Self::parse_hyphens_options(map)
        } else if str_eq(rule_name, "comments") {
            Self::parse_comments_options(map)
        } else if str_eq(rule_name, "truthy") {
            Self::parse_truthy_options(map)
        } else if str_eq(rule_name, "document-start") {
            Self::parse_document_start_options(map)
        } else {
            let mut msg = String::from_str("Rule '");
            msg.append(rule_name);
            msg.append("' does not support options");
            Err(LintError::ConfigError(msg))
        }
    }
}


/// The error a preset reference raises, or `None`.
pub open spec fn preset_err(extends: Option<String>) -> Option<Seq<char>> {
    match extends {
        None => None,
        Some(s) => {
            if s@ == "default"@ || s@ == "relaxed"@ {
                None
            } else {
                Some("Unknown preset: "@ + s@)
            }
        },
    }
}

/// The error one rule entry of a configuration document raises, or
/// `None`: the key must be a string, a bare value must name a level,
/// and an option mapping must carry a valid level and valid options.
pub open spec fn entry_err(key: Option<String>, val: RawRuleValue) -> Option<Seq<char>> {
    match key {
        None => Some("Rule name must be a string"@),
        Some(name) => match val {
            RawRuleValue::Level(s) => match level_of_text(s@) {
                Some(_) => None,
                None => Some("Invalid rule level: "@ + s@),
            },
            RawRuleValue::Options(map) => match detailed_level(map@) {
                Err(m) => Some(m),
                Ok(_) => parse_options_err(name@, map@),
            },
            RawRuleValue::Other => Some("Rule value must be a string or mapping"@),
        },
    }
}

/// The first error among the first `n` rule entries, or `None`.
pub open spec fn entries_err(entries: Seq<(Option<String>, RawRuleValue)>, n: int) -> Option<
    Seq<char>,
>
    decreases n,
{
    if n <= 0 {
        None
    } else {
        match entries_err(entries, n - 1) {
            Some(m) => Some(m),
            None => entry_err(entries[n - 1].0, entries[n - 1].1),
        }
    }
}

/// The effective configuration of one rule: its name, its level, and
/// the option mapping it was configured with, if any.
pub open spec fn entry_triple(key: Option<String>, val: RawRuleValue) -> (
    Seq<char>,
    RuleLevel,
    Option<Seq<(String, RawScalar)>>,
) {
    let name = key->0@;
    match val {
        RawRuleValue::Level(s) => (name, level_of_text(s@)->0, None),
        RawRuleValue::Options(map) => (name, detailed_level(map@)->Ok_0, Some(map@)),
        RawRuleValue::Other => (name, RuleLevel::Error, None),
    }
}

/// Index of the first effective entry of that name, or the length.
pub open spec fn find_triple(
    acc: Seq<(Seq<char>, RuleLevel, Option<Seq<(String, RawScalar)>>)>,
    name: Seq<char>,
) -> int
    decreases acc.len(),
{
    if acc.len() == 0 {
        0
    } else if acc[0].0 == name {
        0
    } else {
        1 + find_triple(acc.skip(1), name)
    }
}

/// Applying the first `n` rule entries to a base configuration: each
/// entry replaces the configuration of its rule in place, or appends.
pub open spec fn apply_entries(
    base: Seq<(Seq<char>, RuleLevel, Option<Seq<(String, RawScalar)>>)>,
    entries: Seq<(Option<String>, RawRuleValue)>,
    n: int,
) -> Seq<(Seq<char>, RuleLevel, Option<Seq<(String, RawScalar)>>)>
    decreases n,
{
    if n <= 0 {
        base
    } else {
        let prev = apply_entries(base, entries, n - 1);
        let t = entry_triple(entries[n - 1].0, entries[n - 1].1);
        let i = find_triple(prev, t.0);
        if i < prev.len() {
            prev.update(i, t)
        } else {
            prev.push(t)
        }
    }
}

/// The effective entries of the default preset.
pub open spec fn default_preset_triples() -> Seq<
    (Seq<char>, RuleLevel, Option<Seq<(String, RawScalar)>>),
> {
    seq![
        ("trailing-spaces"@, RuleLevel::Error, None),
        ("line-length"@, RuleLevel::Error, None),
        ("document-start"@, RuleLevel::Disable, None),
        ("colons"@, RuleLevel::Error, None),
        ("key-duplicates"@, RuleLevel::Error, None),
        ("indentation"@, RuleLevel::Error, None),
        ("new-line-at-end-of-file"@, RuleLevel::Error, None),
        ("empty-lines"@, RuleLevel::Error, None),
        ("hyphens"@, RuleLevel::Error, None),
        ("comments"@, RuleLevel::Error, None),
        ("truthy"@, RuleLevel::Warning, None),
    ]
}

/// The effective entries of the relaxed preset.
pub open spec fn relaxed_preset_triples() -> Seq<
    (Seq<char>, RuleLevel, Option<Seq<(String, RawScalar)>>),
> {
    seq![
        ("trailing-spaces"@, RuleLevel::Warning, None),
        ("line-length"@, RuleLevel::Warning, None),
        ("document-start"@, RuleLevel::Disable, None),
        ("colons"@, RuleLevel::Warning, None),
        ("key-duplicates"@, RuleLevel::Error, None),
        ("indentation"@, RuleLevel::Warning, None),
        ("new-line-at-end-of-file"@, RuleLevel::Warning, None),
        ("empty-lines"@, RuleLevel::Warning, None),
        ("hyphens"@, RuleLevel::Warning, None),
        ("comments"@, RuleLevel::Warning, None),
        ("truthy"@, RuleLevel::Warning, None),
    ]
}

/// The effective entries the preset reference seeds.
pub open spec fn base_triples(extends: Option<String>) -> Seq<
    (Seq<char>, RuleLevel, Option<Seq<(String, RawScalar)>>),
> {
    match extends {
        None => Seq::empty(),
        Some(s) => {
            if s@ == "default"@ {
                default_preset_triples()
            } else if s@ == "relaxed"@ {
                relaxed_preset_triples()
            } else {
                Seq::empty()
            }
        },
    }
}

/// The rule entries of a configuration document.
pub open spec fn doc_entries(doc: RawConfig) -> Seq<(Option<String>, RawRuleValue)> {
    match doc.rules {
        Some(v) => v@,
        None => Seq::empty(),
    }
}

/// Whether a configuration's rule list realises the given effective
/// entries: names and levels agree, and each configured option mapping
/// was parsed into options of the right shape.
pub open spec fn rules_realise(
    rules: Seq<(String, RuleConfig)>,
    eff: Seq<(Seq<char>, RuleLevel, Option<Seq<(String, RawScalar)>>)>,
) -> bool {
    &&& rules.len() == eff.len()
    &&& forall|i: int|
        #![trigger rules[i], eff[i]]
        0 <= i < eff.len() ==> {
            &&& (rules[i].0)@ == eff[i].0
            &&& config_level(rules[i].1) == eff[i].1
            &&& match eff[i].2 {
                None => rules[i].1 is Level,
                Some(map) => rules[i].1 matches RuleConfig::Detailed { level: _, options }
                    && options_shape(eff[i].0, map, options),
            }
        }
}

/// Once a rule entry raises an error, the whole scan reports it.
proof fn lemma_entries_err_from(
    entries: Seq<(Option<String>, RawRuleValue)>,
    i: int,
    n: int,
    m: Seq<char>,
)
    requires
        0 <= i < n,
        entries_err(entries, i) is None,
        entry_err(entries[i].0, entries[i].1) == Some(m),
    ensures
        entries_err(entries, n) == Some(m),
    decreases n,
{
    if n > i + 1 {
        lemma_entries_err_from(entries, i, n - 1, m);
    }
}

/// A found effective entry carries the searched name.
proof fn lemma_find_triple_found(
    acc: Seq<(Seq<char>, RuleLevel, Option<Seq<(String, RawScalar)>>)>,
    name: Seq<char>,
)
    ensures
        find_triple(acc, name) < acc.len() ==> 0 <= find_triple(acc, name) && acc[find_triple(
            acc,
            name,
        )].0 == name,
    decreases acc.len(),
{
    if acc.len() > 0 && acc[0].0 != name {
        lemma_find_triple_found(acc.skip(1), name);
        if find_triple(acc, name) < acc.len() {
            assert(acc.skip(1)[find_triple(acc.skip(1), name)] == acc[find_triple(acc, name)]);
        }
    }
}

/// Two first-index searches agree when the name projections agree.
proof fn lemma_find_align(
    rules: Seq<(String, RuleConfig)>,
    eff: Seq<(Seq<char>, RuleLevel, Option<Seq<(String, RawScalar)>>)>,
    name: Seq<char>,
)
    requires
        rules.len() == eff.len(),
        forall|i: int| 0 <= i < eff.len() ==> (#[trigger] rules[i].0)@ == eff[i].0,
    ensures
        find_cfg(rules, name) == find_triple(eff, name),
    decreases rules.len(),
{
    if rules.len() > 0 {
        assert(rules[0].0@ == eff[0].0);
        assert forall|i: int|
            0 <= i < eff.skip(1).len() implies (#[trigger] rules.skip(1)[i].0)@ == eff.skip(
            1,
        )[i].0 by {
            assert(rules.skip(1)[i] == rules[i + 1]);
            assert(eff.skip(1)[i] == eff[i + 1]);
        }
        lemma_find_align(rules.skip(1), eff.skip(1), name);
    }
}

impl Config {
    /// Build a configuration from a raw configuration document: seed
    /// from the named preset, then apply each rule entry in order,
    /// validating levels and options; finally take over the ignore
    /// patterns, one per line.
    pub fn from_raw(doc: &RawConfig) -> (r: Result<Config, LintError>)
        ensures
            match r {
                Ok(c) => {
                    &&& preset_err(doc.extends) is None
                    &&& entries_err(doc_entries(*doc), doc_entries(*doc).len() as int) is None
                    &&& rules_realise(
                        c.rules@,
                        apply_entries(
                            base_triples(doc.extends),
                            doc_entries(*doc),
                            doc_entries(*doc).len() as int,
                        ),
                    )
                    &&& match doc.ignore {
                        Some(s) => c.ignore.deep_view() == split_lines(s@),
                        None => c.ignore@.len() == 0,
                    }
                },
                Err(e) => e matches LintError::ConfigError(t) && (match preset_err(doc.extends) {
                    Some(m) => t@ == m,
                    None => entries_err(doc_entries(*doc), doc_entries(*doc).len() as int) == Some(
                        t@,
                    ),
                }),
            },
    {
        let ghost base = base_triples(doc.extends);
        let mut config = match &doc.extends {
            Some(s) => {
                if str_eq(s.as_str(), "default") {
                    Config::with_default_preset()
                } else if str_eq(s.as_str(), "relaxed") {
                    Config::with_relaxed_preset()
                } else {
                    let mut m = String::from_str("Unknown preset: ");
                    m.append(s.as_str());
                    return Err(LintError::ConfigError(m));
                }
            },
            None => Config::new(),
        };
        proof {
            assert(rules_realise(config.rules@, base));
        }
        let ghost entries_g = doc_entries(*doc);
        match &doc.rules {
            None => {
                assert(entries_g =~= Seq::<(Option<String>, RawRuleValue)>::empty());
            },
            Some(entries) => {
                let n = entries.len();
                let mut i: usize = 0;
                while i < n
                    invariant
                        0 <= i <= n,
                        n == entries@.len(),
                        entries_g == entries@,
                        entries_g == doc_entries(*doc),
                        base == base_triples(doc.extends),
                        preset_err(doc.extends) is None,
                        entries_err(entries_g, i as int) is None,
                        rules_realise(config.rules@, apply_entries(base, entries_g, i as int)),
                        match doc.ignore {
                            Some(_) => true,
                            None => config.ignore@.len() == 0,
                        },
                        config.ignore@.len() == 0,
                    decreases n - i,
                {
                    let ghost eff = apply_entries(base, entries_g, i as int);
                    let name = match &entries[i].0 {
                        Some(nm) => nm,
                        None => {
                            proof {
                                lemma_entries_err_from(
                                    entries_g,
                                    i as int,
                                    entries_g.len() as int,
                                    "Rule name must be a string"@,
                                );
                            }
                            return Err(
                                LintError::ConfigError(
                                    String::from_str("Rule name must be a string"),
                                ),
                            );
                        },
                    };
                    let rc: RuleConfig = match &entries[i].1 {
                        RawRuleValue::Level(s) => {
                            if str_eq(s.as_str(), "error") {
                                RuleConfig::Level(RuleLevel::Error)
                            } else if str_eq(s.as_str(), "warning") {
                                RuleConfig::Level(RuleLevel::Warning)
                            } else if str_eq(s.as_str(), "disable") {
                                RuleConfig::Level(RuleLevel::Disable)
                            } else {
                                proof {
                                    lemma_entries_err_from(
                                        entries_g,
                                        i as int,
                                        entries_g.len() as int,
                                        "Invalid rule level: "@ + s@,
                                    );
                                }
                                let mut m = String::from_str("Invalid rule level: ");
                                m.append(s.as_str());
                                return Err(LintError::ConfigError(m));
                            }
                        },
                        RawRuleValue::Options(map) => {
                            let level: RuleLevel = match raw_lookup(map, "level") {
                                Some(RawScalar::Str(ls)) => {
                                    if str_eq(ls.as_str(), "error") {
                                        RuleLevel::Error
                                    } else if str_eq(ls.as_str(), "warning") {
                                        RuleLevel::Warning
                                    } else if str_eq(ls.as_str(), "disable") {
                                        RuleLevel::Disable
                                    } else {
                                        proof {
                                            lemma_entries_err_from(
                                                entries_g,
                                                i as int,
                                                entries_g.len() as int,
                                                "Invalid rule level: "@ + ls@,
                                            );
                                        }
                                        let mut m = String::from_str("Invalid rule level: ");
                                        m.append(ls.as_str());
                                        return Err(LintError::ConfigError(m));
                                    }
                                },
                                _ => RuleLevel::Error,
                            };
                            let options = match Self::parse_rule_options(name.as_str(), map) {
                                Ok(o) => o,
                                Err(e) => {
                                    proof {
                                        let m = entry_err(
                                            entries_g[i as int].0,
                                            entries_g[i as int].1,
                                        )->Some_0;
                                        lemma_entries_err_from(
                                            entries_g,
                                            i as int,
                                            entries_g.len() as int,
                                            m,
                                        );
                                    }
                                    return Err(e);
                                },
                            };
                            RuleConfig::Detailed { level, options }
                        },
                        RawRuleValue::Other => {
                            proof {
                                lemma_entries_err_from(
                                    entries_g,
                                    i as int,
                                    entries_g.len() as int,
                                    "Rule value must be a string or mapping"@,
                                );
                            }
                            return Err(
                                LintError::ConfigError(
                                    String::from_str("Rule value must be a string or mapping"),
                                ),
                            );
                        },
                    };
                    proof {
                        assert(entry_err(entries_g[i as int].0, entries_g[i as int].1) is None);
                        lemma_find_align(
                            config.rules@,
                            eff,
                            entry_triple(entries_g[i as int].0, entries_g[i as int].1).0,
                        );
                    }
                    let ghost pre_rules = config.rules@;
                    config.set_rule(name.clone(), rc);
                    proof {
                        let t = entry_triple(entries_g[i as int].0, entries_g[i as int].1);
                        let fi = find_triple(eff, t.0);
                        lemma_find_triple_found(eff, t.0);
                        let eff2 = apply_entries(base, entries_g, i + 1);
                        if fi < eff.len() {
                            assert(config.rules@ =~= pre_rules.update(fi, (pre_rules[fi].0, rc)));
                            assert(eff2 == eff.update(fi, t));
                        } else {
                            assert(config.rules@.len() == pre_rules.len() + 1);
                            assert(config.rules@.last().0@ == name@);
                            assert(eff2 == eff.push(t));
                        }
                        assert(config_level(rc) == t.1);
                        assert(t.0 == name@);
                        assert(match t.2 {
                            None => rc is Level,
                            Some(map) => rc matches RuleConfig::Detailed { level: _, options }
                                && options_shape(t.0, map, options),
                        });
                        assert forall|w: int|
                            0 <= w < eff2.len() implies {
                                &&& (#[trigger] config.rules@[w].0)@ == eff2[w].0
                                &&& config_level(config.rules@[w].1) == eff2[w].1
                                &&& match eff2[w].2 {
                                    None => config.rules@[w].1 is Level,
                                    Some(map) => config.rules@[w].1 matches RuleConfig::Detailed {
                                        level: _,
                                        options,
                                    } && options_shape(eff2[w].0, map, options),
                                }
                            } by {
                            if fi < eff.len() {
                                if w != fi {
                                    assert(config.rules@[w] == pre_rules[w]);
                                    assert(eff2[w] == eff[w]);
                                    assert((pre_rules[w].0)@ == eff[w].0 && config_level(
                                        pre_rules[w].1,
                                    ) == eff[w].1);
                                } else {
                                    assert(eff2[w] == t);
                                    assert(config.rules@[w].1 == rc);
                                    assert(config.rules@[w].0 == pre_rules[fi].0);
                                    assert(pre_rules[fi].0@ == eff[fi].0);
                                    assert(eff[fi].0 == t.0);
                                }
                            } else {
                                if w < eff.len() {
                                    assert(config.rules@[w] == pre_rules[w]);
                                    assert(eff2[w] == eff[w]);
                                    assert((pre_rules[w].0)@ == eff[w].0 && config_level(
                                        pre_rules[w].1,
                                    ) == eff[w].1);
                                } else {
                                    assert(eff2[w] == t);
                                    assert(config.rules@[w] == config.rules@.last());
                                    assert(config.rules@[w].1 == rc);
                                }
                            }
                        }
                        assert(rules_realise(config.rules@, eff2));
                    }
                    i = i + 1;
                }
            },
        }
        match &doc.ignore {
            None => {},
            Some(ig) => {
                let cv = chars_of(ig.as_str());
                let pieces = split_char_lines(&cv);
                let mut lines: Vec<String> = Vec::new();
                let mut k: usize = 0;
                while k < pieces.len()
                    invariant
                        0 <= k <= pieces@.len(),
                        lines.deep_view() == pieces.deep_view().take(k as int),
                    decreases pieces@.len() - k,
                {
                    let ghost old_dv = lines.deep_view();
                    let piece_str = string_of(&pieces[k]);
                    lines.push(piece_str);
                    proof {
                        assert(lines.deep_view() =~~= old_dv.push(pieces@[k as int].deep_view()));
                        assert(old_dv.push(pieces@[k as int].deep_view())
                            =~~= pieces.deep_view().take(k as int + 1));
                    }
                    k = k + 1;
                }
                assert(pieces.deep_view().take(pieces@.len() as int) =~= pieces.deep_view());
                config.ignore = lines;
            },
        }
        Ok(config)
    }
}

} // verus!
