//! The linter facade: a configuration-derived registry applied to one
//! document at a time.

use vstd::prelude::*;

use crate::config::Config;
use crate::problem::{problem_le, LintProblem};
use crate::rules::{all_problems, sort_spec, split_lines, LintContext, RuleRegistry};
use crate::LintError;

verus! {

/// Main linter that orchestrates the linting process.
#[derive(Debug)]
pub struct Linter {
    config: Config,
    registry: RuleRegistry,
}

impl Linter {
    /// The configuration the linter was built from.
    pub closed spec fn config_view(&self) -> Config {
        self.config
    }

    /// The registry the linter checks with.
    pub closed spec fn registry_view(&self) -> RuleRegistry {
        self.registry
    }

    /// Create a new linter with the given configuration.
    pub fn new(config: Config) -> (r: Linter)
        ensures
            r.config_view() == config,
            config.rules@.len() == 0 ==> crate::rules::is_default_registry(
                r.registry_view().entries_view(),
            ),
            config.rules@.len() > 0 && crate::config::cfg_names_unique(config.rules@) ==> ({
                let eff = crate::config::configured_entries(
                    config.rules@,
                    config.rules@.len() as int,
                );
                &&& r.registry_view().entries_view().len() == eff.len()
                &&& forall|i: int|
                    0 <= i < eff.len() ==> {
                        &&& crate::rules::rule_name_of(
                            #[trigger] r.registry_view().entries_view()[i].rule,
                        ) == eff[i].0
                        &&& r.registry_view().entries_view()[i].level == eff[i].1
                        &&& crate::config::kind_shape(
                            eff[i].0,
                            eff[i].2,
                            r.registry_view().entries_view()[i].rule,
                        )
                    }
            }),
    {
        let registry = config.create_registry();
        Linter { config, registry }
    }

    /// Create a linter with the default configuration.
    pub fn with_defaults() -> (r: Linter)
        ensures
            crate::config::is_default_preset(r.config_view().rules@),
    {
        Self::new(Config::with_default_preset())
    }

    /// Lint a document given as text: every enabled rule's problems,
    /// sorted by position.  Checking itself cannot fail.
    pub fn lint_string(&self, content: &str) -> (r: Result<Vec<LintProblem>, LintError>)
        ensures
            r matches Ok(problems) && problems.deep_view() == sort_spec(
                all_problems(
                    self.registry_view().entries_view(),
                    content@,
                    split_lines(content@),
                ),
            ),
            r matches Ok(problems) ==> forall|a: int, b: int|
                0 <= a < b < problems.deep_view().len() ==> problem_le(
                    #[trigger] problems.deep_view()[a],
                    #[trigger] problems.deep_view()[b],
                ),
    {
        let owned = <String as vstd::string::StringExecFns>::from_str(content);
        let context = LintContext::new(owned);
        let problems = self.registry.check_all(&context);
        Ok(problems)
    }

    /// Get a reference to the configuration.
    pub fn config(&self) -> (r: &Config)
        ensures
            *r == self.config_view(),
    {
        &self.config
    }
}

} // verus!
