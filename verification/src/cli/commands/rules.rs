//! Arguments of the `rules` subcommand and the rule specifiers shared by other commands.
use vstd::prelude::*;

use crate::cli::commands::output::OutputArgs;
use crate::cli::commands::scan::ConfidenceLevel;

verus! {

/// Which rules to load and enable.
#[derive(Clone, Debug, Default)]
pub struct RuleSpecifierArgs {
    /// Additional files or directories to load rules from.
    pub rules_path: Vec<String>,
    /// Selectors of the rules to enable (`all`, an id, or a dotted id prefix).
    pub rule: Vec<String>,
    /// Selectors of the rules to leave out.
    pub exclude_rule: Vec<String>,
    /// Whether to load the built-in rules.
    pub load_builtins: bool,
}

/// Options of the compiled rule cache.
#[derive(Clone, Debug, Default)]
pub struct RuleCacheArgs {
    /// Cache the compiled rule database between runs.
    pub rule_cache: bool,
    /// Disable the compiled rule database cache.
    pub no_rule_cache: bool,
    /// Directory for the compiled rule cache.
    pub rule_cache_dir: Option<String>,
}

impl RuleCacheArgs {
    /// The cache is used unless it was disabled.
    pub fn enabled(&self) -> (r: bool)
        ensures
            r == !self.no_rule_cache,
    {
        !self.no_rule_cache
    }
}

/// The directory of the compiled rule cache.
#[derive(Clone, Debug, Default)]
pub struct RuleCacheDirArgs {
    /// Directory for the compiled rule cache.
    pub rule_cache_dir: Option<String>,
}

/// Arguments of the `rules` subcommand.
#[derive(Debug)]
pub struct RulesArgs {
    pub command: RulesCommand,
}

/// The actions of the `rules` subcommand.
#[derive(Debug)]
pub enum RulesCommand {
    /// Check rules for problems.
    Check(RulesCheckArgs),
    /// Compile and store the rule cache.
    CompileCache(RulesCompileCacheArgs),
    /// List available rules.
    List(RulesListArgs),
}

/// Arguments of `rules check`.
#[derive(Debug)]
pub struct RulesCheckArgs {
    /// Treat warnings as errors.
    pub warnings_as_errors: bool,
    pub rules: RuleSpecifierArgs,
}

/// Arguments of `rules list`.
#[derive(Debug)]
pub struct RulesListArgs {
    pub rules: RuleSpecifierArgs,
    pub output_args: OutputArgs<RulesListOutputFormat>,
}

/// Arguments of `rules compile-cache`.
#[derive(Debug)]
pub struct RulesCompileCacheArgs {
    pub rules: RuleSpecifierArgs,
    /// Minimum confidence level for rules included in the cache.
    pub confidence: ConfidenceLevel,
    pub cache: RuleCacheDirArgs,
}

/// Output formats of `rules list`.
#[derive(Clone, Copy, Debug, PartialEq, Eq, Structural)]
pub enum RulesListOutputFormat {
    /// A human-friendly text-based format.
    Pretty,
    /// Pretty-printed JSON.
    Json,
}

impl RulesListOutputFormat {
    /// The format's name on the command line.
    pub fn as_str(&self) -> (s: &'static str)
        ensures
            s@ == (match self {
                RulesListOutputFormat::Pretty => "pretty"@,
                RulesListOutputFormat::Json => "json"@,
            }),
    {
        match self {
            RulesListOutputFormat::Pretty => "pretty",
            RulesListOutputFormat::Json => "json",
        }
    }
}

} // verus!
