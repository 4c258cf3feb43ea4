//! The settings of a project.
use vstd::prelude::*;

verus! {

/// The settings of a project.
#[derive(Debug, Clone)]
pub struct Config {
    pub output: OutputConfig,
    pub integration: IntegrationConfig,
    pub context: ContextConfig,
}

/// How listings are written.
#[derive(Debug, Clone)]
pub struct OutputConfig {
    /// `human` or `json`.
    pub default_format: String,
    /// Read the shared task files before `list` and `next`.
    pub auto_sync: bool,
}

/// How the tracker works with other tools.
#[derive(Debug, Clone)]
pub struct IntegrationConfig {
    /// Move files with `git mv`.
    pub git_mv_hook: bool,
}

/// What a task's context holds of its linked files.
#[derive(Debug, Clone)]
pub struct ContextConfig {
    /// `paths_only` or `raw_content`.
    pub strategy: String,
}

impl Default for Config {
    /// Human output with automatic sync, moves through `git mv`, and linked
    /// files listed by path only.
    fn default() -> (r: Config)
        ensures
            r.output.default_format@ == "human"@,
            r.output.auto_sync,
            r.integration.git_mv_hook,
            r.context.strategy@ == "paths_only"@,
    {
        Config {
            output: OutputConfig { default_format: String::from_str("human"), auto_sync: true },
            integration: IntegrationConfig { git_mv_hook: true },
            context: ContextConfig { strategy: String::from_str("paths_only") },
        }
    }
}

} // verus!
