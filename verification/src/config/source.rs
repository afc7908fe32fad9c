//! Where a configuration value came from.
use vstd::prelude::*;

verus! {

/// Tracks where a configuration value came from.
#[derive(Debug, Clone, Copy, PartialEq, Eq, Structural)]
pub enum ConfigSource {
    /// Hardcoded default value.
    Default,
    /// Git config (system < global < local < worktree, merged by gix).
    GitConfig,
    /// `.atomic.toml` file.
    File,
    /// `GIT_ATOMIC_*` environment variable.
    Env,
    /// CLI argument (reserved — unused this phase).
    Cli,
}

/// The short label of each source.
pub open spec fn source_label(s: ConfigSource) -> Seq<char> {
    match s {
        ConfigSource::Default => "default"@,
        ConfigSource::GitConfig => "git config"@,
        ConfigSource::File => ".atomic.toml"@,
        ConfigSource::Env => "env"@,
        ConfigSource::Cli => "cli"@,
    }
}

impl ConfigSource {
    /// Short label for status output.
    pub fn label(&self) -> (r: &'static str)
        ensures
            r@ == source_label(*self),
    {
        match self {
            ConfigSource::Default => "default",
            ConfigSource::GitConfig => "git config",
            ConfigSource::File => ".atomic.toml",
            ConfigSource::Env => "env",
            ConfigSource::Cli => "cli",
        }
    }
}

/// A configuration value with its provenance.
#[derive(Debug)]
pub struct Sourced<T> {
    pub value: T,
    pub source: ConfigSource,
}

impl<T> Sourced<T> {
    pub fn new(value: T, source: ConfigSource) -> (r: Self)
        ensures
            r.value == value,
            r.source == source,
    {
        Self { value, source }
    }
}

} // verus!
