//! The command line: its arguments, the commands and how their output is laid out.
pub mod commands;
pub mod layout;
pub mod output;
pub mod paint;

use vstd::prelude::*;

verus! {

/// git-atomic: create atomic commits & branches from a single changeset.
#[derive(Debug)]
pub struct Cli {
    /// Path to config file (`.atomic.toml` by default).
    pub config: String,
    /// Verbosity (each `-v` adds one).
    pub verbose: u8,
    /// Suppress non-error output.
    pub quiet: bool,
    /// Output as JSON.
    pub json: bool,
    /// Preview without mutations.
    pub dry_run: bool,
    pub command: Option<Command>,
}

/// The subcommands.
#[derive(Debug)]
pub enum Command {
    /// Split commit(s) into per-component branches (the default).
    Commit(AtomizeArgs),
    /// Show component/branch status for a commit.
    Status(StatusArgs),
    /// Validate the configuration file.
    Validate,
    /// Generate a starter `.atomic.toml`.
    Init(InitArgs),
}

/// Arguments of `commit`.
#[derive(Debug)]
pub struct AtomizeArgs {
    /// Source commit, or range `start..end` (`HEAD` by default).
    pub source_ref: String,
    /// Force-update diverged branches.
    pub force: bool,
    /// CI mode: split and push, fail on error.
    pub ci_mode: bool,
    /// Push branches after splitting.
    pub push: bool,
    /// Remote to push to (`origin` by default).
    pub remote: String,
}

/// Arguments of `status`.
#[derive(Debug)]
pub struct StatusArgs {
    /// Commit to inspect (`HEAD` by default).
    pub commit: String,
}

/// Arguments of `init`.
#[derive(Debug)]
pub struct InitArgs {
    /// Overwrite an existing configuration file.
    pub force: bool,
}

/// The arguments `commit` runs with when no subcommand is given.
pub open spec fn is_default_commit(c: Command) -> bool {
    c matches Command::Commit(a) && a.source_ref@ == "HEAD"@ && !a.force && !a.ci_mode && !a.push
        && a.remote@ == "origin"@
}

impl AtomizeArgs {
    /// `commit` with every argument at its default: `HEAD`, no force, no CI mode, no push,
    /// remote `origin`.
    pub fn defaults() -> (r: Self)
        ensures
            is_default_commit(Command::Commit(r)),
    {
        AtomizeArgs {
            source_ref: "HEAD".to_string(),
            force: false,
            ci_mode: false,
            push: false,
            remote: "origin".to_string(),
        }
    }
}

impl Cli {
    /// The command to run: the one given, or `commit` with its defaults when none is.
    pub fn into_command(self) -> (r: Command)
        ensures
            match self.command {
                Some(c) => r == c,
                None => is_default_commit(r),
            },
    {
        match self.command {
            Some(c) => c,
            None => Command::Commit(AtomizeArgs::defaults()),
        }
    }
}

} // verus!
pub mod json;
pub mod documents;
