//! Error types and their exit codes.
use vstd::prelude::*;
use crate::domain::text::{concat_str, copy_strings, debug_quote, debug_quoted, strings_view};

verus! {

/// Configuration errors (exit code 2).
#[derive(Debug)]
pub enum ConfigError {
    NotFound { path: String },
    Invalid { reason: String },
    InvalidGlob { component: String, pattern: String, reason: String },
    /// Reading the configuration failed; holds the I/O error's text.
    Io(String),
}

/// Git operation errors (exit code 3).
#[derive(Debug)]
pub enum GitError {
    NotARepo { path: String },
    ResolveRef { reference: String, reason: String },
    Operation(String),
    TreeEntryNotFound { path: String },
    RefUpdate { branch: String, reason: String },
    /// A repository could not be opened; holds the underlying error's text.
    Gix(String),
}

/// Top-level error type.
#[derive(Debug)]
pub enum Error {
    General(String),
    Config(ConfigError),
    Git(GitError),
    UnmatchedFiles { paths: Vec<String> },
    DivergedBranch { branch: String, base: String },
}

/// The value of a [`ConfigError`].
pub enum ConfigErrorView {
    NotFound(Seq<char>),
    Invalid(Seq<char>),
    InvalidGlob(Seq<char>, Seq<char>, Seq<char>),
    Io(Seq<char>),
}

impl View for ConfigError {
    type V = ConfigErrorView;

    open spec fn view(&self) -> ConfigErrorView {
        match self {
            ConfigError::NotFound { path } => ConfigErrorView::NotFound(path@),
            ConfigError::Invalid { reason } => ConfigErrorView::Invalid(reason@),
            ConfigError::InvalidGlob { component, pattern, reason } => ConfigErrorView::InvalidGlob(
                component@,
                pattern@,
                reason@,
            ),
            ConfigError::Io(m) => ConfigErrorView::Io(m@),
        }
    }
}

/// The value of a [`GitError`].
pub enum GitErrorView {
    NotARepo(Seq<char>),
    ResolveRef(Seq<char>, Seq<char>),
    Operation(Seq<char>),
    TreeEntryNotFound(Seq<char>),
    RefUpdate(Seq<char>, Seq<char>),
    Gix(Seq<char>),
}

impl View for GitError {
    type V = GitErrorView;

    open spec fn view(&self) -> GitErrorView {
        match self {
            GitError::NotARepo { path } => GitErrorView::NotARepo(path@),
            GitError::ResolveRef { reference, reason } => GitErrorView::ResolveRef(
                reference@,
                reason@,
            ),
            GitError::Operation(m) => GitErrorView::Operation(m@),
            GitError::TreeEntryNotFound { path } => GitErrorView::TreeEntryNotFound(path@),
            GitError::RefUpdate { branch, reason } => GitErrorView::RefUpdate(branch@, reason@),
            GitError::Gix(m) => GitErrorView::Gix(m@),
        }
    }
}

/// The value of an [`Error`].
pub enum ErrorView {
    General(Seq<char>),
    Config(ConfigErrorView),
    Git(GitErrorView),
    UnmatchedFiles(Seq<Seq<char>>),
    DivergedBranch(Seq<char>, Seq<char>),
}

impl View for Error {
    type V = ErrorView;

    open spec fn view(&self) -> ErrorView {
        match self {
            Error::General(m) => ErrorView::General(m@),
            Error::Config(e) => ErrorView::Config(e@),
            Error::Git(e) => ErrorView::Git(e@),
            Error::UnmatchedFiles { paths } => ErrorView::UnmatchedFiles(strings_view(paths@)),
            Error::DivergedBranch { branch, base } => ErrorView::DivergedBranch(branch@, base@),
        }
    }
}

/// The exit code of each kind of error: 1 general, 2 configuration, 3 git,
/// 4 unmatched files, 5 diverged branch.
pub open spec fn spec_exit_code(e: ErrorView) -> u8 {
    match e {
        ErrorView::General(_) => 1,
        ErrorView::Config(_) => 2,
        ErrorView::Git(_) => 3,
        ErrorView::UnmatchedFiles(_) => 4,
        ErrorView::DivergedBranch(_, _) => 5,
    }
}

/// `parts` joined with `sep` between consecutive parts.
pub open spec fn join_with(parts: Seq<Seq<char>>, sep: Seq<char>) -> Seq<char>
    decreases parts.len(),
{
    if parts.len() == 0 {
        seq![]
    } else if parts.len() == 1 {
        parts[0]
    } else {
        join_with(parts.drop_last(), sep) + sep + parts.last()
    }
}

/// Joins strings with a separator.
pub fn join_strings(parts: &Vec<String>, sep: &str) -> (r: String)
    ensures
        r@ == join_with(strings_view(parts@), sep@),
{
    let mut r = String::new();
    let mut i: usize = 0;
    while i < parts.len()
        invariant
            i <= parts@.len(),
            r@ == join_with(strings_view(parts@.take(i as int)), sep@),
        decreases parts@.len() - i,
    {
        let ghost prev = strings_view(parts@.take(i as int));
        if i != 0 {
            r.append(sep);
        }
        r.append(parts[i].as_str());
        proof {
            let next = strings_view(parts@.take(i + 1));
            assert(next.drop_last() =~= prev);
            assert(next.last() == parts@[i as int]@);
        }
        i = i + 1;
    }
    assert(parts@.take(i as int) =~= parts@);
    r
}

/// The message of a configuration error.
pub open spec fn config_error_message(e: ConfigErrorView) -> Seq<char> {
    match e {
        ConfigErrorView::NotFound(p) => "config file not found: "@ + p,
        ConfigErrorView::Invalid(r) => "invalid config: "@ + r,
        ConfigErrorView::InvalidGlob(c, p, r) => "invalid glob pattern in component "@
            + debug_quoted(c) + ": "@ + debug_quoted(p) + ": "@ + r,
        ConfigErrorView::Io(m) => "failed to read config: "@ + m,
    }
}

/// The message of a git error.
pub open spec fn git_error_message(e: GitErrorView) -> Seq<char> {
    match e {
        GitErrorView::NotARepo(p) => "not a git repository: "@ + p,
        GitErrorView::ResolveRef(r, why) => "failed to resolve reference "@ + debug_quoted(r)
            + ": "@ + why,
        GitErrorView::Operation(m) => "git operation failed: "@ + m,
        GitErrorView::TreeEntryNotFound(p) => "tree entry not found: "@ + p,
        GitErrorView::RefUpdate(b, why) => "ref update failed for "@ + b + ": "@ + why,
        GitErrorView::Gix(m) => m,
    }
}

/// The message of an error.
pub open spec fn error_message(e: ErrorView) -> Seq<char> {
    match e {
        ErrorView::General(m) => m,
        ErrorView::Config(c) => config_error_message(c),
        ErrorView::Git(g) => git_error_message(g),
        ErrorView::UnmatchedFiles(ps) => "unmatched files: "@ + join_with(ps, ", "@),
        ErrorView::DivergedBranch(b, base) => "branch "@ + b + " has diverged from "@ + base,
    }
}

impl ConfigError {
    /// The error's message.
    pub fn message(&self) -> (r: String)
        ensures
            r@ == config_error_message(self@),
    {
        match self {
            ConfigError::NotFound { path } => concat_str("config file not found: ", path.as_str()),
            ConfigError::Invalid { reason } => concat_str("invalid config: ", reason.as_str()),
            ConfigError::InvalidGlob { component, pattern, reason } => {
                let r = "invalid glob pattern in component ".to_string();
                let r = r.concat(debug_quote(component.as_str()).as_str());
                let r = r.concat(": ");
                let r = r.concat(debug_quote(pattern.as_str()).as_str());
                let r = r.concat(": ");
                r.concat(reason.as_str())
            },
            ConfigError::Io(m) => concat_str("failed to read config: ", m.as_str()),
        }
    }
}

impl GitError {
    /// The error's message.
    pub fn message(&self) -> (r: String)
        ensures
            r@ == git_error_message(self@),
    {
        match self {
            GitError::NotARepo { path } => concat_str("not a git repository: ", path.as_str()),
            GitError::ResolveRef { reference, reason } => {
                let r = "failed to resolve reference ".to_string();
                let r = r.concat(debug_quote(reference.as_str()).as_str());
                let r = r.concat(": ");
                r.concat(reason.as_str())
            },
            GitError::Operation(m) => concat_str("git operation failed: ", m.as_str()),
            GitError::TreeEntryNotFound { path } => concat_str("tree entry not found: ", path.as_str()),
            GitError::RefUpdate { branch, reason } => {
                let r = concat_str("ref update failed for ", branch.as_str());
                let r = r.concat(": ");
                r.concat(reason.as_str())
            },
            GitError::Gix(m) => m.clone(),
        }
    }
}

impl Error {
    /// Map error to process exit code.
    pub fn exit_code(&self) -> (r: u8)
        ensures
            r == spec_exit_code(self@),
    {
        match self {
            Error::General(_) => 1,
            Error::Config(_) => 2,
            Error::Git(_) => 3,
            Error::UnmatchedFiles { .. } => 4,
            Error::DivergedBranch { .. } => 5,
        }
    }

    /// The error's message.
    pub fn message(&self) -> (r: String)
        ensures
            r@ == error_message(self@),
    {
        match self {
            Error::General(m) => m.clone(),
            Error::Config(e) => e.message(),
            Error::Git(e) => e.message(),
            Error::UnmatchedFiles { paths } => {
                let j = join_strings(paths, ", ");
                concat_str("unmatched files: ", j.as_str())
            },
            Error::DivergedBranch { branch, base } => {
                let r = concat_str("branch ", branch.as_str());
                let r = r.concat(" has diverged from ");
                r.concat(base.as_str())
            },
        }
    }
}

/// A copy of an error.
pub fn copy_error(e: &Error) -> (r: Error)
    ensures
        r@ == e@,
{
    match e {
        Error::General(m) => Error::General(m.clone()),
        Error::Config(c) => Error::Config(
            match c {
                ConfigError::NotFound { path } => ConfigError::NotFound { path: path.clone() },
                ConfigError::Invalid { reason } => ConfigError::Invalid { reason: reason.clone() },
                ConfigError::InvalidGlob { component, pattern, reason } => ConfigError::InvalidGlob {
                    component: component.clone(),
                    pattern: pattern.clone(),
                    reason: reason.clone(),
                },
                ConfigError::Io(m) => ConfigError::Io(m.clone()),
            },
        ),
        Error::Git(g) => Error::Git(
            match g {
                GitError::NotARepo { path } => GitError::NotARepo { path: path.clone() },
                GitError::ResolveRef { reference, reason } => GitError::ResolveRef {
                    reference: reference.clone(),
                    reason: reason.clone(),
                },
                GitError::Operation(m) => GitError::Operation(m.clone()),
                GitError::TreeEntryNotFound { path } => GitError::TreeEntryNotFound { path: path.clone() },
                GitError::RefUpdate { branch, reason } => GitError::RefUpdate {
                    branch: branch.clone(),
                    reason: reason.clone(),
                },
                GitError::Gix(m) => GitError::Gix(m.clone()),
            },
        ),
        Error::UnmatchedFiles { paths } => Error::UnmatchedFiles { paths: copy_strings(paths) },
        Error::DivergedBranch { branch, base } => Error::DivergedBranch {
            branch: branch.clone(),
            base: base.clone(),
        },
    }
}

} // verus!
