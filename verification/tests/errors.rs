use git_atomic::domain::error::{ConfigError, Error, GitError};

#[test]
fn exit_codes_match_spec() {
    assert_eq!(Error::General("x".into()).exit_code(), 1);
    assert_eq!(Error::Config(ConfigError::Invalid { reason: "bad".into() }).exit_code(), 2);
    assert_eq!(Error::Git(GitError::Operation("fail".into())).exit_code(), 3);
    assert_eq!(Error::UnmatchedFiles { paths: vec![] }.exit_code(), 4);
    assert_eq!(Error::DivergedBranch { branch: "a".into(), base: "b".into() }.exit_code(), 5);
}

#[test]
fn messages_match_display() {
    assert_eq!(Error::General("boom".into()).message(), "boom");
    assert_eq!(
        Error::Config(ConfigError::NotFound { path: ".atomic.toml".into() }).message(),
        "config file not found: .atomic.toml"
    );
    assert_eq!(
        Error::Config(ConfigError::InvalidGlob {
            component: "ui".into(),
            pattern: "[x".into(),
            reason: "unclosed".into()
        })
        .message(),
        "invalid glob pattern in component \"ui\": \"[x\": unclosed"
    );
    assert_eq!(Error::Config(ConfigError::Io("denied".into())).message(), "failed to read config: denied");
    assert_eq!(
        Error::Git(GitError::ResolveRef { reference: "nope".into(), reason: "not found".into() }).message(),
        "failed to resolve reference \"nope\": not found"
    );
    assert_eq!(
        Error::Git(GitError::RefUpdate { branch: "refs/heads/x".into(), reason: "locked".into() }).message(),
        "ref update failed for refs/heads/x: locked"
    );
    assert_eq!(
        Error::UnmatchedFiles { paths: vec!["a".into(), "b/c".into()] }.message(),
        "unmatched files: a, b/c"
    );
    assert_eq!(
        Error::DivergedBranch { branch: "refs/heads/atomic/ui".into(), base: "main".into() }.message(),
        "branch refs/heads/atomic/ui has diverged from main"
    );
    assert_eq!(GitError::NotARepo { path: "/tmp".into() }.message(), "not a git repository: /tmp");
    assert_eq!(GitError::TreeEntryNotFound { path: "x".into() }.message(), "tree entry not found: x");
    assert_eq!(GitError::Gix("raw".into()).message(), "raw");
}
