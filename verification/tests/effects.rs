use git_atomic::domain::effect::{
    Effect, PlannedRefEdit, PushExit, REFLOG_MESSAGE, RefExpectation, applies_ref_updates,
    batch_update_error, check_ref_edits, create_dir_error, missing_repository_error, push_args,
    push_outcome, write_file_error,
};
use git_atomic::domain::error::{Error, GitError};

fn edit(name: &str, previous: Option<&str>) -> PlannedRefEdit {
    PlannedRefEdit {
        ref_name: name.to_string(),
        new_id: "1111111111111111111111111111111111111111".to_string(),
        previous: previous.map(String::from),
        component: "app".to_string(),
        created: previous.is_none(),
    }
}

#[test]
fn push_runs_git_push_with_branches() {
    let args = push_args("origin", &vec!["atomic/a".to_string(), "atomic/b".to_string()]);
    assert_eq!(args, vec!["push", "origin", "atomic/a", "atomic/b"]);
}

#[test]
fn expectations_guard_ref_edits() {
    match edit("refs/heads/atomic/app", Some("abc")).expectation() {
        RefExpectation::MustExistAndMatch(id) => assert_eq!(id, "abc"),
        other => panic!("unexpected {other:?}"),
    }
    assert!(matches!(edit("refs/heads/atomic/app", None).expectation(), RefExpectation::MustNotExist));
    assert_eq!(REFLOG_MESSAGE, "git-atomic: atomize");
}

#[test]
fn valid_ref_names_pass() {
    let edits = vec![edit("refs/heads/atomic/app", None), edit("refs/heads/custom/branch", Some("x"))];
    assert!(check_ref_edits(&edits).is_ok());
    assert!(applies_ref_updates(&edits));
    assert!(!applies_ref_updates(&vec![]));
}

#[test]
fn first_invalid_ref_name_is_reported() {
    let edits = vec![
        edit("refs/heads/ok", None),
        edit("refs/heads/bad..name", None),
        edit("refs/heads/also bad", None),
    ];
    match check_ref_edits(&edits) {
        Err(GitError::RefUpdate { branch, reason }) => {
            assert_eq!(branch, "refs/heads/bad..name");
            assert!(reason.starts_with("invalid ref name: "));
            assert!(reason.len() > "invalid ref name: ".len());
        }
        other => panic!("unexpected {other:?}"),
    }
}

#[test]
fn push_outcomes() {
    assert!(push_outcome(Ok(PushExit { success: true, status: "exit status: 0".into() })).is_ok());
    match push_outcome(Ok(PushExit { success: false, status: "exit status: 1".into() })) {
        Err(Error::General(m)) => assert_eq!(m, "git push exited with status exit status: 1"),
        other => panic!("unexpected {other:?}"),
    }
    match push_outcome(Err("No such file or directory (os error 2)".into())) {
        Err(Error::General(m)) => assert_eq!(m, "failed to run git push: No such file or directory (os error 2)"),
        other => panic!("unexpected {other:?}"),
    }
}

#[test]
fn effect_errors() {
    assert_eq!(
        create_dir_error("out/dir", "denied").message(),
        "failed to create directory out/dir: denied"
    );
    assert_eq!(write_file_error("a.toml", "full").message(), "failed to write a.toml: full");
    assert_eq!(missing_repository_error().message(), "RefTransaction requires a repository");
    assert_eq!(
        batch_update_error("locked".into()).message(),
        "ref update failed for batch update: locked"
    );
    let _ = Effect::WriteFile { path: "p".into(), content: "c".into(), structured: None };
}
