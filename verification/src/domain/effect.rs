//! Side effects that commands plan, to be carried out (or previewed) at the edge.
use vstd::prelude::*;
use crate::cli::json::JsonDoc;
use crate::domain::error::{Error, ErrorView, GitError, GitErrorView};
use crate::domain::text::{concat_str, strings_view};

verus! {

/// A planned reference edit for atomic batch updates. Commits are named by their
/// hexadecimal object ids.
#[derive(Debug)]
pub struct PlannedRefEdit {
    pub ref_name: String,
    pub new_id: String,
    pub previous: Option<String>,
    pub component: String,
    pub created: bool,
}

/// What a reference must hold for an edit to apply.
#[derive(Debug)]
pub enum RefExpectation {
    /// The reference must exist and point at this commit.
    MustExistAndMatch(String),
    /// The reference must not exist yet.
    MustNotExist,
}

impl PlannedRefEdit {
    /// The precondition of the edit: an existing branch must still be where it was seen,
    /// a new one must still be absent.
    pub fn expectation(&self) -> (r: RefExpectation)
        ensures
            match self.previous {
                Some(p) => r matches RefExpectation::MustExistAndMatch(q) && q@ == p@,
                None => r is MustNotExist,
            },
    {
        match &self.previous {
            Some(p) => RefExpectation::MustExistAndMatch(p.clone()),
            None => RefExpectation::MustNotExist,
        }
    }
}

/// A side effect that a command wants to perform.
#[derive(Debug)]
pub enum Effect {
    /// Atomic batch ref update (preserves all-or-nothing semantics).
    RefTransaction { repo_path: String, edits: Vec<PlannedRefEdit> },
    /// Push branches to a remote via `git push`.
    Push { remote: String, branches: Vec<String> },
    /// Write a file to disk; `structured` is the content's structure as JSON, when it
    /// has one (shown instead of the text in a JSON preview).
    WriteFile { path: String, content: String, structured: Option<JsonDoc> },
}

/// The arguments of the `git push` that pushes branches to a remote.
pub open spec fn spec_push_args(remote: Seq<char>, branches: Seq<Seq<char>>) -> Seq<Seq<char>> {
    seq!["push"@, remote] + branches
}

/// The arguments of the `git push` that pushes branches to a remote.
pub fn push_args(remote: &str, branches: &Vec<String>) -> (r: Vec<String>)
    ensures
        strings_view(r@) == spec_push_args(remote@, strings_view(branches@)),
{
    let mut r: Vec<String> = vec!["push".to_string(), remote.to_string()];
    let mut i: usize = 0;
    while i < branches.len()
        invariant
            i <= branches@.len(),
            strings_view(r@) == spec_push_args(remote@, strings_view(branches@.take(i as int))),
        decreases branches@.len() - i,
    {
        let ghost before = r@;
        r.push(branches[i].clone());
        assert(strings_view(branches@.take(i + 1)) =~= strings_view(branches@.take(i as int)).push(
            branches@[i as int]@,
        ));
        assert(strings_view(r@) =~= strings_view(before).push(branches@[i as int]@));
        i = i + 1;
    }
    assert(branches@.take(i as int) =~= branches@);
    r
}

/// Whether a batch of ref edits is handed to the repository: only a non-empty one.
pub fn applies_ref_updates(edits: &Vec<PlannedRefEdit>) -> (r: bool)
    ensures
        r == (edits@.len() > 0),
{
    edits.len() > 0
}

/// The message recorded in the reflog for every ref edit.
pub const REFLOG_MESSAGE: &'static str = "git-atomic: atomize";

/// The ref names of a batch of edits.
pub open spec fn edit_names(edits: Seq<PlannedRefEdit>) -> Seq<Seq<char>> {
    edits.map_values(|e: PlannedRefEdit| e.ref_name@)
}

/// The error for a ref name that is not a valid full reference name.
pub open spec fn invalid_ref_name(name: Seq<char>, why: Seq<char>) -> GitErrorView {
    GitErrorView::RefUpdate(name, "invalid ref name: "@ + why)
}

/// Checking the names of a batch in order: the first name that is not a valid full
/// reference name is reported; otherwise the batch may be applied.
pub open spec fn spec_check_ref_names(names: Seq<Seq<char>>) -> Result<(), GitErrorView>
    decreases names.len(),
{
    if names.len() == 0 {
        Ok(())
    } else {
        match spec_check_ref_names(names.drop_last()) {
            Err(e) => Err(e),
            Ok(_) => match full_ref_name_error(names.last()) {
                Some(why) => Err(invalid_ref_name(names.last(), why)),
                None => Ok(()),
            },
        }
    }
}

/// The value of a checking result.
pub open spec fn git_result_view(r: Result<(), GitError>) -> Result<(), GitErrorView> {
    match r {
        Ok(_) => Ok(()),
        Err(e) => Err(e@),
    }
}

/// Check, before anything is written, that every edit of a batch names a valid full
/// reference; the first that does not is reported.
pub fn check_ref_edits(edits: &Vec<PlannedRefEdit>) -> (r: Result<(), GitError>)
    ensures
        git_result_view(r) == spec_check_ref_names(edit_names(edits@)),
{
    let mut i: usize = 0;
    while i < edits.len()
        invariant
            i <= edits@.len(),
            spec_check_ref_names(edit_names(edits@.take(i as int))) is Ok,
        decreases edits@.len() - i,
    {
        let ghost prev = edit_names(edits@.take(i as int));
        let ghost next = edit_names(edits@.take(i + 1));
        assert(next.drop_last() =~= prev);
        assert(next.last() == edits@[i as int].ref_name@);
        let name = &edits[i].ref_name;
        match check_full_ref_name(name.as_str()) {
            Err(why) => {
                proof {
                    assert(edit_names(edits@).take(i + 1) =~= next);
                    assert(spec_check_ref_names(next) == Err::<(), GitErrorView>(
                        invalid_ref_name(name@, why@),
                    ));
                    lemma_check_prefix_err(edit_names(edits@), i as int + 1);
                }
                let reason = concat_str("invalid ref name: ", why.as_str());
                return Err(GitError::RefUpdate { branch: name.clone(), reason });
            },
            Ok(()) => {},
        }
        i = i + 1;
    }
    assert(edits@.take(i as int) =~= edits@);
    Ok(())
}

/// Once the check of a prefix fails, the check of the whole fails the same way.
proof fn lemma_check_prefix_err(names: Seq<Seq<char>>, k: int)
    requires
        0 <= k <= names.len(),
        spec_check_ref_names(names.take(k)) is Err,
    ensures
        spec_check_ref_names(names) == spec_check_ref_names(names.take(k)),
    decreases names.len() - k,
{
    if k < names.len() {
        assert(names.take(k + 1).drop_last() =~= names.take(k));
        lemma_check_prefix_err(names, k + 1);
    } else {
        assert(names.take(k) =~= names);
    }
}

/// The error when the repository rejects a batch of ref edits.
pub fn batch_update_error(reason: String) -> (r: GitError)
    ensures
        r@ == GitErrorView::RefUpdate("batch update"@, reason@),
{
    GitError::RefUpdate { branch: "batch update".to_string(), reason }
}

/// The error when ref edits are to be applied without a repository.
pub fn missing_repository_error() -> (r: Error)
    ensures
        r@ == ErrorView::General("RefTransaction requires a repository"@),
{
    Error::General("RefTransaction requires a repository".to_string())
}

/// How a `git push` ended: whether it succeeded, and its exit status as text.
pub struct PushExit {
    pub success: bool,
    pub status: String,
}

/// The outcome of a push: the process could not be started (its error's text), or it ran
/// and exited.
pub open spec fn spec_push_outcome(started: Result<(bool, Seq<char>), Seq<char>>) -> Result<(), ErrorView> {
    match started {
        Err(e) => Err(ErrorView::General("failed to run git push: "@ + e)),
        Ok((success, status)) => if success {
            Ok(())
        } else {
            Err(ErrorView::General("git push exited with status "@ + status))
        },
    }
}

/// The value of a command's result.
pub open spec fn unit_result_view(r: Result<(), Error>) -> Result<(), ErrorView> {
    match r {
        Ok(_) => Ok(()),
        Err(e) => Err(e@),
    }
}

/// What a push's ending means for the command.
pub fn push_outcome(started: Result<PushExit, String>) -> (r: Result<(), Error>)
    ensures
        unit_result_view(r) == spec_push_outcome(
            match started {
                Ok(x) => Ok((x.success, x.status@)),
                Err(e) => Err(e@),
            },
        ),
{
    match started {
        Err(e) => Err(Error::General(concat_str("failed to run git push: ", e.as_str()))),
        Ok(x) => if x.success {
            Ok(())
        } else {
            Err(Error::General(concat_str("git push exited with status ", x.status.as_str())))
        },
    }
}

/// The error when the directory of a file to write cannot be created.
pub fn create_dir_error(dir: &str, why: &str) -> (r: Error)
    ensures
        r@ == ErrorView::General("failed to create directory "@ + dir@ + ": "@ + why@),
{
    let m = concat_str("failed to create directory ", dir);
    let m = m.concat(": ");
    Error::General(m.concat(why))
}

/// The error when a file cannot be written.
pub fn write_file_error(path: &str, why: &str) -> (r: Error)
    ensures
        r@ == ErrorView::General("failed to write "@ + path@ + ": "@ + why@),
{
    let m = concat_str("failed to write ", path);
    let m = m.concat(": ");
    Error::General(m.concat(why))
}

} // verus!

verus! {

/// Names what `gix::refs::FullName::try_from` reports for a name: `None` when it is a
/// valid full reference name, otherwise the text (`Display`) of the validation error.
/// Validation looks at the name alone.
pub uninterp spec fn full_ref_name_error(name: Seq<char>) -> Option<Seq<char>>;

/// Calls `gix::refs::FullName::try_from(&str)`. Claimed: it fails exactly when
/// `full_ref_name_error` names an error, and then carries that text.
#[verifier::external_body]
fn check_full_ref_name(name: &str) -> (r: Result<(), String>)
    ensures
        r is Ok <==> full_ref_name_error(name@) is None,
        r matches Err(e) ==> full_ref_name_error(name@) == Some(e@),
{
    match gix::refs::FullName::try_from(name) {
        Ok(_) => Ok(()),
        Err(e) => Err(e.to_string()),
    }
}

} // verus!
