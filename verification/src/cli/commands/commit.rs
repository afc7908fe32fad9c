//! `commit`: split a commit, or a range of commits, into per-component branches.
use vstd::prelude::*;
use crate::cli::AtomizeArgs;
use crate::config::layered::ResolvedConfig;
use crate::domain::effect::{Effect, PlannedRefEdit};
use crate::domain::error::{Error, ErrorView, GitError, GitErrorView};
use crate::domain::refspec::{RefSpec, RefSpecModel, spec_parse};
use crate::domain::text::{concat_str, strings_view};
use crate::git::atomize::AtomicResult;

verus! {

/// The error when the configuration defines no component.
pub open spec fn no_components_error() -> ErrorView {
    ErrorView::General(
        "No components defined. Create .atomic.toml with [[components]] or run git-atomic init."@,
    )
}

/// There must be at least one component to split into.
pub fn require_components(resolved: &ResolvedConfig) -> (r: Result<(), Error>)
    ensures
        resolved.components@.len() > 0 <==> r is Ok,
        r matches Err(e) ==> e@ == no_components_error(),
{
    if resolved.components.len() == 0 {
        Err(
            Error::General(
                "No components defined. Create .atomic.toml with [[components]] or run git-atomic init.".to_string(),
            ),
        )
    } else {
        Ok(())
    }
}

/// The source of the split, parsed; a malformed one is a general error with the parse
/// error's message.
pub fn parse_source(source_ref: &str) -> (r: Result<RefSpec, Error>)
    ensures
        match spec_parse(source_ref@) {
            Ok(m) => r matches Ok(s) && s@ == m,
            Err(msg) => r matches Err(e) && e@ == ErrorView::General(msg),
        },
{
    match RefSpec::parse(source_ref) {
        Ok(s) => Ok(s),
        Err(e) => Err(Error::General(e)),
    }
}

/// The error when one side of a range cannot be resolved: which side, the range, and
/// why.
pub open spec fn range_side_message(
    left: bool,
    start: Seq<char>,
    end: Seq<char>,
    why: Seq<char>,
) -> Seq<char> {
    "could not resolve '"@ + (if left {
        start
    } else {
        end
    }) + "' ("@ + (if left {
        "left"@
    } else {
        "right"@
    }) + " side of range '"@ + start + ".."@ + end + "'): "@ + why
}

/// The error when one side of a range cannot be resolved.
pub fn range_side_error(left: bool, start: &str, end: &str, why: &str) -> (r: GitError)
    ensures
        r@ == GitErrorView::Operation(range_side_message(left, start@, end@, why@)),
{
    let m = concat_str("could not resolve '", if left {
        start
    } else {
        end
    });
    let m = m.concat("' (").concat(if left {
        "left"
    } else {
        "right"
    });
    let m = m.concat(" side of range '").concat(start).concat("..").concat(end);
    let m = m.concat("'): ").concat(why);
    GitError::Operation(m)
}

/// The branches of the results, in order.
pub open spec fn result_branches(rs: Seq<AtomicResult>) -> Seq<Seq<char>> {
    rs.map_values(|r: AtomicResult| r.branch@)
}

/// After a split, the branches are pushed to the remote when asked (push or CI mode) and
/// there is something to push.
pub fn push_effect(args: &AtomizeArgs, results: &Vec<AtomicResult>) -> (r: Option<Effect>)
    ensures
        ((args.push || args.ci_mode) && results@.len() > 0) <==> r is Some,
        r matches Some(e) ==> e matches Effect::Push { remote, branches } && remote@
            == args.remote@ && strings_view(branches@) == result_branches(results@),
{
    if !((args.push || args.ci_mode) && results.len() > 0) {
        return None;
    }
    let mut branches: Vec<String> = Vec::new();
    let mut i: usize = 0;
    while i < results.len()
        invariant
            i <= results@.len(),
            strings_view(branches@) == result_branches(results@.take(i as int)),
        decreases results@.len() - i,
    {
        let ghost before = strings_view(branches@);
        branches.push(results[i].branch.clone());
        assert(strings_view(branches@) =~= before.push(results@[i as int].branch@));
        assert(result_branches(results@.take(i + 1)) =~= result_branches(results@.take(i as int)).push(
            results@[i as int].branch@,
        ));
        i = i + 1;
    }
    assert(results@.take(i as int) =~= results@);
    Some(Effect::Push { remote: args.remote.clone(), branches })
}

/// A push is wanted after a split: asked for (push or CI mode) and something to push.
pub open spec fn push_wanted(args: AtomizeArgs, results: Seq<AtomicResult>) -> bool {
    (args.push || args.ci_mode) && results.len() > 0
}

/// The effects of a split, in the order they run: the batch of ref edits, when there is
/// one, then the push of the result branches, when wanted. Effects run in order and
/// stop at the first failure, so the push runs only after the ref edits succeeded.
pub fn commit_effects(
    repo_path: String,
    edits: Vec<PlannedRefEdit>,
    args: &AtomizeArgs,
    results: &Vec<AtomicResult>,
) -> (r: Vec<Effect>)
    ensures
        r@.len() == (if edits@.len() > 0 { 1int } else { 0int }) + (if push_wanted(*args, results@) {
            1int
        } else {
            0int
        }),
        edits@.len() > 0 ==> (r@[0] matches Effect::RefTransaction { repo_path: p, edits: e }
            && p@ == repo_path@ && e@ == edits@),
        push_wanted(*args, results@) ==> (r@.last() matches Effect::Push { remote, branches }
            && remote@ == args.remote@ && strings_view(branches@) == result_branches(results@)),
{
    let mut effects: Vec<Effect> = Vec::new();
    if edits.len() > 0 {
        effects.push(Effect::RefTransaction { repo_path, edits });
    }
    match push_effect(args, results) {
        Some(p) => {
            effects.push(p);
        },
        None => {},
    }
    effects
}

} // verus!
