//! The glob patterns of components, compiled and matched by `globset`.
use vstd::prelude::*;
use globset::{Glob, GlobSet};

verus! {

/// `globset::Glob`, a compiled glob pattern.
#[verifier::external_type_specification]
#[verifier::external_body]
pub struct ExGlob(Glob);

/// `globset::GlobSet`, a set of globs matched together.
#[verifier::external_type_specification]
#[verifier::external_body]
pub struct ExGlobSet(GlobSet);

/// Names what `Glob::new` gives for a pattern: the glob, or the text (`Display`) of the
/// error it reports.
pub uninterp spec fn glob_new_result(pattern: Seq<char>) -> Result<Glob, Seq<char>>;

/// What `Glob::new` reports for a pattern: `None` when it compiles, otherwise the text
/// of its error.
pub open spec fn glob_new_error(pattern: Seq<char>) -> Option<Seq<char>> {
    match glob_new_result(pattern) {
        Ok(_) => None,
        Err(e) => Some(e),
    }
}

/// Names the pattern text that a `Glob` holds (what `Glob::glob` returns).
pub uninterp spec fn glob_text(g: Glob) -> Seq<char>;

/// The glob is the one `Glob::new` makes of its own pattern (with default options).
pub open spec fn from_glob_new(g: Glob) -> bool {
    glob_new_result(glob_text(g)) == Ok::<Glob, Seq<char>>(g)
}

/// Names what `GlobSet::new` gives for globs that `Glob::new` made of these patterns:
/// `None` when the set builds, otherwise the text of the error it reports.
pub uninterp spec fn globset_new_error(patterns: Seq<Seq<char>>) -> Option<Seq<char>>;

/// Names the sequence numbers that `GlobSet::matches` reports for a path on the set that
/// `GlobSet::new` builds from the globs `Glob::new` makes of these patterns.
pub uninterp spec fn globset_match_indices(patterns: Seq<Seq<char>>, path: Seq<char>) -> Seq<usize>;

/// Names what `GlobSet::matches` returns for a set and a path.
pub uninterp spec fn globset_matched(s: GlobSet, path: Seq<char>) -> Seq<usize>;

/// The pattern texts of a sequence of globs.
pub open spec fn glob_texts(gs: Seq<Glob>) -> Seq<Seq<char>> {
    gs.map_values(|g: Glob| glob_text(g))
}

/// Calls `Glob::new`. Claimed: it gives `glob_new_result` of the pattern (an error as
/// its text), and a built glob holds the pattern it was built from.
#[verifier::external_body]
pub fn glob_new(pattern: &str) -> (r: Result<Glob, String>)
    ensures
        match r {
            Ok(g) => glob_new_result(pattern@) == Ok::<Glob, Seq<char>>(g) && glob_text(g) == pattern@,
            Err(e) => glob_new_result(pattern@) == Err::<Glob, Seq<char>>(e@),
        },
{
    match Glob::new(pattern) {
        Ok(g) => Ok(g),
        Err(e) => Err(e.to_string()),
    }
}

/// Calls `GlobSet::new` on globs that `Glob::new` made. Claimed: it succeeds exactly
/// when `globset_new_error` of their patterns is `None`, an error carries that text, and
/// on the set built `GlobSet::matches` reports, for every path, `globset_match_indices`
/// of the patterns, each number the position of one of the globs. The set itself keeps
/// only its matching strategies, not the patterns; nothing is claimed of its contents.
#[verifier::external_body]
pub fn globset_new(globs: Vec<Glob>) -> (r: Result<GlobSet, String>)
    requires
        forall|i: int| 0 <= i < globs@.len() ==> from_glob_new(#[trigger] globs@[i]),
    ensures
        r is Ok <==> globset_new_error(glob_texts(globs@)) is None,
        r matches Err(e) ==> globset_new_error(glob_texts(globs@)) == Some(e@),
        r matches Ok(s) ==> forall|p: Seq<char>|
            #[trigger] globset_matched(s, p) == globset_match_indices(glob_texts(globs@), p),
        r matches Ok(s) ==> forall|p: Seq<char>, i: int|
            0 <= i < globset_matched(s, p).len() ==> #[trigger] globset_matched(s, p)[i]
                < globs@.len(),
{
    match GlobSet::new(globs) {
        Ok(s) => Ok(s),
        Err(e) => Err(e.to_string()),
    }
}

/// Calls `GlobSet::matches` on a path. Claimed: the result is `globset_matched` of the
/// set and the path, and (as the crate sorts and dedups it) strictly ascending.
#[verifier::external_body]
pub fn globset_matches(set: &GlobSet, path: &str) -> (r: Vec<usize>)
    ensures
        r@ == globset_matched(*set, path@),
        forall|i: int, j: int| 0 <= i < j < r@.len() ==> r@[i] < r@[j],
{
    set.matches(std::path::Path::new(path))
}

} // verus!
