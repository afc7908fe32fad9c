//! Maps file paths to components, first match wins.
use vstd::prelude::*;
use globset::{Glob, GlobSet};
use crate::config::types::{ComponentView, Config, components_view};
use crate::domain::text::strings_view;
use crate::domain::error::{ConfigError, ConfigErrorView};
use crate::domain::globs::{
    glob_new, glob_new_error, glob_texts, globset_match_indices, globset_matches,
    globset_new, globset_new_error, globset_matched, from_glob_new,
};

verus! {

/// The glob patterns of all components, in configuration order.
pub open spec fn all_patterns(cs: Seq<ComponentView>) -> Seq<Seq<char>>
    decreases cs.len(),
{
    if cs.len() == 0 {
        seq![]
    } else {
        all_patterns(cs.drop_last()) + cs.last().globs
    }
}

/// For each pattern of [`all_patterns`], the index of the component it belongs to.
pub open spec fn all_owners(cs: Seq<ComponentView>) -> Seq<int>
    decreases cs.len(),
{
    if cs.len() == 0 {
        seq![]
    } else {
        all_owners(cs.drop_last()) + Seq::new(cs.last().globs.len(), |j: int| cs.len() - 1)
    }
}

/// The position of the first pattern that `Glob::new` refuses, if any.
pub open spec fn first_invalid_in(gs: Seq<Seq<char>>) -> Option<int>
    decreases gs.len(),
{
    if gs.len() == 0 {
        None
    } else {
        match first_invalid_in(gs.drop_last()) {
            Some(j) => Some(j),
            None => if glob_new_error(gs.last()) is Some {
                Some(gs.len() - 1)
            } else {
                None
            },
        }
    }
}

/// The first (component, pattern) position, in configuration order, whose pattern
/// `Glob::new` refuses, if any.
pub open spec fn first_invalid_glob(cs: Seq<ComponentView>) -> Option<(int, int)>
    decreases cs.len(),
{
    if cs.len() == 0 {
        None
    } else {
        match first_invalid_glob(cs.drop_last()) {
            Some(p) => Some(p),
            None => match first_invalid_in(cs.last().globs) {
                Some(j) => Some((cs.len() - 1, j)),
                None => None,
            },
        }
    }
}

/// Owner indices as integers.
pub open spec fn owners_view(v: Seq<usize>) -> Seq<int> {
    v.map_values(|o: usize| o as int)
}

/// The component names, in order.
pub open spec fn names_of(cs: Seq<ComponentView>) -> Seq<Seq<char>> {
    cs.map_values(|c: ComponentView| c.name)
}

/// Maps file paths to components using first-match-wins.
///
/// Each glob is tagged with its component index; when several globs match,
/// the lowest component index wins.
pub struct ComponentMatcher {
    glob_set: GlobSet,
    /// The pattern of each glob in the set, in order.
    patterns: Vec<String>,
    /// For each glob in the set: the index of its component.
    glob_owners: Vec<usize>,
    /// Component names in config order.
    component_names: Vec<String>,
}

/// The value of a [`ComponentMatcher`].
pub struct MatcherView {
    pub patterns: Seq<Seq<char>>,
    pub owners: Seq<int>,
    pub names: Seq<Seq<char>>,
}

impl View for ComponentMatcher {
    type V = MatcherView;

    closed spec fn view(&self) -> MatcherView {
        MatcherView {
            patterns: strings_view(self.patterns@),
            owners: owners_view(self.glob_owners@),
            names: strings_view(self.component_names@),
        }
    }
}

/// A matcher value is well formed: one owner per pattern, each naming a component.
pub open spec fn matcher_wf(m: MatcherView) -> bool {
    &&& m.owners.len() == m.patterns.len()
    &&& forall|i: int| 0 <= i < m.owners.len() ==> 0 <= #[trigger] m.owners[i] < m.names.len()
}

/// The least owner among the matched globs `l` (`l` non-empty).
pub open spec fn min_owner(owners: Seq<int>, l: Seq<usize>) -> int
    decreases l.len(),
{
    if l.len() <= 1 {
        owners[l[0] as int]
    } else {
        let m = min_owner(owners, l.drop_last());
        let o = owners[l.last() as int];
        if o < m {
            o
        } else {
            m
        }
    }
}

/// The index of the component a path belongs to: the least component index among the
/// globs that match it; `None` when no glob matches.
pub open spec fn spec_match_index(m: MatcherView, path: Seq<char>) -> Option<int> {
    let l = globset_match_indices(m.patterns, path);
    if l.len() == 0 {
        None
    } else {
        Some(min_owner(m.owners, l))
    }
}

/// The name [`ComponentMatcher::match_file`] gives for a path.
pub open spec fn spec_match_name(m: MatcherView, path: Seq<char>) -> Option<Seq<char>> {
    match spec_match_index(m, path) {
        Some(c) => Some(m.names[c]),
        None => None,
    }
}

/// The view of an optional string slice.
pub open spec fn opt_str_view(o: Option<&str>) -> Option<Seq<char>> {
    match o {
        Some(s) => Some(s@),
        None => None,
    }
}

/// The least owner is the owner of some matched glob, and no matched glob has a smaller one.
pub proof fn lemma_min_owner(owners: Seq<int>, l: Seq<usize>)
    requires
        l.len() >= 1,
    ensures
        exists|k: int| 0 <= k < l.len() && owners[l[k] as int] == min_owner(owners, l),
        forall|k: int| 0 <= k < l.len() ==> min_owner(owners, l) <= owners[l[k] as int],
    decreases l.len(),
{
    if l.len() == 1 {
        assert(owners[l[0] as int] == min_owner(owners, l));
    } else {
        let d = l.drop_last();
        lemma_min_owner(owners, d);
        let m = min_owner(owners, d);
        let o = owners[l.last() as int];
        if o < m {
            assert(owners[l[l.len() - 1] as int] == min_owner(owners, l));
        } else {
            let k = choose|k: int| 0 <= k < d.len() && owners[d[k] as int] == m;
            assert(owners[l[k] as int] == min_owner(owners, l));
        }
        assert forall|k: int| 0 <= k < l.len() implies min_owner(owners, l) <= owners[
            l[k] as int
        ] by {
            if k < l.len() - 1 {
                assert(l[k] == d[k]);
            }
        }
    }
}

/// First match wins: a path belongs to the earliest component that has a glob matching
/// it, and to no component when no glob matches.
pub proof fn lemma_first_match_wins(m: MatcherView, path: Seq<char>)
    ensures
        ({
            let l = globset_match_indices(m.patterns, path);
            match spec_match_index(m, path) {
                None => l.len() == 0,
                Some(c) => {
                    &&& exists|k: int| 0 <= k < l.len() && m.owners[l[k] as int] == c
                    &&& forall|k: int| 0 <= k < l.len() ==> c <= m.owners[l[k] as int]
                },
            }
        }),
{
    let l = globset_match_indices(m.patterns, path);
    if l.len() > 0 {
        lemma_min_owner(m.owners, l);
    }
}

proof fn lemma_patterns_step(cs: Seq<ComponentView>, i: int)
    requires
        0 <= i < cs.len(),
    ensures
        all_patterns(cs.take(i + 1)) == all_patterns(cs.take(i)) + cs[i].globs,
        all_owners(cs.take(i + 1)) == all_owners(cs.take(i)) + Seq::new(
            cs[i].globs.len(),
            |j: int| i,
        ),
        first_invalid_glob(cs.take(i + 1)) == (match first_invalid_glob(cs.take(i)) {
            Some(p) => Some(p),
            None => match first_invalid_in(cs[i].globs) {
                Some(j) => Some((i, j)),
                None => None,
            },
        }),
{
    assert(cs.take(i + 1).drop_last() =~= cs.take(i));
    assert(cs.take(i + 1).last() == cs[i]);
    assert(Seq::new(cs.take(i + 1).last().globs.len(), |j: int| cs.take(i + 1).len() - 1)
        =~= Seq::new(cs[i].globs.len(), |j: int| i));
}

proof fn lemma_invalid_in_step(gs: Seq<Seq<char>>, j: int)
    requires
        0 <= j < gs.len(),
    ensures
        first_invalid_in(gs.take(j + 1)) == (match first_invalid_in(gs.take(j)) {
            Some(k) => Some(k),
            None => if glob_new_error(gs[j]) is Some {
                Some(j)
            } else {
                None
            },
        }),
{
    assert(gs.take(j + 1).drop_last() =~= gs.take(j));
}


/// The position of the first component named `name`.
pub open spec fn first_name_index(names: Seq<Seq<char>>, name: Seq<char>) -> int {
    choose|j: int| 0 <= j < names.len() && names[j] == name && forall|k: int| 0 <= k < j ==> names[k] != name
}

/// The group a path falls in: that of the first component carrying the matched
/// component's name; `None` when unmatched.
pub open spec fn spec_bucket(m: MatcherView, path: Seq<char>) -> Option<int> {
    match spec_match_index(m, path) {
        Some(c) => Some(first_name_index(m.names, m.names[c])),
        None => None,
    }
}

/// The paths, in input order, that fall in group `j`.
pub open spec fn bucket_paths(m: MatcherView, ps: Seq<Seq<char>>, j: int) -> Seq<Seq<char>>
    decreases ps.len(),
{
    if ps.len() == 0 {
        seq![]
    } else {
        let rest = bucket_paths(m, ps.drop_last(), j);
        if spec_bucket(m, ps.last()) == Some(j) {
            rest.push(ps.last())
        } else {
            rest
        }
    }
}

/// The paths, in input order, that match no component.
pub open spec fn unmatched_paths(m: MatcherView, ps: Seq<Seq<char>>) -> Seq<Seq<char>>
    decreases ps.len(),
{
    if ps.len() == 0 {
        seq![]
    } else {
        let rest = unmatched_paths(m, ps.drop_last());
        if spec_bucket(m, ps.last()) is None {
            rest.push(ps.last())
        } else {
            rest
        }
    }
}

/// The non-empty groups among the first `k` components, in configuration order, each
/// with the component's name and its paths.
pub open spec fn spec_groups(m: MatcherView, ps: Seq<Seq<char>>, k: int) -> Seq<(Seq<char>, Seq<Seq<char>>)>
    decreases k,
{
    if k <= 0 {
        seq![]
    } else {
        let g = spec_groups(m, ps, k - 1);
        let b = bucket_paths(m, ps, k - 1);
        if b.len() > 0 {
            g.push((m.names[k - 1], b))
        } else {
            g
        }
    }
}

/// The component index the matcher reports for a path, if any, is one of its components.
pub open spec fn match_in_range(m: MatcherView, path: Seq<char>) -> bool {
    match spec_match_index(m, path) {
        Some(c) => 0 <= c < m.names.len(),
        None => true,
    }
}

/// Every file of every group belongs to that group's component: the matcher names that
/// component for it.
pub open spec fn groups_own_their_files(m: MatcherView, gs: Seq<(Seq<char>, Seq<Seq<char>>)>) -> bool {
    forall|i: int, q: int|
        0 <= i < gs.len() && 0 <= q < gs[i].1.len() ==> spec_match_name(m, #[trigger] gs[i].1[q])
            == Some(gs[i].0)
}

pub(crate) proof fn lemma_first_name_exists(names: Seq<Seq<char>>, name: Seq<char>, c: int)
    requires
        0 <= c < names.len(),
        names[c] == name,
    ensures
        exists|j: int|
            0 <= j < names.len() && names[j] == name && forall|k: int| 0 <= k < j ==> names[k] != name,
    decreases c,
{
    if exists|k: int| 0 <= k < c && names[k] == name {
        let k = choose|k: int| 0 <= k < c && names[k] == name;
        lemma_first_name_exists(names, name, k);
    } else {
        assert(forall|k: int| 0 <= k < c ==> names[k] != name);
    }
}

pub(crate) proof fn lemma_bucket_members(m: MatcherView, ps: Seq<Seq<char>>, j: int)
    ensures
        forall|q: int|
            0 <= q < bucket_paths(m, ps, j).len() ==> ps.contains(#[trigger] bucket_paths(m, ps, j)[q])
                && spec_bucket(m, bucket_paths(m, ps, j)[q]) == Some(j),
    decreases ps.len(),
{
    if ps.len() > 0 {
        let d = ps.drop_last();
        lemma_bucket_members(m, d, j);
        let b = bucket_paths(m, ps, j);
        let rest = bucket_paths(m, d, j);
        assert forall|q: int| 0 <= q < b.len() implies ps.contains(#[trigger] b[q]) && spec_bucket(
            m,
            b[q],
        ) == Some(j) by {
            if q < rest.len() {
                assert(b[q] == rest[q]);
                assert(d.contains(rest[q]));
                let t = choose|t: int| 0 <= t < d.len() && d[t] == rest[q];
                assert(ps[t] == d[t]);
            } else {
                assert(b[q] == ps.last());
                assert(ps[ps.len() - 1] == ps.last());
            }
        }
    }
}

/// Every file the matcher puts in a group belongs to that group's component: the
/// matcher names that component for it, whenever the component indices it reports for
/// these paths are its own.
pub proof fn lemma_groups_own_their_files(m: MatcherView, ps: Seq<Seq<char>>, k: int)
    requires
        forall|p: Seq<char>| ps.contains(p) ==> match_in_range(m, p),
    ensures
        groups_own_their_files(m, spec_groups(m, ps, k)),
    decreases k,
{
    if k > 0 {
        lemma_groups_own_their_files(m, ps, k - 1);
        let g = spec_groups(m, ps, k - 1);
        let b = bucket_paths(m, ps, k - 1);
        if b.len() > 0 {
            lemma_bucket_members(m, ps, k - 1);
            let gs = g.push((m.names[k - 1], b));
            assert forall|i: int, q: int|
                0 <= i < gs.len() && 0 <= q < gs[i].1.len() implies spec_match_name(
                m,
                #[trigger] gs[i].1[q],
            ) == Some(gs[i].0) by {
                if i < g.len() {
                    assert(gs[i] == g[i]);
                } else {
                    let p = b[q];
                    assert(gs[i].1[q] == p);
                    assert(ps.contains(p));
                    assert(match_in_range(m, p));
                    let c = spec_match_index(m, p)->0;
                    lemma_first_name_exists(m.names, m.names[c], c);
                }
            }
        }
    }
}

/// The value of a grouping result.
pub open spec fn groups_view(v: Seq<(String, Vec<String>)>) -> Seq<(Seq<char>, Seq<Seq<char>>)> {
    v.map_values(|g: (String, Vec<String>)| (g.0@, strings_view(g.1@)))
}


/// The number of paths across a list of groups.
pub open spec fn groups_total(gs: Seq<(Seq<char>, Seq<Seq<char>>)>) -> int
    decreases gs.len(),
{
    if gs.len() == 0 {
        0
    } else {
        groups_total(gs.drop_last()) + gs.last().1.len()
    }
}

/// The number of paths in groups `0..k`.
pub open spec fn bucket_total(m: MatcherView, ps: Seq<Seq<char>>, k: int) -> int
    decreases k,
{
    if k <= 0 {
        0
    } else {
        bucket_total(m, ps, k - 1) + bucket_paths(m, ps, k - 1).len()
    }
}

proof fn lemma_groups_total(m: MatcherView, ps: Seq<Seq<char>>, k: int)
    ensures
        groups_total(spec_groups(m, ps, k)) == bucket_total(m, ps, k),
    decreases k,
{
    if k > 0 {
        lemma_groups_total(m, ps, k - 1);
        let g = spec_groups(m, ps, k - 1);
        let b = bucket_paths(m, ps, k - 1);
        if b.len() > 0 {
            assert(g.push((m.names[k - 1], b)).drop_last() =~= g);
        }
    }
}

proof fn lemma_bucket_total_empty(m: MatcherView, ps: Seq<Seq<char>>, k: int)
    requires
        ps.len() == 0,
    ensures
        bucket_total(m, ps, k) == 0,
    decreases k,
{
    if k > 0 {
        lemma_bucket_total_empty(m, ps, k - 1);
    }
}

proof fn lemma_bucket_total_step(m: MatcherView, ps: Seq<Seq<char>>, k: int)
    requires
        ps.len() > 0,
    ensures
        bucket_total(m, ps, k) == bucket_total(m, ps.drop_last(), k) + (match spec_bucket(
            m,
            ps.last(),
        ) {
            Some(j) => if 0 <= j < k {
                1int
            } else {
                0int
            },
            None => 0int,
        }),
    decreases k,
{
    if k > 0 {
        lemma_bucket_total_step(m, ps, k - 1);
    }
}

/// Every path is accounted for exactly once: the sizes of the groups among the first `k`
/// components and the number of unmatched paths add up to the number of paths, when
/// every matched path falls in one of those groups.
pub proof fn lemma_every_path_accounted_once(m: MatcherView, ps: Seq<Seq<char>>, k: int)
    requires
        forall|i: int| 0 <= i < ps.len() ==> match spec_bucket(m, #[trigger] ps[i]) {
            Some(j) => 0 <= j < k,
            None => true,
        },
    ensures
        groups_total(spec_groups(m, ps, k)) + unmatched_paths(m, ps).len() == ps.len(),
    decreases ps.len(),
{
    lemma_groups_total(m, ps, k);
    if ps.len() == 0 {
        lemma_bucket_total_empty(m, ps, k);
    } else {
        let d = ps.drop_last();
        assert forall|i: int| 0 <= i < d.len() implies match spec_bucket(m, #[trigger] d[i]) {
            Some(j) => 0 <= j < k,
            None => true,
        } by {
            assert(d[i] == ps[i]);
        }
        lemma_every_path_accounted_once(m, d, k);
        lemma_groups_total(m, d, k);
        lemma_bucket_total_step(m, ps, k);
        assert(ps.last() == ps[ps.len() - 1]);
        let b = spec_bucket(m, ps[ps.len() - 1]);
        assert(match b {
            Some(j) => 0 <= j < k,
            None => true,
        });
        assert(unmatched_paths(m, ps).len() == unmatched_paths(m, d).len() + (if b is None {
            1int
        } else {
            0int
        }));
    }
}

impl ComponentMatcher {
    #[verifier::type_invariant]
    spec fn well_formed(&self) -> bool {
        &&& self.glob_owners@.len() == self.patterns@.len()
        &&& forall|p: Seq<char>|
            #[trigger] globset_matched(self.glob_set, p) == globset_match_indices(
                strings_view(self.patterns@),
                p,
            )
        &&& forall|p: Seq<char>, i: int|
            0 <= i < globset_matched(self.glob_set, p).len() ==> #[trigger] globset_matched(
                self.glob_set,
                p,
            )[i] < self.patterns@.len()
        &&& forall|i: int|
            0 <= i < self.glob_owners@.len() ==> #[trigger] self.glob_owners@[i]
                < self.component_names@.len()
    }

    /// Build a matcher from the loaded config: every glob of every component, in order,
    /// tagged with its component.
    pub fn from_config(config: &Config) -> (r: Result<Self, ConfigError>)
        ensures
            ({
                let cs = config@.components;
                match first_invalid_glob(cs) {
                    Some((c, g)) => r matches Err(e) && e@ == ConfigErrorView::InvalidGlob(
                        cs[c].name,
                        cs[c].globs[g],
                        glob_new_error(cs[c].globs[g])->0,
                    ),
                    None => match globset_new_error(all_patterns(cs)) {
                        Some(t) => r matches Err(e) && e@ == ConfigErrorView::Invalid(
                            "failed to build glob set: "@ + t,
                        ),
                        None => r matches Ok(m) && m@ == MatcherView {
                            patterns: all_patterns(cs),
                            owners: all_owners(cs),
                            names: names_of(cs),
                        } && matcher_wf(m@),
                    },
                }
            }),
    {
        let ghost cs = config@.components;
        let mut globs: Vec<Glob> = Vec::new();
        let mut patterns: Vec<String> = Vec::new();
        let mut glob_owners: Vec<usize> = Vec::new();
        let mut component_names: Vec<String> = Vec::new();
        let n = config.components.len();
        let mut idx: usize = 0;
        while idx < n
            invariant
                n == config.components@.len(),
                cs == config@.components,
                idx <= n,
                glob_texts(globs@) == all_patterns(cs.take(idx as int)),
                strings_view(patterns@) == glob_texts(globs@),
                forall|t: int| 0 <= t < globs@.len() ==> from_glob_new(#[trigger] globs@[t]),
                owners_view(glob_owners@) == all_owners(cs.take(idx as int)),
                strings_view(component_names@) == names_of(
                    cs.take(idx as int),
                ),
                first_invalid_glob(cs.take(idx as int)) is None,
                component_names@.len() == idx,
                glob_owners@.len() == globs@.len(),
                forall|i: int| 0 <= i < glob_owners@.len() ==> glob_owners@[i] < idx,
            decreases n - idx,
        {
            let component = &config.components[idx];
            proof {
                lemma_patterns_step(cs, idx as int);
            }
            let ghost names_before = component_names@;
            component_names.push(component.name.clone());
            assert(strings_view(component_names@) =~= names_of(cs.take(idx + 1))) by {
                assert(cs.take(idx + 1).drop_last() =~= cs.take(idx as int));
                assert(strings_view(names_before) == names_of(
                    cs.take(idx as int),
                ));
                assert forall|k: int| 0 <= k < idx + 1 implies strings_view(component_names@)[k] == names_of(cs.take(idx + 1))[k] by {
                    if k < idx {
                        assert(strings_view(names_before)[k] == names_of(
                            cs.take(idx as int),
                        )[k]);
                    }
                }
            }
            let ghost globs_start = glob_texts(globs@);
            let ghost owners_start = owners_view(glob_owners@);
            let m = component.globs.len();
            let mut j: usize = 0;
            while j < m
                invariant
                    n == config.components@.len(),
                    cs == config@.components,
                    idx < n,
                    m == cs[idx as int].globs.len(),
                    strings_view(component.globs@) == cs[idx as int].globs,
                    j <= m,
                    globs_start == all_patterns(cs.take(idx as int)),
                    owners_start == all_owners(cs.take(idx as int)),
                    glob_texts(globs@) == globs_start + cs[idx as int].globs.take(j as int),
                    strings_view(patterns@) == glob_texts(globs@),
                    forall|t: int| 0 <= t < globs@.len() ==> from_glob_new(#[trigger] globs@[t]),
                    owners_view(glob_owners@) == owners_start + Seq::new(
                        j as nat,
                        |k: int| idx as int,
                    ),
                    first_invalid_in(cs[idx as int].globs.take(j as int)) is None,
                    first_invalid_glob(cs.take(idx as int)) is None,
                    strings_view(component_names@) == names_of(cs.take(idx + 1)),
                    component_names@.len() == idx + 1,
                    component.name@ == cs[idx as int].name,
                    glob_owners@.len() == globs@.len(),
                    forall|i: int| 0 <= i < glob_owners@.len() ==> glob_owners@[i] <= idx,
                decreases m - j,
            {
                let pattern = &component.globs[j];
                assert(pattern@ == cs[idx as int].globs[j as int]);
                proof {
                    lemma_invalid_in_step(cs[idx as int].globs, j as int);
                }
                match glob_new(pattern.as_str()) {
                    Ok(g) => {
                        let ghost before = globs@;
                        let ghost pbefore = patterns@;
                        globs.push(g);
                        patterns.push(pattern.clone());
                        assert(glob_texts(globs@) =~= glob_texts(before).push(pattern@));
                        assert(strings_view(patterns@) =~= strings_view(pbefore).push(pattern@));
                        assert(cs[idx as int].globs.take(j + 1) =~= cs[idx as int].globs.take(
                            j as int,
                        ).push(pattern@));
                        let ghost obefore = glob_owners@;
                        glob_owners.push(idx);
                        assert(owners_view(glob_owners@) =~= owners_view(obefore).push(idx as int));
                        assert(Seq::new((j + 1) as nat, |k: int| idx as int) =~= Seq::new(
                            j as nat,
                            |k: int| idx as int,
                        ).push(idx as int));
                    },
                    Err(reason) => {
                        proof {
                            assert(cs[idx as int].globs.take(m as int) =~= cs[idx as int].globs);
                            lemma_invalid_prefix(cs[idx as int].globs, j as int);
                            lemma_patterns_step(cs, idx as int);
                            lemma_invalid_glob_prefix(cs, idx + 1);
                        }
                        return Err(
                            ConfigError::InvalidGlob {
                                component: component.name.clone(),
                                pattern: pattern.clone(),
                                reason,
                            },
                        );
                    },
                }
                j = j + 1;
            }
            assert(cs[idx as int].globs.take(m as int) =~= cs[idx as int].globs);
            idx = idx + 1;
        }
        assert(cs.take(n as int) =~= cs);
        match globset_new(globs) {
            Ok(glob_set) => {
                let r = ComponentMatcher { glob_set, patterns, glob_owners, component_names };
                assert(r@.owners == all_owners(cs));
                proof {
                    use_type_invariant(&r);
                }
                Ok(r)
            },
            Err(e) => {
                let reason = "failed to build glob set: ".to_string().concat(e.as_str());
                Err(ConfigError::Invalid { reason })
            },
        }
    }

    /// The index of the component a path belongs to, or `None` if unmatched.
    pub fn match_index(&self, path: &str) -> (r: Option<usize>)
        ensures
            match r {
                Some(c) => spec_match_index(self@, path@) == Some(c as int) && c
                    < self@.names.len(),
                None => spec_match_index(self@, path@) is None,
            },
    {
        proof {
            use_type_invariant(self);
        }
        let matches = globset_matches(&self.glob_set, path);
        let ghost l = matches@;
        if matches.len() == 0 {
            return None;
        }
        let ghost owners = self@.owners;
        let mut best = self.glob_owners[matches[0]];
        let mut k: usize = 1;
        while k < matches.len()
            invariant
                l == matches@,
                owners == self@.owners,
                owners == owners_view(self.glob_owners@),
                1 <= k <= l.len(),
                forall|i: int| 0 <= i < l.len() ==> l[i] < self.glob_owners@.len(),
                forall|i: int|
                    0 <= i < self.glob_owners@.len() ==> #[trigger] self.glob_owners@[i]
                        < self.component_names@.len(),
                best as int == min_owner(owners, l.take(k as int)),
                best < self.component_names@.len(),
            decreases l.len() - k,
        {
            let o = self.glob_owners[matches[k]];
            proof {
                assert(l.take(k + 1).drop_last() =~= l.take(k as int));
                assert(l.take(k + 1).last() == l[k as int]);
            }
            if o < best {
                best = o;
            }
            k = k + 1;
        }
        assert(l.take(k as int) =~= l);
        Some(best)
    }


    /// The group index of a path: the position of the first component that carries the
    /// name of the component the path matches.
    fn bucket_index(&self, path: &str) -> (r: Option<usize>)
        ensures
            match r {
                Some(j) => spec_bucket(self@, path@) == Some(j as int) && j < self@.names.len(),
                None => spec_bucket(self@, path@) is None,
            },
            match_in_range(self@, path@),
    {
        proof {
            use_type_invariant(self);
        }
        match self.match_index(path) {
            None => None,
            Some(c) => {
                let ghost names = self@.names;
                let name = &self.component_names[c];
                let mut k: usize = 0;
                while k < c
                    invariant
                        names == strings_view(self.component_names@),
                        c < names.len(),
                        name@ == names[c as int],
                        k <= c,
                        forall|i: int| 0 <= i < k ==> names[i] != names[c as int],
                    ensures
                        k <= c,
                        names[k as int] == names[c as int],
                        forall|i: int| 0 <= i < k ==> names[i] != names[c as int],
                    decreases c - k,
                {
                    if self.component_names[k].eq(name) {
                        break;
                    }
                    k = k + 1;
                }
                proof {
                    let j = first_name_index(names, names[c as int]);
                    assert(names[k as int] == names[c as int]);
                    assert(0 <= j < names.len() && names[j] == names[c as int] && forall|i: int|
                        0 <= i < j ==> names[i] != names[c as int]);
                    if j < k {
                    } else if k < j {
                    }
                }
                Some(k)
            },
        }
    }

    /// Group a set of file paths by component. Returns `(grouped, unmatched)`: the
    /// non-empty groups in configuration order, each with its paths in input order, and
    /// the unmatched paths in input order.
    pub fn group_files(&self, paths: &Vec<String>) -> (r: (Vec<(String, Vec<String>)>, Vec<String>))
        ensures
            groups_view(r.0@) == spec_groups(self@, strings_view(paths@), self@.names.len() as int),
            strings_view(r.1@) == unmatched_paths(self@, strings_view(paths@)),
            groups_total(groups_view(r.0@)) + r.1@.len() == paths@.len(),
            groups_own_their_files(self@, groups_view(r.0@)),
            forall|p: Seq<char>| strings_view(paths@).contains(p) ==> match_in_range(self@, p),
            splits_paths(self@, strings_view(paths@), groups_view(r.0@), strings_view(r.1@)),
    {
        let ghost ps = strings_view(paths@);
        let ghost m = self@;
        let n = paths.len();
        let mut classes: Vec<Option<usize>> = Vec::new();
        let mut i: usize = 0;
        while i < n
            invariant
                n == paths@.len(),
                ps == strings_view(paths@),
                m == self@,
                i <= n,
                classes@.len() == i,
                forall|k: int| 0 <= k < i ==> match #[trigger] classes@[k] {
                    Some(j) => spec_bucket(m, ps[k]) == Some(j as int) && j < m.names.len(),
                    None => spec_bucket(m, ps[k]) is None,
                },
                forall|k: int| 0 <= k < i ==> match_in_range(m, #[trigger] ps[k]),
            decreases n - i,
        {
            let c = self.bucket_index(paths[i].as_str());
            classes.push(c);
            i = i + 1;
        }
        proof {
            assert forall|p: Seq<char>| ps.contains(p) implies match_in_range(m, p) by {
                let t = choose|t: int| 0 <= t < ps.len() && ps[t] == p;
                assert(match_in_range(m, ps[t]));
            }
            lemma_groups_own_their_files(m, ps, m.names.len() as int);
            lemma_grouping_splits_paths(m, ps);
        }
        let mut unmatched: Vec<String> = Vec::new();
        let mut i: usize = 0;
        while i < n
            invariant
                n == paths@.len(),
                ps == strings_view(paths@),
                m == self@,
                i <= n,
                classes@.len() == n,
                forall|k: int| 0 <= k < n ==> match #[trigger] classes@[k] {
                    Some(j) => spec_bucket(m, ps[k]) == Some(j as int) && j < m.names.len(),
                    None => spec_bucket(m, ps[k]) is None,
                },
                strings_view(unmatched@) == unmatched_paths(m, ps.take(i as int)),
            decreases n - i,
        {
            proof {
                assert(ps.take(i + 1).drop_last() =~= ps.take(i as int));
                assert(ps.take(i + 1).last() == ps[i as int]);
            }
            if classes[i].is_none() {
                let ghost before = unmatched@;
                unmatched.push(paths[i].clone());
                assert(strings_view(unmatched@) =~= strings_view(before).push(ps[i as int]));
            }
            i = i + 1;
        }
        assert(ps.take(n as int) =~= ps);
        proof {
            assert forall|t: int| 0 <= t < ps.len() implies match spec_bucket(m, #[trigger] ps[t]) {
                Some(b) => 0 <= b < m.names.len(),
                None => true,
            } by {
                assert(match classes@[t] {
                    Some(j) => spec_bucket(m, ps[t]) == Some(j as int) && j < m.names.len(),
                    None => spec_bucket(m, ps[t]) is None,
                });
            }
            lemma_every_path_accounted_once(m, ps, m.names.len() as int);
        }
        let k = self.component_names.len();
        let mut grouped: Vec<(String, Vec<String>)> = Vec::new();
        let mut j: usize = 0;
        while j < k
            invariant
                n == paths@.len(),
                ps == strings_view(paths@),
                m == self@,
                k == m.names.len(),
                m.names == strings_view(self.component_names@),
                j <= k,
                classes@.len() == n,
                forall|t: int| 0 <= t < n ==> match #[trigger] classes@[t] {
                    Some(b) => spec_bucket(m, ps[t]) == Some(b as int),
                    None => spec_bucket(m, ps[t]) is None,
                },
                groups_view(grouped@) == spec_groups(m, ps, j as int),
                groups_own_their_files(m, spec_groups(m, ps, k as int)),
            decreases k - j,
        {
            let mut bucket: Vec<String> = Vec::new();
            let mut i: usize = 0;
            while i < n
                invariant
                    n == paths@.len(),
                    ps == strings_view(paths@),
                    i <= n,
                    j < k,
                    classes@.len() == n,
                    forall|t: int| 0 <= t < n ==> match #[trigger] classes@[t] {
                        Some(b) => spec_bucket(m, ps[t]) == Some(b as int),
                        None => spec_bucket(m, ps[t]) is None,
                    },
                    strings_view(bucket@) == bucket_paths(m, ps.take(i as int), j as int),
                decreases n - i,
            {
                proof {
                    assert(ps.take(i + 1).drop_last() =~= ps.take(i as int));
                    assert(ps.take(i + 1).last() == ps[i as int]);
                }
                let hit = match classes[i] {
                    Some(b) => b == j,
                    None => false,
                };
                if hit {
                    let ghost before = bucket@;
                    bucket.push(paths[i].clone());
                    assert(strings_view(bucket@) =~= strings_view(before).push(ps[i as int]));
                }
                i = i + 1;
            }
            assert(ps.take(n as int) =~= ps);
            if bucket.len() > 0 {
                let ghost before = grouped@;
                let name = self.component_names[j].clone();
                grouped.push((name, bucket));
                assert(groups_view(grouped@) =~= groups_view(before).push(
                    (m.names[j as int], bucket_paths(m, ps, j as int)),
                ));
            }
            j = j + 1;
        }
        proof {
            assert(groups_view(grouped@) == spec_groups(m, ps, m.names.len() as int));
            assert(strings_view(unmatched@).len() == unmatched@.len());
        }
        (grouped, unmatched)
    }

    /// Return the component name for a file path, or `None` if unmatched.
    pub fn match_file(&self, path: &str) -> (r: Option<&str>)
        ensures
            opt_str_view(r) == spec_match_name(self@, path@),
            r matches Some(name) ==> self@.names.contains(name@),
    {
        match self.match_index(path) {
            Some(c) => Some(self.component_names[c].as_str()),
            None => None,
        }
    }
}

proof fn lemma_invalid_glob_prefix(cs: Seq<ComponentView>, i: int)
    requires
        0 <= i <= cs.len(),
        first_invalid_glob(cs.take(i)) is Some,
    ensures
        first_invalid_glob(cs) == first_invalid_glob(cs.take(i)),
    decreases cs.len(),
{
    if i == cs.len() {
        assert(cs.take(i) =~= cs);
    } else {
        assert(cs.drop_last().take(i) =~= cs.take(i));
        lemma_invalid_glob_prefix(cs.drop_last(), i);
    }
}

proof fn lemma_invalid_prefix(gs: Seq<Seq<char>>, j: int)
    requires
        0 <= j < gs.len(),
        first_invalid_in(gs.take(j)) is None,
        glob_new_error(gs[j]) is Some,
    ensures
        first_invalid_in(gs) == Some(j),
    decreases gs.len(),
{
    if j == gs.len() - 1 {
        assert(gs.drop_last() =~= gs.take(j));
    } else {
        assert(gs.drop_last().take(j) =~= gs.take(j));
        lemma_invalid_prefix(gs.drop_last(), j);
    }
}


// How grouping splits a list of paths among the components.
/// `j` is the first position of its name among `names`.
pub open spec fn first_of_name(names: Seq<Seq<char>>, j: int) -> bool {
    &&& 0 <= j < names.len()
    &&& forall|k: int| 0 <= k < j ==> names[k] != names[j]
}

/// The paths the matcher assigns to the component named `name`.
pub open spec fn named(m: MatcherView, name: Seq<char>) -> spec_fn(Seq<char>) -> bool {
    |p: Seq<char>| spec_match_name(m, p) == Some(name)
}

/// The paths the matcher assigns to no component.
pub open spec fn nameless(m: MatcherView) -> spec_fn(Seq<char>) -> bool {
    |p: Seq<char>| spec_match_name(m, p) is None
}

spec fn in_bucket(m: MatcherView, j: int) -> spec_fn(Seq<char>) -> bool {
    |p: Seq<char>| spec_bucket(m, p) == Some(j)
}

spec fn no_bucket(m: MatcherView) -> spec_fn(Seq<char>) -> bool {
    |p: Seq<char>| spec_bucket(m, p) is None
}

proof fn lemma_first_index(names: Seq<Seq<char>>, c: int)
    requires
        0 <= c < names.len(),
    ensures
        first_of_name(names, first_name_index(names, names[c])),
        names[first_name_index(names, names[c])] == names[c],
{
    lemma_first_name_exists(names, names[c], c);
}

proof fn lemma_first_unique(names: Seq<Seq<char>>, j: int)
    requires
        first_of_name(names, j),
    ensures
        first_name_index(names, names[j]) == j,
{
    lemma_first_name_exists(names, names[j], j);
    let f = first_name_index(names, names[j]);
    if f < j {
        assert(names[f] != names[j]);
    } else if j < f {
        assert(names[j] != names[f]);
    }
}

/// For a path whose reported component is one of the matcher's, falling in the group of
/// a first-named component `j` is being assigned that component's name.
proof fn lemma_bucket_is_name(m: MatcherView, p: Seq<char>, j: int)
    requires
        match_in_range(m, p),
        first_of_name(m.names, j),
    ensures
        (spec_bucket(m, p) == Some(j)) == (spec_match_name(m, p) == Some(m.names[j])),
        (spec_bucket(m, p) is None) == (spec_match_name(m, p) is None),
{
    lemma_first_unique(m.names, j);
    match spec_match_index(m, p) {
        Some(c) => {
            lemma_first_index(m.names, c);
        },
        None => {},
    }
}

proof fn lemma_bucket_filter(m: MatcherView, ps: Seq<Seq<char>>, j: int)
    ensures
        bucket_paths(m, ps, j) == ps.filter(in_bucket(m, j)),
    decreases ps.len(),
{
    reveal(Seq::filter);
    if ps.len() > 0 {
        lemma_bucket_filter(m, ps.drop_last(), j);
    }
}

proof fn lemma_unmatched_filter(m: MatcherView, ps: Seq<Seq<char>>)
    ensures
        unmatched_paths(m, ps) == ps.filter(no_bucket(m)),
    decreases ps.len(),
{
    reveal(Seq::filter);
    if ps.len() > 0 {
        lemma_unmatched_filter(m, ps.drop_last());
    }
}

proof fn lemma_filter_same(ps: Seq<Seq<char>>, f: spec_fn(Seq<char>) -> bool, g: spec_fn(Seq<char>) -> bool)
    requires
        forall|i: int| 0 <= i < ps.len() ==> f(#[trigger] ps[i]) == g(ps[i]),
    ensures
        ps.filter(f) == ps.filter(g),
    decreases ps.len(),
{
    reveal(Seq::filter);
    if ps.len() > 0 {
        let d = ps.drop_last();
        assert forall|i: int| 0 <= i < d.len() implies f(#[trigger] d[i]) == g(d[i]) by {
            assert(d[i] == ps[i]);
        }
        lemma_filter_same(d, f, g);
        assert(ps.last() == ps[ps.len() - 1]);
    }
}

/// The shape of the groups among the first `k` components: each is the group of a
/// first-named component below `k`, non-empty, in increasing order; and every non-empty
/// group below `k` is among them.
proof fn lemma_groups_shape(m: MatcherView, ps: Seq<Seq<char>>, k: int)
    requires
        0 <= k <= m.names.len(),
        forall|p: Seq<char>| ps.contains(p) ==> match_in_range(m, p),
    ensures
        ({
            let gs = spec_groups(m, ps, k);
            &&& forall|i: int|
                0 <= i < gs.len() ==> {
                    let j = first_name_index(m.names, #[trigger] gs[i].0);
                    &&& 0 <= j < k
                    &&& first_of_name(m.names, j)
                    &&& gs[i].0 == m.names[j]
                    &&& gs[i].1 == bucket_paths(m, ps, j)
                    &&& gs[i].1.len() > 0
                }
            &&& forall|i: int, l: int|
                0 <= i < l < gs.len() ==> first_name_index(m.names, #[trigger] gs[i].0)
                    < first_name_index(m.names, #[trigger] gs[l].0)
            &&& forall|j: int|
                0 <= j < k && #[trigger] bucket_paths(m, ps, j).len() > 0 ==> exists|i: int|
                    0 <= i < gs.len() && gs[i].0 == m.names[j]
        }),
    decreases k,
{
    if k > 0 {
        lemma_groups_shape(m, ps, k - 1);
        let g = spec_groups(m, ps, k - 1);
        let b = bucket_paths(m, ps, k - 1);
        let gs = spec_groups(m, ps, k);
        if b.len() > 0 {
            lemma_bucket_members(m, ps, k - 1);
            let p = b[0];
            assert(ps.contains(p) && spec_bucket(m, p) == Some(k - 1));
            assert(match_in_range(m, p));
            let c = spec_match_index(m, p)->0;
            lemma_first_index(m.names, c);
            assert(first_of_name(m.names, k - 1));
            lemma_first_unique(m.names, k - 1);
            assert(gs == g.push((m.names[k - 1], b)));
            assert forall|i: int, l: int|
                0 <= i < l < gs.len() implies first_name_index(m.names, #[trigger] gs[i].0)
                < first_name_index(m.names, #[trigger] gs[l].0) by {
                assert(gs[i] == g[i]);
                if l < g.len() {
                    assert(gs[l] == g[l]);
                }
            }
            assert forall|j: int|
                0 <= j < k && #[trigger] bucket_paths(m, ps, j).len() > 0 implies exists|i: int|
                0 <= i < gs.len() && gs[i].0 == m.names[j] by {
                if j < k - 1 {
                    let i = choose|i: int| 0 <= i < g.len() && g[i].0 == m.names[j];
                    assert(gs[i] == g[i]);
                } else {
                    assert(gs[g.len() as int].0 == m.names[j]);
                }
            }
        }
    }
}

/// The paths of a list of groups, group after group.
pub open spec fn flatten_groups(gs: Seq<(Seq<char>, Seq<Seq<char>>)>) -> Seq<Seq<char>>
    decreases gs.len(),
{
    if gs.len() == 0 {
        seq![]
    } else {
        flatten_groups(gs.drop_last()) + gs.last().1
    }
}

spec fn bucket_concat(m: MatcherView, ps: Seq<Seq<char>>, k: int) -> Seq<Seq<char>>
    decreases k,
{
    if k <= 0 {
        seq![]
    } else {
        bucket_concat(m, ps, k - 1) + bucket_paths(m, ps, k - 1)
    }
}

proof fn lemma_flatten_is_concat(m: MatcherView, ps: Seq<Seq<char>>, k: int)
    ensures
        flatten_groups(spec_groups(m, ps, k)) == bucket_concat(m, ps, k),
    decreases k,
{
    if k > 0 {
        lemma_flatten_is_concat(m, ps, k - 1);
        let g = spec_groups(m, ps, k - 1);
        let b = bucket_paths(m, ps, k - 1);
        if b.len() > 0 {
            assert(g.push((m.names[k - 1], b)).drop_last() =~= g);
        } else {
            assert(bucket_concat(m, ps, k - 1) + b =~= bucket_concat(m, ps, k - 1));
        }
    }
}

proof fn lemma_concat_empty(m: MatcherView, ps: Seq<Seq<char>>, k: int)
    requires
        ps.len() == 0,
    ensures
        bucket_concat(m, ps, k).len() == 0,
    decreases k,
{
    if k > 0 {
        lemma_concat_empty(m, ps, k - 1);
    }
}

/// Adding a last path adds it to the groups below `k` exactly when it falls in one.
proof fn lemma_concat_step(m: MatcherView, ps: Seq<Seq<char>>, k: int)
    requires
        ps.len() > 0,
    ensures
        bucket_concat(m, ps, k).to_multiset() == if (match spec_bucket(m, ps.last()) {
            Some(j) => 0 <= j < k,
            None => false,
        }) {
            bucket_concat(m, ps.drop_last(), k).to_multiset().insert(ps.last())
        } else {
            bucket_concat(m, ps.drop_last(), k).to_multiset()
        },
    decreases k,
{
    broadcast use {
        vstd::seq_lib::group_to_multiset_ensures,
        vstd::seq_lib::lemma_multiset_commutative,
        vstd::multiset::group_multiset_axioms,
    };

    if k > 0 {
        lemma_concat_step(m, ps, k - 1);
        let d = ps.drop_last();
        let x = ps.last();
        let a0 = bucket_concat(m, d, k - 1);
        let b0 = bucket_paths(m, d, k - 1);
        assert(bucket_concat(m, ps, k).to_multiset() =~= bucket_concat(m, ps, k - 1).to_multiset().add(
            bucket_paths(m, ps, k - 1).to_multiset(),
        ));
        assert(bucket_concat(m, d, k).to_multiset() =~= a0.to_multiset().add(b0.to_multiset()));
        if spec_bucket(m, x) == Some(k - 1) {
            assert(bucket_paths(m, ps, k - 1) == b0.push(x));
            assert(b0.push(x).to_multiset() =~= b0.to_multiset().insert(x));
        } else {
            assert(bucket_paths(m, ps, k - 1) == b0);
        }
    }
}

proof fn lemma_split_multiset(m: MatcherView, ps: Seq<Seq<char>>, k: int)
    requires
        forall|i: int| 0 <= i < ps.len() ==> match spec_bucket(m, #[trigger] ps[i]) {
            Some(j) => 0 <= j < k,
            None => true,
        },
    ensures
        (bucket_concat(m, ps, k) + unmatched_paths(m, ps)).to_multiset() == ps.to_multiset(),
    decreases ps.len(),
{
    broadcast use {
        vstd::seq_lib::group_to_multiset_ensures,
        vstd::seq_lib::lemma_multiset_commutative,
        vstd::multiset::group_multiset_axioms,
    };

    if ps.len() == 0 {
        lemma_concat_empty(m, ps, k);
        assert(bucket_concat(m, ps, k) + unmatched_paths(m, ps) =~= ps);
    } else {
        let d = ps.drop_last();
        let x = ps.last();
        assert forall|i: int| 0 <= i < d.len() implies match spec_bucket(m, #[trigger] d[i]) {
            Some(j) => 0 <= j < k,
            None => true,
        } by {
            assert(d[i] == ps[i]);
        }
        lemma_split_multiset(m, d, k);
        lemma_concat_step(m, ps, k);
        assert(x == ps[ps.len() - 1]);
        assert(ps =~= d.push(x));
        assert((bucket_concat(m, ps, k) + unmatched_paths(m, ps)).to_multiset() =~= bucket_concat(
            m,
            ps,
            k,
        ).to_multiset().add(unmatched_paths(m, ps).to_multiset()));
        assert((bucket_concat(m, d, k) + unmatched_paths(m, d)).to_multiset() =~= bucket_concat(
            m,
            d,
            k,
        ).to_multiset().add(unmatched_paths(m, d).to_multiset()));
        if spec_bucket(m, x) is None {
            assert(unmatched_paths(m, ps) == unmatched_paths(m, d).push(x));
        } else {
            assert(unmatched_paths(m, ps) == unmatched_paths(m, d));
        }
    }
}

/// Grouping splits the paths `ps` into the groups `gs` and the unmatched paths `un`: the
/// groups come in configuration order, one for each component that gets a path and none
/// empty; a group holds, in input order, exactly the paths the matcher assigns to its
/// component; the unmatched paths are, in input order, exactly those it assigns to none;
/// and the groups' paths followed by the unmatched ones are the given paths, rearranged
/// (each path in exactly one place).
pub open spec fn splits_paths(
    m: MatcherView,
    ps: Seq<Seq<char>>,
    gs: Seq<(Seq<char>, Seq<Seq<char>>)>,
    un: Seq<Seq<char>>,
) -> bool {
    &&& forall|i: int|
        0 <= i < gs.len() ==> #[trigger] gs[i].1.len() > 0 && m.names.contains(gs[i].0)
            && gs[i].1 == ps.filter(named(m, gs[i].0))
    &&& forall|i: int, l: int|
        0 <= i < l < gs.len() ==> first_name_index(m.names, #[trigger] gs[i].0)
            < first_name_index(m.names, #[trigger] gs[l].0) && gs[i].0 != gs[l].0
    &&& forall|p: Seq<char>|
        ps.contains(p) && #[trigger] spec_match_name(m, p) is Some ==> exists|i: int|
            0 <= i < gs.len() && Some(gs[i].0) == spec_match_name(m, p)
    &&& un == ps.filter(nameless(m))
    &&& groups_total(gs) + un.len() == ps.len()
    &&& (flatten_groups(gs) + un).to_multiset() == ps.to_multiset()
}

/// Grouping splits the paths among the components, as `splits_paths` states: a
/// permutation of the paths into non-empty groups in configuration order, each in input
/// order, and the unmatched paths.
pub proof fn lemma_grouping_splits_paths(m: MatcherView, ps: Seq<Seq<char>>)
    requires
        forall|p: Seq<char>| ps.contains(p) ==> match_in_range(m, p),
    ensures
        splits_paths(m, ps, spec_groups(m, ps, m.names.len() as int), unmatched_paths(m, ps)),
{
    let k = m.names.len() as int;
    let gs = spec_groups(m, ps, k);
    lemma_groups_shape(m, ps, k);
    assert forall|i: int| 0 <= i < gs.len() implies #[trigger] gs[i].1.len() > 0 && m.names.contains(gs[i].0)
        && gs[i].1 == ps.filter(named(m, gs[i].0)) by {
        let j = first_name_index(m.names, gs[i].0);
        lemma_bucket_filter(m, ps, j);
        assert forall|t: int| 0 <= t < ps.len() implies in_bucket(m, j)(#[trigger] ps[t]) == named(m, gs[i].0)(ps[t]) by {
            assert(ps.contains(ps[t]));
            lemma_bucket_is_name(m, ps[t], j);
        }
        lemma_filter_same(ps, in_bucket(m, j), named(m, gs[i].0));
        assert(m.names[j] == gs[i].0);
    }
    assert forall|i: int, l: int| 0 <= i < l < gs.len() implies first_name_index(m.names, #[trigger] gs[i].0)
        < first_name_index(m.names, #[trigger] gs[l].0) && gs[i].0 != gs[l].0 by {
    }
    assert forall|p: Seq<char>| ps.contains(p) && #[trigger] spec_match_name(m, p) is Some implies exists|i: int|
        0 <= i < gs.len() && Some(gs[i].0) == spec_match_name(m, p) by {
        let c = spec_match_index(m, p)->0;
        lemma_first_index(m.names, c);
        let j = first_name_index(m.names, m.names[c]);
        let t = choose|t: int| 0 <= t < ps.len() && ps[t] == p;
        lemma_bucket_filter(m, ps, j);
        ps.lemma_filter_contains(in_bucket(m, j), t);
        assert(bucket_paths(m, ps, j).len() > 0);
        let i = choose|i: int| 0 <= i < gs.len() && gs[i].0 == m.names[j];
    }
    lemma_unmatched_filter(m, ps);
    assert forall|t: int| 0 <= t < ps.len() implies no_bucket(m)(#[trigger] ps[t]) == nameless(m)(ps[t]) by {
        assert(ps.contains(ps[t]));
        if spec_match_index(m, ps[t]) is Some {
            lemma_first_index(m.names, spec_match_index(m, ps[t])->0);
        }
    }
    lemma_filter_same(ps, no_bucket(m), nameless(m));
    assert forall|i: int| 0 <= i < ps.len() implies match spec_bucket(m, #[trigger] ps[i]) {
        Some(j) => 0 <= j < k,
        None => true,
    } by {
        assert(ps.contains(ps[i]));
        if spec_match_index(m, ps[i]) is Some {
            lemma_first_index(m.names, spec_match_index(m, ps[i])->0);
        }
    }
    lemma_every_path_accounted_once(m, ps, k);
    lemma_split_multiset(m, ps, k);
    lemma_flatten_is_concat(m, ps, k);
}

} // verus!
