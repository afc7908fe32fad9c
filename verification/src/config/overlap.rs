//! Overlapping components: components whose globs claim some of the same paths. Only
//! the first of them ever gets such a path, so `validate` warns about them.
use vstd::prelude::*;
use globset::{Glob, GlobSet};
use crate::config::layered::{ConfigWarning, warnings_view};
use crate::config::types::{Component, ComponentView, components_view};
use crate::domain::globs::{
    from_glob_new, glob_new, glob_texts, globset_match_indices, globset_matched, globset_matches,
    globset_new, globset_new_error,
};
use crate::domain::matcher::first_invalid_in;
use crate::domain::text::{concat_str, debug_quote, debug_quoted, strings_view};

verus! {

/// `s` matches as the globs `Glob::new` makes of `patterns` would.
pub open spec fn matches_as(s: GlobSet, patterns: Seq<Seq<char>>) -> bool {
    forall|p: Seq<char>| #[trigger] globset_matched(s, p) == globset_match_indices(patterns, p)
}

/// The globs compile and build a glob set.
pub open spec fn builds_set(globs: Seq<Seq<char>>) -> bool {
    first_invalid_in(globs) is None && globset_new_error(globs) is None
}

/// Some pattern of `b`, read as a path, is matched by the globs `a`.
pub open spec fn matches_some(a: Seq<Seq<char>>, b: Seq<Seq<char>>) -> bool {
    exists|q: int| 0 <= q < b.len() && (#[trigger] globset_match_indices(a, b[q])).len() > 0
}

/// Two components overlap when both their glob sets build and a pattern of one, read
/// as a path, is matched by the globs of the other (as `src/ui/**` by `src/**`).
pub open spec fn globs_overlap(a: ComponentView, b: ComponentView) -> bool {
    &&& builds_set(a.globs)
    &&& builds_set(b.globs)
    &&& (matches_some(a.globs, b.globs) || matches_some(b.globs, a.globs))
}

/// The warning about two overlapping components.
pub open spec fn overlap_message(a: Seq<char>, b: Seq<char>) -> Seq<char> {
    "globs of components "@ + debug_quoted(a) + " and "@ + debug_quoted(b) + " overlap"@
}

/// The warnings about component `c` and each earlier component it overlaps, in order.
pub open spec fn overlaps_with(prev: Seq<ComponentView>, c: ComponentView) -> Seq<Seq<char>>
    decreases prev.len(),
{
    if prev.len() == 0 {
        seq![]
    } else {
        overlaps_with(prev.drop_last(), c) + if globs_overlap(prev.last(), c) {
            seq![overlap_message(prev.last().name, c.name)]
        } else {
            seq![]
        }
    }
}

/// The overlap warnings of a list of components: for each component in order, one per
/// earlier component it overlaps.
pub open spec fn overlap_warnings(cs: Seq<ComponentView>) -> Seq<Seq<char>>
    decreases cs.len(),
{
    if cs.len() == 0 {
        seq![]
    } else {
        overlap_warnings(cs.drop_last()) + overlaps_with(cs.drop_last(), cs.last())
    }
}

proof fn lemma_invalid_extends(gs: Seq<Seq<char>>, k: int)
    requires
        0 <= k <= gs.len(),
        first_invalid_in(gs.take(k)) is Some,
    ensures
        first_invalid_in(gs) is Some,
    decreases gs.len(),
{
    if k == gs.len() {
        assert(gs.take(k) =~= gs);
    } else {
        assert(gs.drop_last().take(k) =~= gs.take(k));
        lemma_invalid_extends(gs.drop_last(), k);
    }
}

fn component_set(globs: &Vec<String>) -> (r: Option<GlobSet>)
    ensures
        r is Some <==> builds_set(strings_view(globs@)),
        r matches Some(s) ==> matches_as(s, strings_view(globs@)),
{
    let ghost ps = strings_view(globs@);
    let mut built: Vec<Glob> = Vec::new();
    let mut j: usize = 0;
    assert(glob_texts(built@) =~= ps.take(0));
    while j < globs.len()
        invariant
            ps == strings_view(globs@),
            j <= globs@.len(),
            glob_texts(built@) == ps.take(j as int),
            forall|t: int| 0 <= t < built@.len() ==> from_glob_new(#[trigger] built@[t]),
            first_invalid_in(ps.take(j as int)) is None,
        decreases globs@.len() - j,
    {
        assert(ps.take(j + 1).drop_last() =~= ps.take(j as int));
        assert(ps.take(j + 1).last() == ps[j as int]);
        match glob_new(globs[j].as_str()) {
            Ok(g) => {
                let ghost before = built@;
                built.push(g);
                assert(glob_texts(built@) =~= glob_texts(before).push(ps[j as int]));
            },
            Err(_) => {
                proof {
                    lemma_invalid_extends(ps, j + 1);
                }
                return None;
            },
        }
        j = j + 1;
    }
    assert(ps.take(j as int) =~= ps);
    match globset_new(built) {
        Ok(s) => Some(s),
        Err(_) => None,
    }
}

fn matches_any(set: &GlobSet, paths: &Vec<String>, Ghost(a): Ghost<Seq<Seq<char>>>) -> (r: bool)
    requires
        matches_as(*set, a),
    ensures
        r == matches_some(a, strings_view(paths@)),
{
    let ghost b = strings_view(paths@);
    let mut q: usize = 0;
    while q < paths.len()
        invariant
            q <= paths@.len(),
            matches_as(*set, a),
            b == strings_view(paths@),
            forall|k: int| 0 <= k < q ==> (#[trigger] globset_match_indices(a, b[k])).len() == 0,
        decreases paths@.len() - q,
    {
        let m = globset_matches(set, paths[q].as_str());
        assert(b[q as int] == paths@[q as int]@);
        assert(m@ == globset_match_indices(a, b[q as int]));
        if m.len() > 0 {
            assert(globset_match_indices(a, b[q as int]).len() > 0);
            return true;
        }
        q = q + 1;
    }
    false
}

/// Warn about components whose globs overlap: for each component in order, one warning
/// per earlier component it overlaps.
pub fn overlap_warnings_of(components: &Vec<Component>) -> (r: Vec<ConfigWarning>)
    ensures
        warnings_view(r@) == overlap_warnings(components_view(components@)),
{
    let ghost cs = components_view(components@);
    let n = components.len();
    let mut sets: Vec<Option<GlobSet>> = Vec::new();
    let mut k: usize = 0;
    while k < n
        invariant
            n == components@.len(),
            cs == components_view(components@),
            k <= n,
            sets@.len() == k,
            forall|t: int|
                0 <= t < k ==> ((#[trigger] sets@[t]) is Some <==> builds_set(cs[t].globs)),
            forall|t: int|
                0 <= t < k ==> (#[trigger] sets@[t] matches Some(s) ==> matches_as(s, cs[t].globs)),
        decreases n - k,
    {
        assert(components@[k as int]@ == cs[k as int]);
        let s = component_set(&components[k].globs);
        sets.push(s);
        k = k + 1;
    }
    let mut warnings: Vec<ConfigWarning> = Vec::new();
    let mut j: usize = 0;
    assert(warnings_view(warnings@) =~= overlap_warnings(cs.take(0)));
    while j < n
        invariant
            n == components@.len(),
            cs == components_view(components@),
            j <= n,
            sets@.len() == n,
            forall|t: int|
                0 <= t < n ==> ((#[trigger] sets@[t]) is Some <==> builds_set(cs[t].globs)),
            forall|t: int|
                0 <= t < n ==> (#[trigger] sets@[t] matches Some(s) ==> matches_as(s, cs[t].globs)),
            warnings_view(warnings@) == overlap_warnings(cs.take(j as int)),
        decreases n - j,
    {
        let ghost start = warnings_view(warnings@);
        let cj = &components[j];
        assert(cj@ == cs[j as int]);
        let mut i: usize = 0;
        assert(overlaps_with(cs.take(0), cs[j as int]) =~= Seq::<Seq<char>>::empty());
        assert(warnings_view(warnings@) =~= start + overlaps_with(cs.take(0), cs[j as int]));
        while i < j
            invariant
                n == components@.len(),
                cs == components_view(components@),
                j < n,
                i <= j,
                cj@ == cs[j as int],
                sets@.len() == n,
                forall|t: int|
                    0 <= t < n ==> ((#[trigger] sets@[t]) is Some <==> builds_set(cs[t].globs)),
                forall|t: int|
                    0 <= t < n ==> (#[trigger] sets@[t] matches Some(s) ==> matches_as(s, cs[t].globs)),
                warnings_view(warnings@) == start + overlaps_with(cs.take(i as int), cs[j as int]),
            decreases j - i,
        {
            let ci = &components[i];
            assert(ci@ == cs[i as int]);
            let overlap = match (&sets[i], &sets[j]) {
                (Some(si), Some(sj)) => matches_any(si, &cj.globs, Ghost(cs[i as int].globs))
                    || matches_any(sj, &ci.globs, Ghost(cs[j as int].globs)),
                _ => false,
            };
            assert(overlap == globs_overlap(cs[i as int], cs[j as int]));
            let ghost before = warnings_view(warnings@);
            proof {
                assert(cs.take(i + 1).drop_last() =~= cs.take(i as int));
                assert(cs.take(i + 1).last() == cs[i as int]);
            }
            if overlap {
                let m = concat_str("globs of components ", debug_quote(ci.name.as_str()).as_str());
                let m = m.concat(" and ").concat(debug_quote(cj.name.as_str()).as_str());
                let m = m.concat(" overlap");
                warnings.push(ConfigWarning { message: m });
                assert(warnings_view(warnings@) =~= before.push(
                    overlap_message(cs[i as int].name, cs[j as int].name),
                ));
            }
            assert(warnings_view(warnings@) =~= start + overlaps_with(cs.take(i + 1), cs[j as int]));
            i = i + 1;
        }
        proof {
            assert(cs.take(j + 1).drop_last() =~= cs.take(j as int));
            assert(cs.take(j + 1).last() == cs[j as int]);
            assert(cs.take(j as int) == cs.take(i as int));
        }
        j = j + 1;
    }
    assert(cs.take(n as int) =~= cs);
    warnings
}

/// Overlap does not depend on the order of the two components: when both glob sets
/// build and some pattern of either one, read as a path, is matched by the other's globs,
/// each is reported as overlapping the other (a later, more general component overlaps
/// an earlier, more specific one just as the reverse does).
pub proof fn lemma_overlap_symmetric(a: ComponentView, b: ComponentView)
    ensures
        globs_overlap(a, b) == globs_overlap(b, a),
        (builds_set(a.globs) && builds_set(b.globs) && exists|q: int|
            0 <= q < a.globs.len() && (#[trigger] globset_match_indices(b.globs, a.globs[q])).len() > 0)
            ==> globs_overlap(a, b) && globs_overlap(b, a),
        (builds_set(a.globs) && builds_set(b.globs) && exists|q: int|
            0 <= q < b.globs.len() && (#[trigger] globset_match_indices(a.globs, b.globs[q])).len() > 0)
            ==> globs_overlap(a, b) && globs_overlap(b, a),
{
}

/// Each overlap between a component and an earlier one is warned about, naming the
/// earlier component first.
pub proof fn lemma_every_overlap_warned(cs: Seq<ComponentView>, i: int, j: int)
    requires
        0 <= i < j < cs.len(),
        globs_overlap(cs[i], cs[j]),
    ensures
        overlap_warnings(cs).contains(overlap_message(cs[i].name, cs[j].name)),
    decreases cs.len(),
{
    let d = cs.drop_last();
    if j < cs.len() - 1 {
        assert(d[i] == cs[i] && d[j] == cs[j]);
        lemma_every_overlap_warned(d, i, j);
        let w = overlap_warnings(d);
        let t = choose|t: int| 0 <= t < w.len() && w[t] == overlap_message(cs[i].name, cs[j].name);
        assert(overlap_warnings(cs)[t] == w[t]);
    } else {
        assert(cs.last() == cs[j]);
        assert(d[i] == cs[i]);
        lemma_overlaps_with_contains(d, cs[j], i);
        let w = overlaps_with(d, cs[j]);
        let t = choose|t: int| 0 <= t < w.len() && w[t] == overlap_message(cs[i].name, cs[j].name);
        assert(overlap_warnings(cs)[overlap_warnings(d).len() + t] == w[t]);
    }
}

proof fn lemma_overlaps_with_contains(prev: Seq<ComponentView>, c: ComponentView, i: int)
    requires
        0 <= i < prev.len(),
        globs_overlap(prev[i], c),
    ensures
        overlaps_with(prev, c).contains(overlap_message(prev[i].name, c.name)),
    decreases prev.len(),
{
    let d = prev.drop_last();
    let m = overlap_message(prev[i].name, c.name);
    if i < prev.len() - 1 {
        assert(d[i] == prev[i]);
        lemma_overlaps_with_contains(d, c, i);
        let w = overlaps_with(d, c);
        let t = choose|t: int| 0 <= t < w.len() && w[t] == m;
        assert(overlaps_with(prev, c)[t] == w[t]);
    } else {
        assert(prev.last() == prev[i]);
        assert(overlaps_with(prev, c)[overlaps_with(d, c).len() as int] == m);
    }
}

} // verus!
