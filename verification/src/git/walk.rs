//! The walk over a commit range `start..end`: the commits reachable from `end` but not
//! from `start`. The walk asks for the parents of one commit at a time; whoever drives it
//! looks them up and hands them back.
use vstd::prelude::*;
use crate::domain::text::strings_view;
use crate::git::order::{lists_view, oldest_first, parents_first, rankable, distinct};

verus! {

/// `x` is one of the reported parents of `y`.
pub open spec fn reported_parent(
    rep: Map<Seq<char>, Seq<Seq<char>>>,
    x: Seq<char>,
    y: Seq<char>,
) -> bool {
    rep.dom().contains(y) && rep[y].contains(x)
}

/// No element occurs twice.
pub open spec fn no_dups(s: Seq<Seq<char>>) -> bool {
    forall|i: int, j: int| 0 <= i < j < s.len() ==> s[i] != s[j]
}

/// `s` starts at `root` and every later element is a reported parent of an earlier one.
pub open spec fn grounded(rep: Map<Seq<char>, Seq<Seq<char>>>, s: Seq<Seq<char>>, root: Seq<char>) -> bool {
    &&& s.len() > 0 ==> s[0] == root
    &&& forall|i: int|
        0 < i < s.len() ==> exists|j: int| 0 <= j < i && reported_parent(rep, #[trigger] s[i], s[j])
}

/// Every element of `s` has had its parents reported, and each lies in `within`.
pub open spec fn parents_within(
    rep: Map<Seq<char>, Seq<Seq<char>>>,
    s: Seq<Seq<char>>,
    within: Seq<Seq<char>>,
) -> bool {
    forall|i: int|
        0 <= i < s.len() ==> rep.dom().contains(#[trigger] s[i]) && forall|k: int|
            0 <= k < rep[s[i]].len() ==> within.contains(#[trigger] rep[s[i]][k])
}

/// What a finished walk establishes, for the excluded commits `e` (in the order they
/// were found), the commits visited `v` (in visit order), the parents reported `rep`:
/// - `e` starts at `start`, each later commit being a parent of an earlier one, and is
///   closed under parents: it is exactly what is reachable from `start`;
/// - `v` starts at `end` (unless `end` is excluded), each later commit being a parent
///   of an earlier one, and its parents all lie in `v` or `e`: it is exactly what is
///   reachable from `end` without passing through `e`;
/// - neither list repeats a commit, and they share none.
pub open spec fn walk_complete(
    e: Seq<Seq<char>>,
    v: Seq<Seq<char>>,
    rep: Map<Seq<char>, Seq<Seq<char>>>,
    start: Seq<char>,
    end: Seq<char>,
) -> bool {
    &&& e.len() > 0
    &&& grounded(rep, e, start)
    &&& parents_within(rep, e, e)
    &&& no_dups(e)
    &&& (v.contains(end) || e.contains(end))
    &&& grounded(rep, v, end)
    &&& parents_within(rep, v, e + v)
    &&& no_dups(v)
    &&& forall|i: int| 0 <= i < v.len() ==> !e.contains(#[trigger] v[i])
}

/// A range from a commit to itself holds no commits.
pub proof fn lemma_same_commit_range_is_empty(
    e: Seq<Seq<char>>,
    v: Seq<Seq<char>>,
    rep: Map<Seq<char>, Seq<Seq<char>>>,
    c: Seq<char>,
)
    requires
        walk_complete(e, v, rep, c, c),
    ensures
        v.len() == 0,
{
    if v.len() > 0 {
        assert(e[0] == c);
        assert(e.contains(c));
        assert(!e.contains(v[0]));
    }
}

/// What the walk asks for next.
#[derive(Debug)]
pub enum WalkStep {
    /// The parents of this commit are needed (report none if it cannot be found).
    NeedParents(String),
    /// The walk is over: the commits of the range, oldest first.
    Finished(Vec<String>),
}

/// Walk commits reachable from `end` but not from `start`, in two phases: first every
/// commit reachable from `start` is collected into an exclusion set, then the commits
/// reachable from `end` are visited, stopping at excluded ones.
pub struct RangeWalk {
    excluded: Vec<String>,
    queue: Vec<String>,
    visited: Vec<String>,
    parents_of: Vec<Vec<String>>,
    collecting: bool,
    end: String,
    pending: Option<String>,
    start: Ghost<Seq<char>>,
    reported: Ghost<Map<Seq<char>, Seq<Seq<char>>>>,
}

/// The walk's state, as values: excluded `e`, visited `v`, queue `q`, parents reported
/// `rep`, the range's ends, the commit awaited and the phase.
pub open spec fn walk_state_ok(
    e: Seq<Seq<char>>,
    v: Seq<Seq<char>>,
    q: Seq<Seq<char>>,
    rep: Map<Seq<char>, Seq<Seq<char>>>,
    start: Seq<char>,
    end: Seq<char>,
    pending: Option<Seq<char>>,
    collecting: bool,
) -> bool {
    &&& no_dups(e)
    &&& no_dups(v)
    &&& grounded(rep, e, start)
    &&& forall|k: Seq<char>| rep.dom().contains(k) ==> e.contains(k) || v.contains(k)
    &&& match pending {
        Some(p) => !rep.dom().contains(p) && if collecting {
            v.len() > 0 && p == v.last()
        } else {
            e.len() > 0 && p == e.last()
        },
        None => true,
    }
    &&& if !collecting {
        &&& v.len() == 0
        &&& e.len() == 0 ==> q == seq![start] && pending is None
        &&& forall|i: int|
            0 <= i < e.len() && pending != Some(e[i]) ==> rep.dom().contains(#[trigger] e[i])
                && forall|k: int| 0 <= k < rep[e[i]].len() ==> (e + q).contains(#[trigger] rep[e[i]][k])
        &&& forall|t: int|
            0 <= t < q.len() ==> #[trigger] q[t] == start || exists|j: int|
                0 <= j < e.len() && reported_parent(rep, q[t], e[j])
    } else {
        &&& e.len() > 0
        &&& parents_within(rep, e, e)
        &&& grounded(rep, v, end)
        &&& forall|i: int| 0 <= i < v.len() ==> !e.contains(#[trigger] v[i])
        &&& forall|i: int|
            0 <= i < v.len() && pending != Some(v[i]) ==> rep.dom().contains(#[trigger] v[i])
                && forall|k: int|
                0 <= k < rep[v[i]].len() ==> (e + v + q).contains(#[trigger] rep[v[i]][k])
        &&& forall|t: int|
            0 <= t < q.len() ==> #[trigger] q[t] == end || exists|j: int|
                0 <= j < v.len() && reported_parent(rep, q[t], v[j])
        &&& (e.contains(end) || v.contains(end) || q.contains(end))
    }
}

/// Popping a commit already excluded (first phase) keeps the state consistent.
proof fn lemma_exclude_skip(
    e: Seq<Seq<char>>,
    q: Seq<Seq<char>>,
    rep: Map<Seq<char>, Seq<Seq<char>>>,
    start: Seq<char>,
    end: Seq<char>,
)
    requires
        walk_state_ok(e, seq![], q, rep, start, end, None, false),
        q.len() > 0,
        e.contains(q.last()),
    ensures
        walk_state_ok(e, seq![], q.drop_last(), rep, start, end, None, false),
{
    let q1 = q.drop_last();
    let id = q.last();
    lemma_drop_last_contains(q);
    assert forall|i: int| 0 <= i < e.len() && None::<Seq<char>> != Some(e[i]) implies rep.dom().contains(
        #[trigger] e[i],
    ) && forall|k: int| 0 <= k < rep[e[i]].len() ==> (e + q1).contains(#[trigger] rep[e[i]][k]) by {
        assert forall|k: int| 0 <= k < rep[e[i]].len() implies (e + q1).contains(
            #[trigger] rep[e[i]][k],
        ) by {
            let x = rep[e[i]][k];
            lemma_concat_contains(e, q, x);
            if !e.contains(x) {
                assert(x != id);
                assert(q1.contains(x));
            }
            lemma_contains_concat(e, q1, x);
        }
    }
    assert forall|t: int| 0 <= t < q1.len() implies #[trigger] q1[t] == start || exists|j: int|
        0 <= j < e.len() && reported_parent(rep, q1[t], e[j]) by {
        assert(q1[t] == q[t]);
    }
}

/// Popping a commit not yet excluded (first phase) excludes it and awaits its parents.
proof fn lemma_exclude_push(
    e: Seq<Seq<char>>,
    q: Seq<Seq<char>>,
    rep: Map<Seq<char>, Seq<Seq<char>>>,
    start: Seq<char>,
    end: Seq<char>,
)
    requires
        walk_state_ok(e, seq![], q, rep, start, end, None, false),
        q.len() > 0,
        !e.contains(q.last()),
    ensures
        walk_state_ok(e.push(q.last()), seq![], q.drop_last(), rep, start, end, Some(q.last()), false),
{
    let q1 = q.drop_last();
    let id = q.last();
    let e1 = e.push(id);
    let v: Seq<Seq<char>> = seq![];
    lemma_drop_last_contains(q);
    lemma_push_contains(e, id);
    assert(no_dups(e1)) by {
        assert forall|i: int, j: int| 0 <= i < j < e1.len() implies e1[i] != e1[j] by {
            if j == e.len() {
                assert(e[i] == e1[i]);
            }
        }
    }
    assert forall|k: Seq<char>| rep.dom().contains(k) implies e1.contains(k) || v.contains(k) by {}
    assert(!rep.dom().contains(id)) by {
        if rep.dom().contains(id) {
            assert(e.contains(id) || v.contains(id));
        }
    }
    if e.len() == 0 {
        assert(id == start);
    } else {
        assert(e[0] == start);
        assert(id != start);
        let t = q.len() - 1;
        assert(q[t] == id);
        let j = choose|j: int| 0 <= j < e.len() && reported_parent(rep, q[t], e[j]);
        assert(reported_parent(rep, e1[e.len() as int], e1[j]));
    }
    assert(grounded(rep, e1, start)) by {
        assert forall|i: int| 0 < i < e1.len() implies exists|j: int|
            0 <= j < i && reported_parent(rep, #[trigger] e1[i], e1[j]) by {
            if i < e.len() {
                let j = choose|j: int| 0 <= j < i && reported_parent(rep, e[i], e[j]);
                assert(reported_parent(rep, e1[i], e1[j]));
            }
        }
    }
    assert forall|i: int| 0 <= i < e1.len() && Some(id) != Some(e1[i]) implies rep.dom().contains(
        #[trigger] e1[i],
    ) && forall|k: int| 0 <= k < rep[e1[i]].len() ==> (e1 + q1).contains(#[trigger] rep[e1[i]][k]) by {
        assert(i < e.len());
        assert(e1[i] == e[i]);
        assert forall|k: int| 0 <= k < rep[e1[i]].len() implies (e1 + q1).contains(
            #[trigger] rep[e1[i]][k],
        ) by {
            let x = rep[e[i]][k];
            lemma_concat_contains(e, q, x);
            if e.contains(x) {
                assert(e1.contains(x));
            } else if x == id {
                assert(e1.contains(x));
            } else {
                assert(q1.contains(x));
            }
            lemma_contains_concat(e1, q1, x);
        }
    }
    assert forall|t: int| 0 <= t < q1.len() implies #[trigger] q1[t] == start || exists|j: int|
        0 <= j < e1.len() && reported_parent(rep, q1[t], e1[j]) by {
        assert(q1[t] == q[t]);
        if q[t] != start {
            let j = choose|j: int| 0 <= j < e.len() && reported_parent(rep, q[t], e[j]);
            assert(e1[j] == e[j]);
        }
    }
}

/// With nothing left to exclude, the second phase starts from `end`.
proof fn lemma_switch_phase(
    e: Seq<Seq<char>>,
    rep: Map<Seq<char>, Seq<Seq<char>>>,
    start: Seq<char>,
    end: Seq<char>,
)
    requires
        walk_state_ok(e, seq![], seq![], rep, start, end, None, false),
    ensures
        walk_state_ok(e, seq![], seq![end], rep, start, end, None, true),
{
    let q: Seq<Seq<char>> = seq![];
    let v: Seq<Seq<char>> = seq![];
    assert(e.len() > 0);
    assert(parents_within(rep, e, e)) by {
        assert forall|i: int| 0 <= i < e.len() implies rep.dom().contains(#[trigger] e[i])
            && forall|k: int| 0 <= k < rep[e[i]].len() ==> e.contains(#[trigger] rep[e[i]][k]) by {
            assert(None::<Seq<char>> != Some(e[i]));
            assert(e + q =~= e);
        }
    }
    let q2: Seq<Seq<char>> = seq![end];
    assert(q2[0] == end);
    assert(q2.contains(end));
    assert(e + v + q2 =~= e + q2);
}

/// Popping a commit already excluded or visited (second phase) keeps the state consistent.
proof fn lemma_visit_skip(
    e: Seq<Seq<char>>,
    v: Seq<Seq<char>>,
    q: Seq<Seq<char>>,
    rep: Map<Seq<char>, Seq<Seq<char>>>,
    start: Seq<char>,
    end: Seq<char>,
)
    requires
        walk_state_ok(e, v, q, rep, start, end, None, true),
        q.len() > 0,
        e.contains(q.last()) || v.contains(q.last()),
    ensures
        walk_state_ok(e, v, q.drop_last(), rep, start, end, None, true),
{
    let q1 = q.drop_last();
    let id = q.last();
    lemma_drop_last_contains(q);
    assert forall|i: int| 0 <= i < v.len() && None::<Seq<char>> != Some(v[i]) implies rep.dom().contains(
        #[trigger] v[i],
    ) && forall|k: int| 0 <= k < rep[v[i]].len() ==> (e + v + q1).contains(#[trigger] rep[v[i]][k]) by {
        assert forall|k: int| 0 <= k < rep[v[i]].len() implies (e + v + q1).contains(
            #[trigger] rep[v[i]][k],
        ) by {
            let x = rep[v[i]][k];
            lemma_concat_contains(e + v, q, x);
            if !(e + v).contains(x) {
                assert(x != id) by {
                    if x == id {
                        lemma_contains_concat(e, v, x);
                    }
                }
                assert(q1.contains(x));
            }
            lemma_contains_concat(e + v, q1, x);
        }
    }
    assert forall|t: int| 0 <= t < q1.len() implies #[trigger] q1[t] == end || exists|j: int|
        0 <= j < v.len() && reported_parent(rep, q1[t], v[j]) by {
        assert(q1[t] == q[t]);
    }
    if !(e.contains(end) || v.contains(end)) {
        assert(end != id);
        assert(q1.contains(end));
    }
}

/// Popping a commit neither excluded nor visited (second phase) visits it and awaits its
/// parents.
proof fn lemma_visit_push(
    e: Seq<Seq<char>>,
    v: Seq<Seq<char>>,
    q: Seq<Seq<char>>,
    rep: Map<Seq<char>, Seq<Seq<char>>>,
    start: Seq<char>,
    end: Seq<char>,
)
    requires
        walk_state_ok(e, v, q, rep, start, end, None, true),
        q.len() > 0,
        !e.contains(q.last()),
        !v.contains(q.last()),
    ensures
        walk_state_ok(e, v.push(q.last()), q.drop_last(), rep, start, end, Some(q.last()), true),
{
    let q1 = q.drop_last();
    let id = q.last();
    let v1 = v.push(id);
    lemma_drop_last_contains(q);
    lemma_push_contains(v, id);
    assert(no_dups(v1)) by {
        assert forall|i: int, j: int| 0 <= i < j < v1.len() implies v1[i] != v1[j] by {
            if j == v.len() {
                assert(v[i] == v1[i]);
            }
        }
    }
    assert forall|k: Seq<char>| rep.dom().contains(k) implies e.contains(k) || v1.contains(k) by {}
    assert(!rep.dom().contains(id)) by {
        if rep.dom().contains(id) {
            assert(e.contains(id) || v.contains(id));
        }
    }
    let t = q.len() - 1;
    assert(q[t] == id);
    if v.len() == 0 {
        assert(id == end);
    } else {
        assert(v[0] == end);
        assert(id != end);
        let j = choose|j: int| 0 <= j < v.len() && reported_parent(rep, q[t], v[j]);
        assert(reported_parent(rep, v1[v.len() as int], v1[j]));
    }
    assert(grounded(rep, v1, end)) by {
        assert forall|i: int| 0 < i < v1.len() implies exists|j: int|
            0 <= j < i && reported_parent(rep, #[trigger] v1[i], v1[j]) by {
            if i < v.len() {
                let j = choose|j: int| 0 <= j < i && reported_parent(rep, v[i], v[j]);
                assert(reported_parent(rep, v1[i], v1[j]));
            }
        }
    }
    assert forall|i: int| 0 <= i < v1.len() implies !e.contains(#[trigger] v1[i]) by {
        if i < v.len() {
            assert(v1[i] == v[i]);
        }
    }
    assert forall|i: int| 0 <= i < v1.len() && Some(id) != Some(v1[i]) implies rep.dom().contains(
        #[trigger] v1[i],
    ) && forall|k: int| 0 <= k < rep[v1[i]].len() ==> (e + v1 + q1).contains(#[trigger] rep[v1[i]][k]) by {
        assert(i < v.len());
        assert(v1[i] == v[i]);
        assert forall|k: int| 0 <= k < rep[v1[i]].len() implies (e + v1 + q1).contains(
            #[trigger] rep[v1[i]][k],
        ) by {
            let x = rep[v[i]][k];
            lemma_concat_contains(e + v, q, x);
            if (e + v).contains(x) {
                lemma_concat_contains(e, v, x);
                lemma_contains_concat(e, v1, x);
            } else if x == id {
                assert(v1.contains(x));
                lemma_contains_concat(e, v1, x);
            } else {
                assert(q1.contains(x));
            }
            lemma_contains_concat(e + v1, q1, x);
        }
    }
    assert forall|t: int| 0 <= t < q1.len() implies #[trigger] q1[t] == end || exists|j: int|
        0 <= j < v1.len() && reported_parent(rep, q1[t], v1[j]) by {
        assert(q1[t] == q[t]);
        if q[t] != end {
            let j = choose|j: int| 0 <= j < v.len() && reported_parent(rep, q[t], v[j]);
            assert(v1[j] == v[j]);
        }
    }
    if id == end {
        assert(v1.contains(end));
    } else if e.contains(end) {
    } else if v.contains(end) {
        assert(v1.contains(end));
    } else {
        assert(q1.contains(end));
    }
}

/// With nothing left to visit, the walk is complete.
proof fn lemma_finished(
    e: Seq<Seq<char>>,
    v: Seq<Seq<char>>,
    rep: Map<Seq<char>, Seq<Seq<char>>>,
    start: Seq<char>,
    end: Seq<char>,
)
    requires
        walk_state_ok(e, v, seq![], rep, start, end, None, true),
    ensures
        walk_complete(e, v, rep, start, end),
{
    let q: Seq<Seq<char>> = seq![];
    assert(e + v + q =~= e + v);
    assert(parents_within(rep, v, e + v)) by {
        assert forall|i: int| 0 <= i < v.len() implies rep.dom().contains(#[trigger] v[i])
            && forall|k: int| 0 <= k < rep[v[i]].len() ==> (e + v).contains(#[trigger] rep[v[i]][k]) by {
            assert(None::<Seq<char>> != Some(v[i]));
        }
    }
}

/// Reporting the parents of the awaited commit queues them and keeps the state consistent.
proof fn lemma_report(
    e: Seq<Seq<char>>,
    v: Seq<Seq<char>>,
    q0: Seq<Seq<char>>,
    rep0: Map<Seq<char>, Seq<Seq<char>>>,
    start: Seq<char>,
    end: Seq<char>,
    p: Seq<char>,
    collecting: bool,
    ps: Seq<Seq<char>>,
)
    requires
        walk_state_ok(e, v, q0, rep0, start, end, Some(p), collecting),
    ensures
        walk_state_ok(e, v, q0 + ps, rep0.insert(p, ps), start, end, None, collecting),
{
    let rep1 = rep0.insert(p, ps);
    let q = q0 + ps;
    assert forall|k: Seq<char>| rep0.dom().contains(k) implies rep1[k] == rep0[k] by {
        assert(k != p);
    }
    assert forall|x: Seq<char>| q0.contains(x) implies q.contains(x) by {
        lemma_contains_concat(q0, ps, x);
    }
    assert forall|x: Seq<char>| ps.contains(x) implies q.contains(x) by {
        lemma_contains_concat(q0, ps, x);
    }
    assert(rep1.dom().contains(p) && rep1[p] == ps);
    assert forall|k: Seq<char>| rep1.dom().contains(k) implies e.contains(k) || v.contains(k) by {
        if k != p {
            assert(rep0.dom().contains(k));
        } else if collecting {
            assert(v[v.len() - 1] == p);
        } else {
            assert(e[e.len() - 1] == p);
        }
    }
    assert(grounded(rep1, e, start)) by {
        assert forall|i: int| 0 < i < e.len() implies exists|j: int|
            0 <= j < i && reported_parent(rep1, #[trigger] e[i], e[j]) by {
            let j = choose|j: int| 0 <= j < i && reported_parent(rep0, e[i], e[j]);
            assert(reported_parent(rep1, e[i], e[j]));
        }
    }
    if !collecting {
        let last = e.len() - 1;
        assert(e[last] == p);
        assert forall|i: int| 0 <= i < e.len() && None::<Seq<char>> != Some(e[i]) implies rep1.dom().contains(
            #[trigger] e[i],
        ) && forall|k: int| 0 <= k < rep1[e[i]].len() ==> (e + q).contains(#[trigger] rep1[e[i]][k]) by {
            assert forall|k: int| 0 <= k < rep1[e[i]].len() implies (e + q).contains(
                #[trigger] rep1[e[i]][k],
            ) by {
                let x = rep1[e[i]][k];
                if e[i] == p {
                    assert(ps.contains(ps[k]));
                    assert(q.contains(x));
                } else {
                    assert(Some(p) != Some(e[i]));
                    assert((e + q0).contains(x));
                    lemma_concat_contains(e, q0, x);
                    if q0.contains(x) {
                        assert(q.contains(x));
                    }
                }
                lemma_contains_concat(e, q, x);
            }
        }
        assert forall|t: int| 0 <= t < q.len() implies #[trigger] q[t] == start || exists|j: int|
            0 <= j < e.len() && reported_parent(rep1, q[t], e[j]) by {
            if t < q0.len() {
                assert(q[t] == q0[t]);
                if q0[t] != start {
                    let j = choose|j: int| 0 <= j < e.len() && reported_parent(rep0, q0[t], e[j]);
                    assert(reported_parent(rep1, q[t], e[j]));
                }
            } else {
                assert(ps[t - q0.len()] == q[t]);
                assert(reported_parent(rep1, q[t], e[last]));
            }
        }
    } else {
        let last = v.len() - 1;
        assert(v[last] == p);
        assert forall|i: int| 0 <= i < v.len() && None::<Seq<char>> != Some(v[i]) implies rep1.dom().contains(
            #[trigger] v[i],
        ) && forall|k: int| 0 <= k < rep1[v[i]].len() ==> (e + v + q).contains(#[trigger] rep1[v[i]][k]) by {
            assert forall|k: int| 0 <= k < rep1[v[i]].len() implies (e + v + q).contains(
                #[trigger] rep1[v[i]][k],
            ) by {
                let x = rep1[v[i]][k];
                if v[i] == p {
                    assert(ps.contains(ps[k]));
                    assert(q.contains(x));
                } else {
                    assert(Some(p) != Some(v[i]));
                    assert((e + v + q0).contains(x));
                    lemma_concat_contains(e + v, q0, x);
                    if q0.contains(x) {
                        assert(q.contains(x));
                    }
                }
                lemma_contains_concat(e + v, q, x);
            }
        }
        assert forall|t: int| 0 <= t < q.len() implies #[trigger] q[t] == end || exists|j: int|
            0 <= j < v.len() && reported_parent(rep1, q[t], v[j]) by {
            if t < q0.len() {
                assert(q[t] == q0[t]);
                if q0[t] != end {
                    let j = choose|j: int| 0 <= j < v.len() && reported_parent(rep0, q0[t], v[j]);
                    assert(reported_parent(rep1, q[t], v[j]));
                }
            } else {
                assert(ps[t - q0.len()] == q[t]);
                assert(reported_parent(rep1, q[t], v[last]));
            }
        }
        assert(parents_within(rep1, e, e)) by {
            assert forall|i: int| 0 <= i < e.len() implies rep1.dom().contains(#[trigger] e[i])
                && forall|k: int| 0 <= k < rep1[e[i]].len() ==> e.contains(#[trigger] rep1[e[i]][k]) by {
                assert(e[i] != p) by {
                    assert(!e.contains(v[last]));
                }
            }
        }
        assert(grounded(rep1, v, end)) by {
            assert forall|i: int| 0 < i < v.len() implies exists|j: int|
                0 <= j < i && reported_parent(rep1, #[trigger] v[i], v[j]) by {
                let j = choose|j: int| 0 <= j < i && reported_parent(rep0, v[i], v[j]);
                assert(reported_parent(rep1, v[i], v[j]));
            }
        }
        if q0.contains(end) {
            assert(q.contains(end));
        }
    }
}

impl RangeWalk {
    /// The excluded commits found so far, in the order found.
    pub closed spec fn excluded(&self) -> Seq<Seq<char>> {
        strings_view(self.excluded@)
    }

    /// The commits visited so far, in visit order.
    pub closed spec fn visited(&self) -> Seq<Seq<char>> {
        strings_view(self.visited@)
    }

    /// The parents reported so far.
    pub closed spec fn reported(&self) -> Map<Seq<char>, Seq<Seq<char>>> {
        self.reported@
    }

    /// The start of the range.
    pub closed spec fn start(&self) -> Seq<char> {
        self.start@
    }

    /// The end of the range.
    pub closed spec fn end(&self) -> Seq<char> {
        self.end@
    }

    /// The commit whose parents are awaited, if any.
    pub closed spec fn pending(&self) -> Option<Seq<char>> {
        match self.pending {
            Some(p) => Some(p@),
            None => None,
        }
    }

    /// The parents reported for each visited commit, in visit order.
    pub closed spec fn visited_parents(&self) -> Seq<Seq<Seq<char>>> {
        Seq::new(self.visited@.len(), |i: int| self.reported@[strings_view(self.visited@)[i]])
    }

    /// The parents kept for the visited commits match those reported: one list for each
    /// visited commit but the awaited one.
    spec fn parents_kept(&self) -> bool {
        let v = strings_view(self.visited@);
        &&& self.parents_of@.len() == if self.collecting && self.pending is Some {
            v.len() - 1
        } else if self.collecting {
            v.len() as int
        } else {
            0
        }
        &&& forall|i: int|
            0 <= i < self.parents_of@.len() ==> #[trigger] lists_view(self.parents_of@)[i]
                == self.reported@[v[i]]
    }

    /// The walk's state is consistent.
    pub closed spec fn wf(&self) -> bool {
        &&& self.parents_kept()
        &&& walk_state_ok(
            strings_view(self.excluded@),
            strings_view(self.visited@),
            strings_view(self.queue@),
            self.reported@,
            self.start@,
            self.end@,
            self.pending(),
            self.collecting,
        )
    }

    /// Begin a walk over `start..end`.
    pub fn new(start: String, end: String) -> (r: Self)
        ensures
            r.start() == start@,
            r.end() == end@,
            r.excluded().len() == 0,
            r.visited().len() == 0,
            r.reported() == Map::<Seq<char>, Seq<Seq<char>>>::empty(),
            r.pending() is None,
            r.wf(),
    {
        let ghost s = start@;
        let queue = vec![start];
        assert(strings_view(queue@) =~= seq![s]);
        let r = RangeWalk {
            excluded: Vec::new(),
            queue,
            visited: Vec::new(),
            parents_of: Vec::new(),
            collecting: false,
            end,
            pending: None,
            start: Ghost(s),
            reported: Ghost(Map::empty()),
        };
        assert(strings_view(r.excluded@) =~= Seq::<Seq<char>>::empty());
        assert(strings_view(r.visited@) =~= Seq::<Seq<char>>::empty());
        r
    }

    /// Hand the parents of the awaited commit to the walk (nothing happens when no
    /// commit is awaited).
    pub fn provide_parents(&mut self, parents: Vec<String>)
        requires
            old(self).wf(),
        ensures
            final(self).wf(),
            final(self).start() == old(self).start(),
            final(self).end() == old(self).end(),
            final(self).excluded() == old(self).excluded(),
            final(self).visited() == old(self).visited(),
            final(self).pending() is None,
            match old(self).pending() {
                Some(p) => final(self).reported() == old(self).reported().insert(
                    p,
                    strings_view(parents@),
                ),
                None => final(self).reported() == old(self).reported(),
            },
    {
        let ghost s0 = *self;
        let p = match self.pending.take() {
            Some(p) => p,
            None => {
                return;
            },
        };
        let ghost ps = strings_view(parents@);
        let ghost q0 = strings_view(self.queue@);
        proof {
            lemma_report(
                strings_view(self.excluded@),
                strings_view(self.visited@),
                q0,
                self.reported@,
                self.start@,
                self.end@,
                p@,
                self.collecting,
                ps,
            );
            self.reported@ = self.reported@.insert(p@, ps);
        }
        let mut i: usize = 0;
        while i < parents.len()
            invariant
                i <= parents@.len(),
                ps == strings_view(parents@),
                strings_view(self.queue@) == q0 + ps.take(i as int),
                self.excluded == s0.excluded,
                self.visited == s0.visited,
                self.parents_of == s0.parents_of,
                self.collecting == s0.collecting,
                self.start == s0.start,
                self.end == s0.end,
                self.reported@ == s0.reported@.insert(p@, ps),
                self.pending is None,
            decreases parents@.len() - i,
        {
            let ghost before = self.queue@;
            self.queue.push(parents[i].clone());
            assert(strings_view(self.queue@) =~= strings_view(before).push(ps[i as int]));
            assert(ps.take(i + 1) =~= ps.take(i as int).push(ps[i as int]));
            i = i + 1;
        }
        assert(ps.take(i as int) =~= ps);
        if self.collecting {
            let ghost pk = self.parents_of@;
            let ghost v = strings_view(self.visited@);
            self.parents_of.push(parents);
            proof {
                assert forall|i: int| 0 <= i < self.parents_of@.len() implies #[trigger] lists_view(
                    self.parents_of@,
                )[i] == self.reported@[v[i]] by {
                    if i < pk.len() {
                        assert(lists_view(pk)[i] == s0.reported@[v[i]]);
                        assert(v[i] != v[v.len() - 1]);
                    }
                }
            }
        }
    }

    /// Advance the walk to its next request: the parents of a commit, or the end of the
    /// walk with the commits of the range, oldest first. While a commit's parents are
    /// awaited, the same request is repeated.
    pub fn next_step(&mut self) -> (r: WalkStep)
        requires
            old(self).wf(),
        ensures
            final(self).wf(),
            final(self).start() == old(self).start(),
            final(self).end() == old(self).end(),
            final(self).reported() == old(self).reported(),
            match r {
                WalkStep::NeedParents(c) => final(self).pending() == Some(c@),
                WalkStep::Finished(list) => {
                    &&& final(self).pending() is None
                    &&& walk_complete(
                        final(self).excluded(),
                        final(self).visited(),
                        final(self).reported(),
                        final(self).start(),
                        final(self).end(),
                    )
                    &&& distinct(strings_view(list@))
                    &&& forall|x: Seq<char>|
                        strings_view(list@).contains(x) <==> final(self).visited().contains(x)
                    &&& rankable(final(self).visited(), final(self).visited_parents())
                        ==> parents_first(
                        strings_view(list@),
                        final(self).visited(),
                        final(self).visited_parents(),
                    )
                },
            },
    {
        if let Some(p) = &self.pending {
            return WalkStep::NeedParents(p.clone());
        }
        loop
            invariant
                self.wf(),
                self.pending is None,
                self.start() == old(self).start(),
                self.end() == old(self).end(),
                self.reported() == old(self).reported(),
            decreases (if self.collecting {
                0int
            } else {
                1int
            }), self.queue@.len(),
        {
            let ghost e = strings_view(self.excluded@);
            let ghost v = strings_view(self.visited@);
            let ghost q = strings_view(self.queue@);
            if !self.collecting {
                match self.queue.pop() {
                    Some(id) => {
                        assert(strings_view(self.queue@) =~= q.drop_last());
                        assert(q.last() == id@);
                        let seen = contains_str(&self.excluded, &id);
                        if !seen {
                            proof {
                                lemma_exclude_push(e, q, self.reported@, self.start@, self.end@);
                            }
                            self.excluded.push(id.clone());
                            self.pending = Some(id.clone());
                            assert(strings_view(self.excluded@) =~= e.push(id@));
                            return WalkStep::NeedParents(id);
                        }
                        proof {
                            lemma_exclude_skip(e, q, self.reported@, self.start@, self.end@);
                        }
                    },
                    None => {
                        proof {
                            assert(q =~= Seq::<Seq<char>>::empty());
                            lemma_switch_phase(e, self.reported@, self.start@, self.end@);
                        }
                        self.collecting = true;
                        let end_id = self.end.clone();
                        self.queue.push(end_id);
                        assert(strings_view(self.queue@) =~= seq![self.end@]);
                    },
                }
            } else {
                match self.queue.pop() {
                    Some(id) => {
                        assert(strings_view(self.queue@) =~= q.drop_last());
                        assert(q.last() == id@);
                        let seen = contains_str(&self.excluded, &id) || contains_str(
                            &self.visited,
                            &id,
                        );
                        if !seen {
                            proof {
                                lemma_visit_push(e, v, q, self.reported@, self.start@, self.end@);
                            }
                            self.visited.push(id.clone());
                            self.pending = Some(id.clone());
                            assert(strings_view(self.visited@) =~= v.push(id@));
                            return WalkStep::NeedParents(id);
                        }
                        proof {
                            lemma_visit_skip(e, v, q, self.reported@, self.start@, self.end@);
                        }
                    },
                    None => {
                        proof {
                            assert(q =~= Seq::<Seq<char>>::empty());
                            lemma_finished(e, v, self.reported@, self.start@, self.end@);
                        }
                        assert(lists_view(self.parents_of@) =~= self.visited_parents());
                        let list = oldest_first(&self.visited, &self.parents_of);
                        return WalkStep::Finished(list);
                    },
                }
            }
        }
    }
}

proof fn lemma_drop_last_contains(s: Seq<Seq<char>>)
    requires
        s.len() > 0,
    ensures
        forall|x: Seq<char>| s.contains(x) && x != s.last() ==> s.drop_last().contains(x),
        forall|x: Seq<char>| s.drop_last().contains(x) ==> s.contains(x),
{
    assert forall|x: Seq<char>| s.contains(x) && x != s.last() implies s.drop_last().contains(x) by {
        let i = choose|i: int| 0 <= i < s.len() && s[i] == x;
        assert(s.drop_last()[i] == x);
    }
    assert forall|x: Seq<char>| s.drop_last().contains(x) implies s.contains(x) by {
        let i = choose|i: int| 0 <= i < s.drop_last().len() && s.drop_last()[i] == x;
        assert(s[i] == x);
    }
}

proof fn lemma_push_contains(s: Seq<Seq<char>>, y: Seq<char>)
    ensures
        forall|x: Seq<char>| s.push(y).contains(x) <==> (s.contains(x) || x == y),
{
    assert forall|x: Seq<char>| s.push(y).contains(x) <==> (s.contains(x) || x == y) by {
        if s.contains(x) {
            let i = choose|i: int| 0 <= i < s.len() && s[i] == x;
            assert(s.push(y)[i] == x);
        }
        if x == y {
            assert(s.push(y)[s.len() as int] == y);
        }
        if s.push(y).contains(x) {
            let i = choose|i: int| 0 <= i < s.push(y).len() && s.push(y)[i] == x;
            if i < s.len() {
                assert(s[i] == x);
            }
        }
    }
}

proof fn lemma_concat_contains(a: Seq<Seq<char>>, b: Seq<Seq<char>>, x: Seq<char>)
    requires
        (a + b).contains(x),
    ensures
        a.contains(x) || b.contains(x),
{
    let i = choose|i: int| 0 <= i < (a + b).len() && (a + b)[i] == x;
    if i < a.len() {
        assert(a[i] == x);
    } else {
        assert(b[i - a.len()] == x);
    }
}

proof fn lemma_contains_concat(a: Seq<Seq<char>>, b: Seq<Seq<char>>, x: Seq<char>)
    requires
        a.contains(x) || b.contains(x),
    ensures
        (a + b).contains(x),
{
    if a.contains(x) {
        let i = choose|i: int| 0 <= i < a.len() && a[i] == x;
        assert((a + b)[i] == x);
    } else {
        let i = choose|i: int| 0 <= i < b.len() && b[i] == x;
        assert((a + b)[a.len() + i] == x);
    }
}

/// Whether a commit is in a list.
pub fn contains_str(v: &Vec<String>, x: &String) -> (r: bool)
    ensures
        r == strings_view(v@).contains(x@),
{
    let mut i: usize = 0;
    while i < v.len()
        invariant
            i <= v@.len(),
            forall|j: int| 0 <= j < i ==> strings_view(v@)[j] != x@,
        decreases v@.len() - i,
    {
        if v[i].eq(x) {
            assert(strings_view(v@)[i as int] == x@);
            return true;
        }
        i = i + 1;
    }
    false
}

} // verus!
