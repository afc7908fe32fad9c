//! Ordering commits oldest first: every commit after the ones it descends from.
use vstd::prelude::*;
use crate::domain::text::strings_view;

verus! {

/// No element occurs twice.
pub open spec fn distinct<T>(s: Seq<T>) -> bool {
    forall|i: int, j: int| 0 <= i < j < s.len() ==> s[i] != s[j]
}

/// The parent lists, as values.
pub open spec fn lists_view(v: Seq<Vec<String>>) -> Seq<Seq<Seq<char>>> {
    v.map_values(|x: Vec<String>| strings_view(x@))
}

/// `rank` puts each commit above its parents (among the commits `ns`, whose parents
/// are `par`): the commits can be numbered so, as generation numbers number any
/// commit graph.
pub open spec fn ranked(
    ns: Seq<Seq<char>>,
    par: Seq<Seq<Seq<char>>>,
    rank: spec_fn(Seq<char>) -> int,
) -> bool {
    forall|i: int, k: int|
        0 <= i < ns.len() && 0 <= k < ns.len() && #[trigger] par[i].contains(#[trigger] ns[k])
            ==> rank(ns[k]) < rank(ns[i])
}

/// The parent relation among the commits has no cycle: some numbering puts every commit
/// above its parents.
pub open spec fn rankable(ns: Seq<Seq<char>>, par: Seq<Seq<Seq<char>>>) -> bool {
    exists|rank: spec_fn(Seq<char>) -> int| ranked(ns, par, rank)
}

/// In `r`, every commit of `ns` comes after those of its parents (`par`) that are among
/// `ns`.
pub open spec fn parents_first(r: Seq<Seq<char>>, ns: Seq<Seq<char>>, par: Seq<Seq<Seq<char>>>) -> bool {
    forall|i: int, m: int, k: int|
        #![trigger r[i], par[m].contains(ns[k])]
        0 <= i < r.len() && 0 <= m < ns.len() && 0 <= k < ns.len() && r[i] == ns[m]
            && par[m].contains(ns[k]) ==> exists|j: int| 0 <= j < i && #[trigger] r[j] == ns[k]
}

/// The number of set flags.
pub open spec fn count_set(s: Seq<bool>) -> nat
    decreases s.len(),
{
    if s.len() == 0 {
        0
    } else {
        count_set(s.drop_last()) + if s.last() {
            1nat
        } else {
            0nat
        }
    }
}

proof fn lemma_count_bound(s: Seq<bool>)
    ensures
        count_set(s) <= s.len(),
    decreases s.len(),
{
    if s.len() > 0 {
        lemma_count_bound(s.drop_last());
    }
}

proof fn lemma_count_update(s: Seq<bool>, i: int)
    requires
        0 <= i < s.len(),
        !s[i],
    ensures
        count_set(s.update(i, true)) == count_set(s) + 1,
    decreases s.len(),
{
    let u = s.update(i, true);
    if i == s.len() - 1 {
        assert(u.drop_last() =~= s.drop_last());
    } else {
        assert(u.drop_last() =~= s.drop_last().update(i, true));
        lemma_count_update(s.drop_last(), i);
    }
}

/// The state of the ordering: `order` lists distinct positions, exactly the placed ones,
/// each after its placed parents.
spec fn order_ok(ns: Seq<Seq<char>>, par: Seq<Seq<Seq<char>>>, placed: Seq<bool>, order: Seq<usize>) -> bool {
    &&& placed.len() == ns.len()
    &&& distinct(order)
    &&& order.len() == count_set(placed)
    &&& forall|t: int| 0 <= t < order.len() ==> #[trigger] order[t] < ns.len()
    &&& forall|k: int| 0 <= k < ns.len() ==> (placed[k] <==> order.contains(k as usize))
    &&& forall|t: int, k: int|
        0 <= t < order.len() && 0 <= k < ns.len() && #[trigger] par[order[t] as int].contains(
            #[trigger] ns[k],
        ) ==> exists|j: int| 0 <= j < t && order[j] == k as usize
}

/// Some unplaced commit has no unplaced parent, or every commit is placed.
spec fn ready_spec(ns: Seq<Seq<char>>, par: Seq<Seq<Seq<char>>>, placed: Seq<bool>, i: int) -> bool {
    forall|k: int| 0 <= k < ns.len() && #[trigger] par[i].contains(ns[k]) ==> placed[k]
}

fn index_of(ns: &Vec<String>, q: &String) -> (r: Option<usize>)
    ensures
        match r {
            Some(k) => k < ns@.len() && strings_view(ns@)[k as int] == q@,
            None => !strings_view(ns@).contains(q@),
        },
{
    let mut k: usize = 0;
    while k < ns.len()
        invariant
            k <= ns@.len(),
            forall|j: int| 0 <= j < k ==> strings_view(ns@)[j] != q@,
        decreases ns@.len() - k,
    {
        if ns[k].eq(q) {
            return Some(k);
        }
        k = k + 1;
    }
    None
}

fn ready(ns: &Vec<String>, ps: &Vec<Vec<String>>, placed: &Vec<bool>, i: usize) -> (r: bool)
    requires
        ns@.len() == ps@.len(),
        placed@.len() == ns@.len(),
        i < ns@.len(),
        distinct(strings_view(ns@)),
    ensures
        r == ready_spec(strings_view(ns@), lists_view(ps@), placed@, i as int),
{
    let ghost nv = strings_view(ns@);
    let ghost pv = lists_view(ps@);
    let parents = &ps[i];
    assert(pv[i as int] == strings_view(parents@));
    let mut t: usize = 0;
    while t < parents.len()
        invariant
            t <= parents@.len(),
            nv == strings_view(ns@),
            pv == lists_view(ps@),
            pv[i as int] == strings_view(parents@),
            placed@.len() == ns@.len(),
            distinct(nv),
            forall|u: int, k: int|
                0 <= u < t && 0 <= k < nv.len() && #[trigger] strings_view(parents@)[u] == #[trigger] nv[k]
                    ==> placed@[k],
        decreases parents@.len() - t,
    {
        match index_of(ns, &parents[t]) {
            Some(k) => {
                if !placed[k] {
                    assert(pv[i as int][t as int] == nv[k as int]);
                    assert(pv[i as int].contains(nv[k as int]));
                    return false;
                }
                assert forall|k2: int| 0 <= k2 < nv.len() && #[trigger] strings_view(parents@)[t as int] == #[trigger] nv[k2] implies placed@[k2] by {
                    assert(nv[k2] == nv[k as int]);
                }
            },
            None => {
                assert forall|k2: int| 0 <= k2 < nv.len() && #[trigger] strings_view(parents@)[t as int] == #[trigger] nv[k2] implies placed@[k2] by {
                    assert(nv.contains(nv[k2]));
                }
            },
        }
        t = t + 1;
    }
    assert forall|k: int| 0 <= k < nv.len() && #[trigger] pv[i as int].contains(nv[k]) implies placed@[k] by {
        let u = choose|u: int| 0 <= u < pv[i as int].len() && pv[i as int][u] == nv[k];
        assert(strings_view(parents@)[u] == nv[k]);
    }
    true
}

proof fn lemma_min_unplaced(
    ns: Seq<Seq<char>>,
    placed: Seq<bool>,
    rank: spec_fn(Seq<char>) -> int,
    m: int,
    j: int,
)
    requires
        placed.len() == ns.len(),
        0 <= j < m <= ns.len(),
        !placed[j],
    ensures
        exists|x: int|
            0 <= x < m && !placed[x] && forall|y: int|
                0 <= y < m && !placed[y] ==> rank(ns[x]) <= rank(ns[y]),
    decreases m,
{
    if exists|y: int| 0 <= y < m - 1 && !placed[y] {
        let y0 = choose|y: int| 0 <= y < m - 1 && !placed[y];
        lemma_min_unplaced(ns, placed, rank, m - 1, y0);
        let x = choose|x: int|
            0 <= x < m - 1 && !placed[x] && forall|y: int|
                0 <= y < m - 1 && !placed[y] ==> rank(ns[x]) <= rank(ns[y]);
        if !placed[m - 1] && rank(ns[m - 1]) < rank(ns[x]) {
            assert forall|y: int| 0 <= y < m && !placed[y] implies rank(ns[m - 1]) <= rank(ns[y]) by {
                if y < m - 1 {
                }
            }
        } else {
            assert forall|y: int| 0 <= y < m && !placed[y] implies rank(ns[x]) <= rank(ns[y]) by {
                if y < m - 1 {
                }
            }
        }
    } else {
        assert(j == m - 1);
        assert forall|y: int| 0 <= y < m && !placed[y] implies rank(ns[j]) <= rank(ns[y]) by {
            assert(y == m - 1);
        }
    }
}

/// When nothing more can be placed and the commits are rankable, all are placed.
proof fn lemma_stuck_means_done(ns: Seq<Seq<char>>, par: Seq<Seq<Seq<char>>>, placed: Seq<bool>)
    requires
        placed.len() == ns.len(),
        par.len() == ns.len(),
        rankable(ns, par),
        forall|i: int| 0 <= i < ns.len() ==> placed[i] || !ready_spec(ns, par, placed, i),
    ensures
        forall|i: int| 0 <= i < ns.len() ==> placed[i],
{
    let rank = choose|rank: spec_fn(Seq<char>) -> int| ranked(ns, par, rank);
    if exists|j: int| 0 <= j < ns.len() && !placed[j] {
        let j = choose|j: int| 0 <= j < ns.len() && !placed[j];
        lemma_min_unplaced(ns, placed, rank, ns.len() as int, j);
        let x = choose|x: int|
            0 <= x < ns.len() && !placed[x] && forall|y: int|
                0 <= y < ns.len() && !placed[y] ==> rank(ns[x]) <= rank(ns[y]);
        assert(!ready_spec(ns, par, placed, x));
        let k = choose|k: int| 0 <= k < ns.len() && #[trigger] par[x].contains(ns[k]) && !placed[k];
        assert(rank(ns[k]) < rank(ns[x]));
        assert(false);
    }
}

/// The commits, oldest first: each after those of its parents that are among them, as
/// long as the parent relation has no cycle (any commit graph); each commit appears once.
pub fn oldest_first(ns: &Vec<String>, ps: &Vec<Vec<String>>) -> (r: Vec<String>)
    requires
        ns@.len() == ps@.len(),
        distinct(strings_view(ns@)),
    ensures
        distinct(strings_view(r@)),
        forall|x: Seq<char>| strings_view(r@).contains(x) <==> strings_view(ns@).contains(x),
        rankable(strings_view(ns@), lists_view(ps@)) ==> parents_first(
            strings_view(r@),
            strings_view(ns@),
            lists_view(ps@),
        ),
{
    let ghost nv = strings_view(ns@);
    let ghost pv = lists_view(ps@);
    let n = ns.len();
    let mut placed: Vec<bool> = Vec::new();
    let mut k: usize = 0;
    while k < n
        invariant
            k <= n,
            placed@.len() == k,
            forall|j: int| 0 <= j < k ==> !placed@[j],
        decreases n - k,
    {
        placed.push(false);
        k = k + 1;
    }
    proof {
        assert(count_set(placed@) == 0) by {
            assert forall|m: int| 0 <= m <= placed@.len() implies count_set(#[trigger] placed@.take(m)) == 0 by {
                lemma_count_zero(placed@, m);
            }
            assert(placed@.take(placed@.len() as int) =~= placed@);
        }
    }
    let mut order: Vec<usize> = Vec::new();
    loop
        invariant
            n == ns@.len(),
            n == ps@.len(),
            nv == strings_view(ns@),
            pv == lists_view(ps@),
            distinct(nv),
            order_ok(nv, pv, placed@, order@),
        ensures
            order_ok(nv, pv, placed@, order@),
            forall|i: int| 0 <= i < n ==> placed@[i] || !ready_spec(nv, pv, placed@, i),
        decreases n - order@.len(),
    {
        proof {
            lemma_count_bound(placed@);
        }
        let start = order.len();
        let mut progress = false;
        let mut i: usize = 0;
        while i < n
            invariant
                n == ns@.len(),
                n == ps@.len(),
                nv == strings_view(ns@),
                pv == lists_view(ps@),
                distinct(nv),
                i <= n,
                order_ok(nv, pv, placed@, order@),
                start <= order@.len(),
                progress <==> order@.len() > start,
                !progress ==> forall|j: int| 0 <= j < i ==> placed@[j] || !ready_spec(nv, pv, placed@, j),
            decreases n - i,
        {
            if !placed[i] && ready(ns, ps, &placed, i) {
                let ghost pl = placed@;
                let ghost od = order@;
                proof {
                    lemma_count_update(pl, i as int);
                }
                placed.set(i, true);
                order.push(i);
                proof {
                    assert(placed@ == pl.update(i as int, true));
                    assert(!od.contains(i));
                    assert forall|k: int| 0 <= k < nv.len() implies (placed@[k] <==> order@.contains(k as usize)) by {
                        if k == i {
                            assert(order@[od.len() as int] == i);
                        } else {
                            if od.contains(k as usize) {
                                let t = choose|t: int| 0 <= t < od.len() && od[t] == k as usize;
                                assert(order@[t] == k as usize);
                            }
                            if order@.contains(k as usize) {
                                let t = choose|t: int| 0 <= t < order@.len() && order@[t] == k as usize;
                                assert(t < od.len());
                                assert(od[t] == k as usize);
                            }
                        }
                    }
                    assert(distinct(order@)) by {
                        assert forall|a: int, b: int| 0 <= a < b < order@.len() implies order@[a] != order@[b] by {
                            if b == od.len() {
                                assert(od.contains(od[a]));
                                if od[a] == i {
                                }
                            }
                        }
                    }
                    assert forall|t: int, k: int|
                        0 <= t < order@.len() && 0 <= k < nv.len() && #[trigger] pv[order@[t] as int].contains(
                            #[trigger] nv[k],
                        ) implies exists|j: int| 0 <= j < t && order@[j] == k as usize by {
                        if t < od.len() {
                            assert(order@[t] == od[t]);
                            let j = choose|j: int| 0 <= j < t && od[j] == k as usize;
                            assert(order@[j] == k as usize);
                        } else {
                            assert(order@[t] == i);
                            assert(ready_spec(nv, pv, pl, i as int));
                            assert(pl[k]);
                            assert(od.contains(k as usize));
                            let j = choose|j: int| 0 <= j < od.len() && od[j] == k as usize;
                            assert(order@[j] == k as usize);
                        }
                    }
                }
                progress = true;
            }
            i = i + 1;
        }
        proof {
            lemma_count_bound(placed@);
        }
        if !progress {
            break;
        }
    }
    let ghost main_order = order@;
    let mut i: usize = 0;
    while i < n
        invariant
            n == ns@.len(),
            placed@.len() == n,
            i <= n,
            distinct(order@),
            main_order.len() <= order@.len(),
            forall|t: int| 0 <= t < main_order.len() ==> order@[t] == main_order[t],
            forall|t: int| 0 <= t < order@.len() ==> #[trigger] order@[t] < n,
            forall|k: int| 0 <= k < n && placed@[k] ==> order@.contains(k as usize),
            forall|k: usize| k < i ==> #[trigger] order@.contains(k),
            forall|k: int| i <= k < n && !placed@[k] ==> !order@.contains(k as usize),
            forall|k: int| 0 <= k < n ==> (placed@[k] <==> main_order.contains(k as usize)),
            (forall|k: int| 0 <= k < n ==> placed@[k]) ==> order@ == main_order,
        decreases n - i,
    {
        if !placed[i] {
            let ghost od = order@;
            order.push(i);
            proof {
                assert(distinct(order@)) by {
                    assert forall|a: int, b: int| 0 <= a < b < order@.len() implies order@[a] != order@[b] by {
                        if b == od.len() {
                            assert(od.contains(od[a]));
                        }
                    }
                }
                assert forall|k: int| 0 <= k < n && placed@[k] implies order@.contains(k as usize) by {
                    let t = choose|t: int| 0 <= t < od.len() && od[t] == k as usize;
                    assert(order@[t] == k as usize);
                }
                assert forall|k: usize| k < i + 1 implies #[trigger] order@.contains(k) by {
                    if k == i {
                        assert(order@[od.len() as int] == i);
                    } else {
                        assert(od.contains(k));
                        let t = choose|t: int| 0 <= t < od.len() && od[t] == k;
                        assert(order@[t] == k);
                    }
                }
                assert forall|k: int| i + 1 <= k < n && !placed@[k] implies !order@.contains(k as usize) by {
                    if order@.contains(k as usize) {
                        let t = choose|t: int| 0 <= t < order@.len() && order@[t] == k as usize;
                        if t < od.len() {
                            assert(od.contains(k as usize));
                        }
                    }
                }
            }
        } else {
            assert(order@.contains(i));
        }
        i = i + 1;
    }
    let mut r: Vec<String> = Vec::new();
    let mut t: usize = 0;
    while t < order.len()
        invariant
            n == ns@.len(),
            nv == strings_view(ns@),
            t <= order@.len(),
            forall|u: int| 0 <= u < order@.len() ==> #[trigger] order@[u] < n,
            r@.len() == t,
            forall|u: int| 0 <= u < t ==> strings_view(r@)[u] == nv[order@[u] as int],
        decreases order@.len() - t,
    {
        let ghost before = r@;
        let j = order[t];
        let s = ns[j].clone();
        assert(s@ == nv[j as int]);
        let ghost sv = s@;
        r.push(s);
        assert forall|u: int| 0 <= u < t + 1 implies strings_view(r@)[u] == nv[order@[u] as int] by {
            if u < t {
                assert(r@[u] == before[u]);
                assert(strings_view(before)[u] == nv[order@[u] as int]);
            } else {
                assert(r@[u]@ == sv);
            }
        }
        t = t + 1;
    }
    let ghost rv = strings_view(r@);
    proof {
        assert(rv.len() == order@.len());
        assert(distinct(rv)) by {
            assert forall|a: int, b: int| 0 <= a < b < rv.len() implies rv[a] != rv[b] by {
                assert(order@[a] != order@[b]);
            }
        }
        assert forall|x: Seq<char>| rv.contains(x) <==> nv.contains(x) by {
            if rv.contains(x) {
                let u = choose|u: int| 0 <= u < rv.len() && rv[u] == x;
                assert(nv[order@[u] as int] == x);
            }
            if nv.contains(x) {
                let k = choose|k: int| 0 <= k < nv.len() && nv[k] == x;
                assert(order@.contains(k as usize));
                let u = choose|u: int| 0 <= u < order@.len() && order@[u] == k as usize;
                assert(rv[u] == x);
            }
        }
        if rankable(nv, pv) {
            lemma_stuck_means_done(nv, pv, placed@);
            assert(order@ == main_order);
            assert forall|i2: int, m: int, k: int|
                #![trigger rv[i2], pv[m].contains(nv[k])]
                0 <= i2 < rv.len() && 0 <= m < nv.len() && 0 <= k < nv.len() && rv[i2] == nv[m]
                    && pv[m].contains(nv[k]) implies exists|j: int|
                0 <= j < i2 && #[trigger] rv[j] == nv[k] by {
                assert(nv[order@[i2] as int] == nv[m]);
                assert(order@[i2] as int == m);
                assert(pv[order@[i2] as int].contains(nv[k]));
                let j = choose|j: int| 0 <= j < i2 && main_order[j] == k as usize;
                assert(rv[j] == nv[k]);
            }
        }
    }
    r
}

proof fn lemma_count_zero(s: Seq<bool>, m: int)
    requires
        0 <= m <= s.len(),
        forall|j: int| 0 <= j < s.len() ==> !s[j],
    ensures
        count_set(s.take(m)) == 0,
    decreases m,
{
    if m > 0 {
        assert(s.take(m).drop_last() =~= s.take(m - 1));
        lemma_count_zero(s, m - 1);
    }
}

} // verus!
