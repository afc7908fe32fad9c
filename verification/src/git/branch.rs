//! Atomic branch names and their state relative to the base commit.
use vstd::prelude::*;
use crate::domain::error::GitError;
use crate::domain::text::{matches_at, occurs_at, substring, to_chars};

verus! {

/// The placeholder in branch templates for the component's name, `{component}`.
pub open spec fn placeholder() -> Seq<char> {
    seq!['{', 'c', 'o', 'm', 'p', 'o', 'n', 'e', 'n', 't', '}']
}

/// The other spelling of the placeholder, `{name}`.
pub open spec fn name_placeholder() -> Seq<char> {
    seq!['{', 'n', 'a', 'm', 'e', '}']
}

/// `template` with every `{component}` and every `{name}`, scanning left to right,
/// replaced by the component's name.
pub open spec fn spec_fill_template(template: Seq<char>, component: Seq<char>) -> Seq<char>
    decreases template.len(),
{
    if template.len() == 0 {
        template
    } else if occurs_at(template, placeholder(), 0) {
        component + spec_fill_template(template.skip(placeholder().len() as int), component)
    } else if occurs_at(template, name_placeholder(), 0) {
        component + spec_fill_template(template.skip(name_placeholder().len() as int), component)
    } else {
        seq![template[0]] + spec_fill_template(template.skip(1), component)
    }
}

/// A text without `{` is left unchanged by filling.
pub proof fn lemma_fill_no_brace(t: Seq<char>, component: Seq<char>)
    requires
        forall|k: int| 0 <= k < t.len() ==> t[k] != '{',
    ensures
        spec_fill_template(t, component) == t,
    decreases t.len(),
{
    if t.len() > 0 {
        assert(!occurs_at(t, placeholder(), 0)) by {
            if occurs_at(t, placeholder(), 0) {
                assert(t.subrange(0, 11)[0] == t[0]);
            }
        }
        assert(!occurs_at(t, name_placeholder(), 0)) by {
            if occurs_at(t, name_placeholder(), 0) {
                assert(t.subrange(0, 6)[0] == t[0]);
            }
        }
        lemma_fill_no_brace(t.skip(1), component);
        assert(seq![t[0]] + t.skip(1) =~= t);
    }
}

/// A template with one placeholder, written `{component}` or `{name}`, and no `{`
/// elsewhere, becomes the text around the placeholder with the component in its place.
pub proof fn lemma_fill_single_placeholder(a: Seq<char>, b: Seq<char>, pat: Seq<char>, component: Seq<char>)
    requires
        pat == placeholder() || pat == name_placeholder(),
        forall|k: int| 0 <= k < a.len() ==> a[k] != '{',
        forall|k: int| 0 <= k < b.len() ==> b[k] != '{',
    ensures
        spec_fill_template(a + pat + b, component) == a + component + b,
    decreases a.len(),
{
    let s = a + pat + b;
    if a.len() == 0 {
        assert(s =~= pat + b);
        assert(s.subrange(0, pat.len() as int) =~= pat);
        assert(s.skip(pat.len() as int) =~= b);
        if pat == name_placeholder() {
            assert(!occurs_at(s, placeholder(), 0)) by {
                if occurs_at(s, placeholder(), 0) {
                    assert(s.subrange(0, 11)[1] == s[1]);
                }
            }
        }
        lemma_fill_no_brace(b, component);
        assert(a + component + b =~= component + b);
    } else {
        assert(s[0] == a[0]);
        assert(!occurs_at(s, placeholder(), 0)) by {
            if occurs_at(s, placeholder(), 0) {
                assert(s.subrange(0, 11)[0] == s[0]);
            }
        }
        assert(!occurs_at(s, name_placeholder(), 0)) by {
            if occurs_at(s, name_placeholder(), 0) {
                assert(s.subrange(0, 6)[0] == s[0]);
            }
        }
        assert(s.skip(1) =~= a.skip(1) + pat + b);
        lemma_fill_single_placeholder(a.skip(1), b, pat, component);
        assert(a + component + b =~= seq![a[0]] + (a.skip(1) + component + b));
    }
}

/// The full ref name for a component branch: the override if given, otherwise the
/// template with its placeholders (`{component}` or `{name}`) replaced, under
/// `refs/heads/`.
pub open spec fn spec_branch_ref_name(
    template: Seq<char>,
    component: Seq<char>,
    branch_override: Option<Seq<char>>,
) -> Seq<char> {
    "refs/heads/"@ + match branch_override {
        Some(name) => name,
        None => spec_fill_template(template, component),
    }
}

/// The view of an optional string slice.
pub open spec fn opt_str_view(o: Option<&str>) -> Option<Seq<char>> {
    match o {
        Some(s) => Some(s@),
        None => None,
    }
}

/// Fill a branch template: every `{component}` and every `{name}` becomes the
/// component's name.
pub fn fill_template(template: &str, component: &str) -> (r: String)
    ensures
        r@ == spec_fill_template(template@, component@),
{
    let tc = to_chars(template);
    let pc = to_chars("{component}");
    let nc = to_chars("{name}");
    proof {
        reveal_strlit("{component}");
        reveal_strlit("{name}");
        assert(pc@ =~= placeholder());
        assert(nc@ =~= name_placeholder());
    }
    let n = tc.len();
    let mut r = String::new();
    let mut i: usize = 0;
    assert(template@.skip(0) =~= template@);
    assert(r@ + spec_fill_template(template@, component@) =~= spec_fill_template(template@, component@));
    while i < n
        invariant
            tc@ == template@,
            pc@ == placeholder(),
            nc@ == name_placeholder(),
            n == tc@.len(),
            i <= n,
            r@ + spec_fill_template(template@.skip(i as int), component@) == spec_fill_template(
                template@,
                component@,
            ),
        decreases n - i,
    {
        let ghost rest = template@.skip(i as int);
        proof {
            assert(rest.len() > 0);
            if i + 11 <= n {
                assert(rest.subrange(0, 11) =~= template@.subrange(i as int, i + 11));
            }
            if i + 6 <= n {
                assert(rest.subrange(0, 6) =~= template@.subrange(i as int, i + 6));
            }
        }
        if matches_at(&tc, &pc, i) {
            proof {
                assert(occurs_at(rest, placeholder(), 0));
                assert(rest.skip(11) =~= template@.skip(i + 11));
                assert((r@ + component@) + spec_fill_template(template@.skip(i + 11), component@)
                    =~= r@ + spec_fill_template(rest, component@));
            }
            r.append(component);
            i = i + 11;
        } else if matches_at(&tc, &nc, i) {
            proof {
                assert(!occurs_at(rest, placeholder(), 0));
                assert(occurs_at(rest, name_placeholder(), 0));
                assert(rest.skip(6) =~= template@.skip(i + 6));
                assert((r@ + component@) + spec_fill_template(template@.skip(i + 6), component@)
                    =~= r@ + spec_fill_template(rest, component@));
            }
            r.append(component);
            i = i + 6;
        } else {
            proof {
                assert(!occurs_at(rest, placeholder(), 0));
                assert(!occurs_at(rest, name_placeholder(), 0));
                assert(rest.skip(1) =~= template@.skip(i + 1));
                assert((r@ + seq![template@[i as int]]) + spec_fill_template(template@.skip(i + 1), component@)
                    =~= r@ + spec_fill_template(rest, component@));
            }
            let c = substring(template, i, i + 1);
            assert(c@ =~= seq![template@[i as int]]);
            r.append(c.as_str());
            i = i + 1;
        }
    }
    proof {
        assert(template@.skip(i as int).len() == 0);
        assert(r@ + spec_fill_template(template@.skip(i as int), component@) =~= r@);
    }
    r
}

/// Compute the full ref name for a component branch.
pub fn ref_name_for(template: &str, component: &str, branch_override: Option<&str>) -> (r: String)
    ensures
        r@ == spec_branch_ref_name(template@, component@, opt_str_view(branch_override)),
{
    let name = match branch_override {
        Some(name) => name.to_string(),
        None => fill_template(template, component),
    };
    "refs/heads/".to_string().concat(name.as_str())
}

/// State of an atomic branch relative to the base commit. Commits are named by their
/// hexadecimal object ids.
#[derive(Debug)]
pub enum BranchState {
    /// Branch does not exist yet.
    Missing,
    /// Branch tip equals the base commit.
    Current,
    /// Base is an ancestor of tip (safe to append).
    FastForward { tip: String },
    /// Tip is an ancestor of base: the branch is behind its base (safe to rebuild on
    /// the base, which contains the tip).
    Behind { tip: String },
    /// Neither is an ancestor of the other.
    Diverged { tip: String },
}

/// The value of a [`BranchState`].
pub enum BranchStateView {
    Missing,
    Current,
    FastForward(Seq<char>),
    Behind(Seq<char>),
    Diverged(Seq<char>),
}

impl View for BranchState {
    type V = BranchStateView;

    open spec fn view(&self) -> BranchStateView {
        match self {
            BranchState::Missing => BranchStateView::Missing,
            BranchState::Current => BranchStateView::Current,
            BranchState::FastForward { tip } => BranchStateView::FastForward(tip@),
            BranchState::Behind { tip } => BranchStateView::Behind(tip@),
            BranchState::Diverged { tip } => BranchStateView::Diverged(tip@),
        }
    }
}

impl PartialEq for BranchState {
    fn eq(&self, other: &Self) -> (r: bool) {
        match (self, other) {
            (BranchState::Missing, BranchState::Missing) => true,
            (BranchState::Current, BranchState::Current) => true,
            (BranchState::FastForward { tip: a }, BranchState::FastForward { tip: b }) => a.eq(b),
            (BranchState::Behind { tip: a }, BranchState::Behind { tip: b }) => a.eq(b),
            (BranchState::Diverged { tip: a }, BranchState::Diverged { tip: b }) => a.eq(b),
            _ => false,
        }
    }
}

impl vstd::std_specs::cmp::PartialEqSpecImpl for BranchState {
    open spec fn obeys_eq_spec() -> bool {
        true
    }

    open spec fn eq_spec(&self, other: &Self) -> bool {
        self@ == other@
    }
}

/// The state of a branch from its tip (if the branch exists), the base commit, and the
/// merge base of tip and base (consulted only when they differ): missing, current (tip
/// is the base), fast-forward (the merge base is the base, so the base is an ancestor of
/// the tip), behind (the merge base is the tip, so the tip is an ancestor of the base),
/// diverged otherwise (neither is an ancestor of the other).
pub open spec fn spec_branch_state(
    tip: Option<Seq<char>>,
    base: Seq<char>,
    merge_base: Option<Seq<char>>,
) -> BranchStateView {
    match tip {
        None => BranchStateView::Missing,
        Some(t) => if t == base {
            BranchStateView::Current
        } else if merge_base == Some(base) {
            BranchStateView::FastForward(t)
        } else if merge_base == Some(t) {
            BranchStateView::Behind(t)
        } else {
            BranchStateView::Diverged(t)
        },
    }
}

/// The diverged-branch error text.
pub open spec fn diverged_message(ref_name: Seq<char>) -> Seq<char> {
    "branch "@ + ref_name + " has diverged from base; use --force to override"@
}

/// The parent of a new atomic commit, by branch state: the base for a missing, current
/// or behind branch, the tip when fast-forward, the base for a diverged branch only when
/// forced (otherwise the diverged-branch error).
pub open spec fn spec_parent_for(
    state: BranchStateView,
    base: Seq<char>,
    ref_name: Seq<char>,
    force: bool,
) -> Result<Seq<char>, Seq<char>> {
    match state {
        BranchStateView::Missing => Ok(base),
        BranchStateView::Current => Ok(base),
        BranchStateView::FastForward(tip) => Ok(tip),
        BranchStateView::Behind(_) => Ok(base),
        BranchStateView::Diverged(_) => if force {
            Ok(base)
        } else {
            Err(diverged_message(ref_name))
        },
    }
}

/// Manages atomic branch naming and state decisions.
pub struct BranchManager {
    base_id: String,
    branch_template: String,
}

impl BranchManager {
    pub fn new(base_id: String, branch_template: String) -> (r: Self)
        ensures
            r.base()@ == base_id@,
            r.template()@ == branch_template@,
    {
        Self { base_id, branch_template }
    }

    /// The base commit.
    pub closed spec fn base(&self) -> String {
        self.base_id
    }

    /// A copy of the base commit.
    pub fn base_id(&self) -> (r: String)
        ensures
            r@ == self.base()@,
    {
        self.base_id.clone()
    }

    /// The branch template.
    pub closed spec fn template(&self) -> String {
        self.branch_template
    }

    /// Compute the full ref name for a component branch.
    /// Uses the component's branch override if present, otherwise the template.
    pub fn branch_ref_name(&self, component: &str, branch_override: Option<&str>) -> (r: String)
        ensures
            r@ == spec_branch_ref_name(
                self.template()@,
                component@,
                opt_str_view(branch_override),
            ),
    {
        ref_name_for(self.branch_template.as_str(), component, branch_override)
    }

    /// The state of a branch from its tip (`None` when the ref does not exist) and the
    /// merge base of tip and base (consulted only when tip and base differ).
    pub fn check_state(&self, tip: Option<String>, merge_base: Option<String>) -> (r: BranchState)
        ensures
            r@ == spec_branch_state(
                match tip {
                    Some(t) => Some(t@),
                    None => None,
                },
                self.base()@,
                match merge_base {
                    Some(t) => Some(t@),
                    None => None,
                },
            ),
    {
        match tip {
            None => BranchState::Missing,
            Some(t) => {
                if t.eq(&self.base_id) {
                    BranchState::Current
                } else {
                    let ff = match &merge_base {
                        Some(mb) => mb.eq(&self.base_id),
                        None => false,
                    };
                    let behind = match &merge_base {
                        Some(mb) => mb.eq(&t),
                        None => false,
                    };
                    if ff {
                        BranchState::FastForward { tip: t }
                    } else if behind {
                        BranchState::Behind { tip: t }
                    } else {
                        BranchState::Diverged { tip: t }
                    }
                }
            },
        }
    }

    /// Determine the parent commit for a new atomic commit on this branch, given its
    /// state; an error if diverged and not forced.
    pub fn parent_for(&self, ref_name: &str, state: &BranchState, force: bool) -> (r: Result<
        String,
        GitError,
    >)
        ensures
            match spec_parent_for(state@, self.base()@, ref_name@, force) {
                Ok(p) => r matches Ok(q) && q@ == p,
                Err(m) => r matches Err(e) && e@ == crate::domain::error::GitErrorView::Operation(m),
            },
    {
        match state {
            BranchState::Missing => Ok(self.base_id.clone()),
            BranchState::Current => Ok(self.base_id.clone()),
            BranchState::FastForward { tip } => Ok(tip.clone()),
            BranchState::Behind { .. } => Ok(self.base_id.clone()),
            BranchState::Diverged { .. } => {
                if force {
                    Ok(self.base_id.clone())
                } else {
                    let m = "branch ".to_string().concat(ref_name);
                    let m = m.concat(" has diverged from base; use --force to override");
                    Err(GitError::Operation(m))
                }
            },
        }
    }
}

/// A diverged branch is only ever built on when forced, and then on the base; every
/// other state yields a parent.
pub proof fn lemma_diverged_needs_force(
    state: BranchStateView,
    base: Seq<char>,
    ref_name: Seq<char>,
    force: bool,
)
    ensures
        spec_parent_for(state, base, ref_name, force) is Err <==> (state is Diverged && !force),
        (state is Diverged && force) ==> spec_parent_for(state, base, ref_name, force) == Ok::<
            Seq<char>,
            Seq<char>,
        >(base),
{
}

} // verus!
