//! Planning the split of a commit into per-component atomic commits.
use vstd::prelude::*;
use crate::config::types::{ComponentView, Config, ConfigView, SettingsView, UnmatchedPolicy};
use crate::domain::effect::PlannedRefEdit;
use crate::domain::error::{Error, ErrorView, join_strings, join_with};
use crate::domain::matcher::{
    ComponentMatcher, MatcherView, groups_view, spec_groups, spec_match_name, unmatched_paths,
};
use crate::domain::text::{has_prefix, opt_view, str_starts_with, strings_view, substring};
use crate::git::branch::{
    BranchManager, BranchState, BranchStateView, ref_name_for, spec_branch_ref_name,
    spec_parent_for,
};
use crate::git::commit::{generate_message, spec_message};

verus! {

/// The first component with a given name.
pub open spec fn find_component(cs: Seq<ComponentView>, name: Seq<char>) -> Option<ComponentView>
    decreases cs.len(),
{
    if cs.len() == 0 {
        None
    } else if cs[0].name == name {
        Some(cs[0])
    } else {
        find_component(cs.skip(1), name)
    }
}

/// The commit type of a component's commit: the component's own, else the settings'
/// default, else `feat`.
pub open spec fn spec_commit_type(settings: SettingsView, comp: Option<ComponentView>) -> Seq<char> {
    match comp {
        Some(c) if c.commit_type is Some => c.commit_type->0,
        _ => match settings.default_commit_type {
            Some(t) => t,
            None => "feat"@,
        },
    }
}

/// The plan for one component's commit.
#[derive(Debug)]
pub struct ComponentPlan {
    pub component: String,
    pub ref_name: String,
    pub message: String,
    pub files: Vec<String>,
}

/// The value of a [`ComponentPlan`].
pub struct ComponentPlanView {
    pub component: Seq<char>,
    pub ref_name: Seq<char>,
    pub message: Seq<char>,
    pub files: Seq<Seq<char>>,
}

impl View for ComponentPlan {
    type V = ComponentPlanView;

    open spec fn view(&self) -> ComponentPlanView {
        ComponentPlanView {
            component: self.component@,
            ref_name: self.ref_name@,
            message: self.message@,
            files: strings_view(self.files@),
        }
    }
}

/// The full ref name of a component's branch: the component's override, or the
/// configured template.
pub open spec fn component_ref_name(cfg: ConfigView, name: Seq<char>) -> Seq<char> {
    let branch_override = match find_component(cfg.components, name) {
        Some(c) => c.branch,
        None => None,
    };
    spec_branch_ref_name(cfg.settings.branch_template, name, branch_override)
}

/// The plan for a component that owns some files: its branch (the component's override
/// or the template), and a message of its commit type and the source summary.
pub open spec fn spec_component_plan(
    cfg: ConfigView,
    name: Seq<char>,
    files: Seq<Seq<char>>,
    summary: Seq<char>,
) -> ComponentPlanView {
    let comp = find_component(cfg.components, name);
    ComponentPlanView {
        component: name,
        ref_name: component_ref_name(cfg, name),
        message: spec_message(name, spec_commit_type(cfg.settings, comp), summary),
        files,
    }
}

/// The plan of a split.
#[derive(Debug)]
pub struct AtomizePlan {
    /// One plan per component that owns changed files, in configuration order.
    pub components: Vec<ComponentPlan>,
    /// A warning to report about unmatched files (under the `warn` policy).
    pub warning: Option<String>,
}

/// The value of an [`AtomizePlan`].
pub struct AtomizePlanView {
    pub components: Seq<ComponentPlanView>,
    pub warning: Option<Seq<char>>,
}

/// The views of component plans.
pub open spec fn plans_view(v: Seq<ComponentPlan>) -> Seq<ComponentPlanView> {
    v.map_values(|p: ComponentPlan| p@)
}

impl View for AtomizePlan {
    type V = AtomizePlanView;

    open spec fn view(&self) -> AtomizePlanView {
        AtomizePlanView { components: plans_view(self.components@), warning: opt_view(self.warning) }
    }
}

/// The warning about unmatched files.
pub open spec fn unmatched_warning(paths: Seq<Seq<char>>) -> Seq<char> {
    "warning: unmatched files: "@ + join_with(paths, ", "@)
}

/// The plans of a list of groups.
pub open spec fn spec_group_plans(
    cfg: ConfigView,
    groups: Seq<(Seq<char>, Seq<Seq<char>>)>,
    summary: Seq<char>,
) -> Seq<ComponentPlanView> {
    groups.map_values(|g: (Seq<char>, Seq<Seq<char>>)| spec_component_plan(cfg, g.0, g.1, summary))
}

/// The plan of a split of changed files:
/// - unmatched files under the `error` policy: the unmatched-files error, with them;
/// - otherwise one plan per non-empty group, in configuration order, and a warning
///   listing the unmatched files under the `warn` policy.
pub open spec fn spec_plan(
    cfg: ConfigView,
    m: MatcherView,
    files: Seq<Seq<char>>,
    summary: Seq<char>,
) -> Result<AtomizePlanView, ErrorView> {
    let groups = spec_groups(m, files, m.names.len() as int);
    let unmatched = unmatched_paths(m, files);
    if unmatched.len() > 0 && cfg.settings.unmatched_files == UnmatchedPolicy::Error {
        Err(ErrorView::UnmatchedFiles(unmatched))
    } else {
        Ok(
            AtomizePlanView {
                components: spec_group_plans(cfg, groups, summary),
                warning: if unmatched.len() > 0 && cfg.settings.unmatched_files
                    == UnmatchedPolicy::Warn {
                    Some(unmatched_warning(unmatched))
                } else {
                    None
                },
            },
        )
    }
}

/// The value of a planning result.
pub open spec fn plan_result_view(r: Result<AtomizePlan, Error>) -> Result<AtomizePlanView, ErrorView> {
    match r {
        Ok(p) => Ok(p@),
        Err(e) => Err(e@),
    }
}

fn find_component_index(config: &Config, name: &String) -> (r: Option<usize>)
    ensures
        match r {
            Some(i) => i < config@.components.len() && find_component(config@.components, name@)
                == Some(config@.components[i as int]),
            None => find_component(config@.components, name@) is None,
        },
{
    let ghost cs = config@.components;
    let n = config.components.len();
    let mut i: usize = 0;
    assert(cs.skip(0) =~= cs);
    while i < n
        invariant
            n == cs.len(),
            cs == config@.components,
            i <= n,
            find_component(cs, name@) == find_component(cs.skip(i as int), name@),
        decreases n - i,
    {
        assert(cs.skip(i as int)[0] == cs[i as int]);
        assert(config.components@[i as int]@ == cs[i as int]);
        if config.components[i].name.eq(name) {
            return Some(i);
        }
        assert(cs.skip(i as int).skip(1) =~= cs.skip(i + 1));
        i = i + 1;
    }
    None
}

fn clone_strings(v: &Vec<String>) -> (r: Vec<String>)
    ensures
        strings_view(r@) == strings_view(v@),
{
    crate::domain::text::copy_strings(v)
}

/// Plan the commit of one component that owns some files.
pub fn plan_component(config: &Config, name: &String, files: &Vec<String>, summary: &str) -> (r:
    ComponentPlan)
    ensures
        r@ == spec_component_plan(config@, name@, strings_view(files@), summary@),
{
    let idx = find_component_index(config, name);
    let (branch_override, commit_type): (Option<&str>, &str) = match idx {
        Some(i) => {
            let c = &config.components[i];
            let b: Option<&str> = match &c.branch {
                Some(b) => Some(b.as_str()),
                None => None,
            };
            let t: &str = match &c.commit_type {
                Some(t) => t.as_str(),
                None => match &config.settings.default_commit_type {
                    Some(t) => t.as_str(),
                    None => "feat",
                },
            };
            (b, t)
        },
        None => {
            let t: &str = match &config.settings.default_commit_type {
                Some(t) => t.as_str(),
                None => "feat",
            };
            (None, t)
        },
    };
    let ref_name = ref_name_for(
        config.settings.branch_template.as_str(),
        name.as_str(),
        branch_override,
    );
    let message = generate_message(name.as_str(), commit_type, summary);
    ComponentPlan { component: name.clone(), ref_name, message, files: clone_strings(files) }
}

/// Each planned commit holds only files of its own component: the matcher names that
/// component for every one of them.
pub open spec fn plans_own_their_files(m: MatcherView, plans: Seq<ComponentPlanView>) -> bool {
    forall|i: int, q: int|
        0 <= i < plans.len() && 0 <= q < plans[i].files.len() ==> spec_match_name(
            m,
            #[trigger] plans[i].files[q],
        ) == Some(plans[i].component)
}

/// Plan the split of a commit's changed files into per-component commits. Each planned
/// commit holds only files of its own component.
pub fn plan_atomize(
    config: &Config,
    matcher: &ComponentMatcher,
    files: &Vec<String>,
    source_summary: &str,
) -> (r: Result<AtomizePlan, Error>)
    ensures
        plan_result_view(r) == spec_plan(
            config@,
            matcher@,
            strings_view(files@),
            source_summary@,
        ),
        r matches Ok(p) ==> plans_own_their_files(matcher@, plans_view(p.components@)),
{
    let (grouped, unmatched) = matcher.group_files(files);
    let mut warning: Option<String> = None;
    if unmatched.len() > 0 {
        match config.settings.unmatched_files {
            UnmatchedPolicy::Error => {
                return Err(Error::UnmatchedFiles { paths: unmatched });
            },
            UnmatchedPolicy::Warn => {
                let list = join_strings(&unmatched, ", ");
                warning = Some("warning: unmatched files: ".to_string().concat(list.as_str()));
            },
            UnmatchedPolicy::Ignore => {},
        }
    }
    let ghost groups = groups_view(grouped@);
    let mut components: Vec<ComponentPlan> = Vec::new();
    let mut i: usize = 0;
    while i < grouped.len()
        invariant
            i <= grouped@.len(),
            groups == groups_view(grouped@),
            plans_view(components@) == spec_group_plans(
                config@,
                groups.take(i as int),
                source_summary@,
            ),
        decreases grouped@.len() - i,
    {
        let ghost before = components@;
        let p = plan_component(config, &grouped[i].0, &grouped[i].1, source_summary);
        components.push(p);
        assert(groups.take(i + 1) =~= groups.take(i as int).push(groups[i as int]));
        assert(plans_view(components@) =~= plans_view(before).push(p@));
        assert(spec_group_plans(config@, groups.take(i + 1), source_summary@) =~= spec_group_plans(
            config@,
            groups.take(i as int),
            source_summary@,
        ).push(p@));
        i = i + 1;
    }
    assert(groups.take(i as int) =~= groups);
    proof {
        let ps = plans_view(components@);
        assert forall|a: int, q: int|
            0 <= a < ps.len() && 0 <= q < ps[a].files.len() implies spec_match_name(
            matcher@,
            #[trigger] ps[a].files[q],
        ) == Some(ps[a].component) by {
            assert(ps[a] == spec_component_plan(config@, groups[a].0, groups[a].1, source_summary@));
            assert(groups[a].1[q] == ps[a].files[q]);
        }
    }
    Ok(AtomizePlan { components, warning })
}

/// Plan the split of a range of commits as a partial squash: one commit per component
/// for the whole range, holding the files that differ between the range's two ends
/// (`effective`), so that a file added and removed again within the range is left out.
/// The commits of the range only decide whether there is anything to split: an empty
/// range plans nothing.
pub fn plan_atomize_range(
    config: &Config,
    matcher: &ComponentMatcher,
    commits: &Vec<String>,
    effective: &Vec<String>,
    summary: &str,
) -> (r: Result<AtomizePlan, Error>)
    ensures
        commits@.len() == 0 ==> (r matches Ok(p) && p.components@.len() == 0
            && p.warning is None),
        commits@.len() > 0 ==> plan_result_view(r) == spec_plan(
            config@,
            matcher@,
            strings_view(effective@),
            summary@,
        ),
        r matches Ok(p) ==> plans_own_their_files(matcher@, plans_view(p.components@)),
{
    if commits.len() == 0 {
        let components: Vec<ComponentPlan> = Vec::new();
        assert(plans_view(components@) =~= Seq::<ComponentPlanView>::empty());
        return Ok(AtomizePlan { components, warning: None });
    }
    plan_atomize(config, matcher, effective, summary)
}

/// What the ref held before the edit: nothing for a missing branch, the base for a
/// current one, the tip otherwise.
pub open spec fn spec_previous(state: BranchStateView, base: Seq<char>) -> Option<Seq<char>> {
    match state {
        BranchStateView::Missing => None,
        BranchStateView::Current => Some(base),
        BranchStateView::FastForward(tip) => Some(tip),
        BranchStateView::Behind(tip) => Some(tip),
        BranchStateView::Diverged(tip) => Some(tip),
    }
}

/// A component commit ready to be written: its parent, the ref's previous value, and
/// whether the branch is created.
#[derive(Debug)]
pub struct PreparedCommit {
    pub parent: String,
    pub previous: Option<String>,
    pub created: bool,
}

/// Decide the parent and previous ref value of a component's commit from its branch
/// state. A diverged branch that is not forced is the diverged-branch error, naming the
/// branch (without `refs/heads/`) and the base branch.
pub fn prepare_commit(
    plan: &ComponentPlan,
    manager: &BranchManager,
    state: &BranchState,
    base_branch: &str,
    force: bool,
) -> (r: Result<PreparedCommit, Error>)
    ensures
        match spec_parent_for(state@, manager.base()@, plan.ref_name@, force) {
            Ok(p) => r matches Ok(c) && c.parent@ == p && opt_view(c.previous) == spec_previous(
                state@,
                manager.base()@,
            ) && c.created == (state@ is Missing),
            Err(_) => r matches Err(e) && e@ == ErrorView::DivergedBranch(
                spec_branch_display(plan.ref_name@),
                base_branch@,
            ),
        },
{
    let parent = match manager.parent_for(plan.ref_name.as_str(), state, force) {
        Ok(p) => p,
        Err(_) => {
            return Err(
                Error::DivergedBranch {
                    branch: branch_display(plan.ref_name.as_str()),
                    base: base_branch.to_string(),
                },
            );
        },
    };
    let previous = match state {
        BranchState::Missing => None,
        BranchState::Current => Some(manager.base_id()),
        BranchState::FastForward { tip } => Some(tip.clone()),
        BranchState::Behind { tip } => Some(tip.clone()),
        BranchState::Diverged { tip } => Some(tip.clone()),
    };
    let created = match state {
        BranchState::Missing => true,
        _ => false,
    };
    Ok(PreparedCommit { parent, previous, created })
}

/// A branch ref name without its `refs/heads/` prefix.
pub open spec fn spec_branch_display(ref_name: Seq<char>) -> Seq<char> {
    if has_prefix(ref_name, "refs/heads/"@) {
        ref_name.skip(11)
    } else {
        ref_name
    }
}

/// A branch ref name without its `refs/heads/` prefix (unchanged if it has none).
pub fn branch_display(ref_name: &str) -> (r: String)
    ensures
        r@ == spec_branch_display(ref_name@),
{
    let p = "refs/heads/";
    proof {
        reveal_strlit("refs/heads/");
    }
    if str_starts_with(ref_name, p) {
        let n = ref_name.unicode_len();
        assert(ref_name@.subrange(11, n as int) =~= ref_name@.skip(11));
        substring(ref_name, 11, n)
    } else {
        ref_name.to_string()
    }
}

/// Result of atomizing a single component.
#[derive(Debug)]
pub struct AtomicResult {
    pub component: String,
    pub branch: String,
    pub commit_id: String,
    pub files: Vec<String>,
    pub created: bool,
}

/// The report of a component's commit: its branch (shown without `refs/heads/`), the
/// commit written, its files and whether the branch is new.
pub fn atomic_result(plan: &ComponentPlan, commit_id: &str, created: bool) -> (r: AtomicResult)
    ensures
        r.component@ == plan.component@,
        r.branch@ == spec_branch_display(plan.ref_name@),
        r.commit_id@ == commit_id@,
        strings_view(r.files@) == strings_view(plan.files@),
        r.created == created,
{
    AtomicResult {
        component: plan.component.clone(),
        branch: branch_display(plan.ref_name.as_str()),
        commit_id: commit_id.to_string(),
        files: clone_strings(&plan.files),
        created,
    }
}

/// The ref edit that points a component's branch at its new commit, guarded by the
/// ref's previous value.
pub fn ref_edit(plan: &ComponentPlan, prepared: &PreparedCommit, commit_id: &str) -> (r:
    PlannedRefEdit)
    ensures
        r.ref_name@ == plan.ref_name@,
        r.new_id@ == commit_id@,
        opt_view(r.previous) == opt_view(prepared.previous),
        r.component@ == plan.component@,
        r.created == prepared.created,
{
    PlannedRefEdit {
        ref_name: plan.ref_name.clone(),
        new_id: commit_id.to_string(),
        previous: crate::domain::text::copy_opt(&prepared.previous),
        component: plan.component.clone(),
        created: prepared.created,
    }
}

/// The message of a component's planned commit is `type(name): summary`, where the type
/// is the component's own commit type when it has one; otherwise the settings' default
/// commit type whenever that is set; `feat` only when neither is set.
pub proof fn lemma_plan_message_type(
    cfg: ConfigView,
    name: Seq<char>,
    files: Seq<Seq<char>>,
    summary: Seq<char>,
)
    ensures
        ({
            let comp = find_component(cfg.components, name);
            let own = match comp {
                Some(c) => c.commit_type,
                None => None,
            };
            let msg = spec_component_plan(cfg, name, files, summary).message;
            &&& own matches Some(t) ==> msg == t + "("@ + name + "): "@ + summary
            &&& own is None ==> (cfg.settings.default_commit_type matches Some(t) ==> msg == t
                + "("@ + name + "): "@ + summary)
            &&& (own is None && cfg.settings.default_commit_type is None) ==> msg == "feat"@ + "("@
                + name + "): "@ + summary
        }),
{
}

/// The previous value a prepared commit's ref edit expects is what the branch's ref holds
/// now: nothing for a missing branch, the base for a current one, and the branch's tip
/// for any other existing branch (ahead, behind, or diverged, forced or not). A forced
/// diverged branch is rebuilt on the base and its ref is moved from its tip.
pub proof fn lemma_prepared_previous_is_current_value(
    state: BranchStateView,
    base: Seq<char>,
    ref_name: Seq<char>,
    force: bool,
)
    ensures
        (spec_previous(state, base) is None) == (state is Missing),
        state is Current ==> spec_previous(state, base) == Some(base),
        state matches BranchStateView::FastForward(t) ==> spec_previous(state, base) == Some(t)
            && spec_parent_for(state, base, ref_name, force) == Ok::<Seq<char>, Seq<char>>(t),
        state matches BranchStateView::Behind(t) ==> spec_previous(state, base) == Some(t)
            && spec_parent_for(state, base, ref_name, force) == Ok::<Seq<char>, Seq<char>>(base),
        state matches BranchStateView::Diverged(t) ==> spec_previous(state, base) == Some(t)
            && (force <==> spec_parent_for(state, base, ref_name, force) is Ok)
            && (force ==> spec_parent_for(state, base, ref_name, force) == Ok::<Seq<char>, Seq<char>>(
            base,
        )),
        (state is Missing || state is Current) ==> spec_parent_for(state, base, ref_name, force)
            == Ok::<Seq<char>, Seq<char>>(base),
{
}

/// A branch is shown by its name under `refs/heads/`: that prefix is dropped, and a ref
/// name without it is shown whole.
pub proof fn lemma_branch_display(b: Seq<char>, other: Seq<char>)
    requires
        !(other.len() >= 11 && other.subrange(0, 11) == "refs/heads/"@),
    ensures
        spec_branch_display("refs/heads/"@ + b) == b,
        spec_branch_display(other) == other,
{
    reveal_strlit("refs/heads/");
    let r = "refs/heads/"@ + b;
    assert(r.subrange(0, 11) =~= "refs/heads/"@);
    assert(r.skip(11) =~= b);
    if has_prefix(other, "refs/heads/"@) {
        assert(other.subrange(0, 11) =~= "refs/heads/"@);
    }
}

} // verus!
