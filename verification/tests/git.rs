use git_atomic::config::types::{Component, Config, Settings, UnmatchedPolicy};
use git_atomic::domain::error::Error;
use git_atomic::domain::matcher::ComponentMatcher;
use git_atomic::git::atomize::{
    atomic_result, branch_display, plan_atomize, plan_atomize_range, prepare_commit, ref_edit,
};
use git_atomic::git::branch::{BranchManager, BranchState, fill_template, ref_name_for};
use git_atomic::git::commit::{extract_summary, generate_message};
use git_atomic::git::walk::{RangeWalk, WalkStep};
use std::collections::HashMap;

fn config(components: &[(&str, &[&str])]) -> Config {
    Config {
        settings: Settings::default(),
        components: components
            .iter()
            .map(|(name, globs)| Component {
                name: name.to_string(),
                globs: globs.iter().map(|g| g.to_string()).collect(),
                commit_type: None,
                branch: None,
            })
            .collect(),
    }
}

fn strings(v: &[&str]) -> Vec<String> {
    v.iter().map(|s| s.to_string()).collect()
}

#[test]
fn generate_message_format() {
    assert_eq!(
        generate_message("frontend", "feat", "add login page"),
        "feat(frontend): add login page"
    );
}

#[test]
fn summary_is_first_line() {
    assert_eq!(extract_summary("fix: crash\n\nlong body"), "fix: crash");
    assert_eq!(extract_summary("windows\r\nbody"), "windows");
    assert_eq!(extract_summary("single"), "single");
    assert_eq!(extract_summary(""), "atomize");
    assert_eq!(extract_summary("\nsecond"), "");
}

#[test]
fn branch_override() {
    let mgr = BranchManager::new("abc".to_string(), "atomic/{component}".into());
    let ref_name = mgr.branch_ref_name("frontend", Some("custom/branch"));
    assert_eq!(ref_name, "refs/heads/custom/branch");
}

#[test]
fn name_placeholder_fills_like_component() {
    let mgr = BranchManager::new("abc".to_string(), "atomic/{name}".into());
    assert_eq!(mgr.branch_ref_name("frontend", None), "refs/heads/atomic/frontend");
}

#[test]
fn template_names_branches() {
    assert_eq!(ref_name_for("atomic/{component}", "ui", None), "refs/heads/atomic/ui");
    assert_eq!(ref_name_for("{component}/{component}", "x", None), "refs/heads/x/x");
    assert_eq!(fill_template("no placeholder", "ui"), "no placeholder");
    assert_eq!(ref_name_for("atomic/{name}", "frontend", None), "refs/heads/atomic/frontend");
    assert_eq!(ref_name_for("split/{name}-{component}", "x", None), "refs/heads/split/x-x");
    assert_eq!(fill_template("{nam}{name", "ui"), "{nam}{name");
    assert_eq!(branch_display("refs/heads/atomic/ui"), "atomic/ui");
    assert_eq!(branch_display("refs/tags/v1"), "refs/tags/v1");
}

#[test]
fn missing_branch() {
    let mgr = BranchManager::new("base".into(), "atomic/{component}".into());
    assert_eq!(mgr.check_state(None, None), BranchState::Missing);
}

#[test]
fn current_branch() {
    let mgr = BranchManager::new("base".into(), "atomic/{component}".into());
    assert_eq!(mgr.check_state(Some("base".into()), None), BranchState::Current);
}

#[test]
fn fast_forward_branch() {
    let mgr = BranchManager::new("base".into(), "atomic/{component}".into());
    let state = mgr.check_state(Some("tip".into()), Some("base".into()));
    assert_eq!(state, BranchState::FastForward { tip: "tip".into() });
    let parent = mgr.parent_for("refs/heads/atomic/ff", &state, false).unwrap();
    assert_ne!(parent, "base");
    assert_eq!(parent, "tip");
}

#[test]
fn behind_branch() {
    let mgr = BranchManager::new("base".into(), "atomic/{component}".into());
    let state = mgr.check_state(Some("old".into()), Some("old".into()));
    assert_eq!(state, BranchState::Behind { tip: "old".into() });
    assert_eq!(mgr.parent_for("refs/heads/atomic/b", &state, false).unwrap(), "base");
}

#[test]
fn diverged_branch() {
    let mgr = BranchManager::new("base".into(), "atomic/{component}".into());
    let state = mgr.check_state(Some("tip".into()), Some("older".into()));
    assert_eq!(state, BranchState::Diverged { tip: "tip".into() });
    assert!(mgr.parent_for("refs/heads/atomic/div", &state, false).is_err());
    assert_eq!(mgr.parent_for("refs/heads/atomic/div", &state, true).unwrap(), "base");
    let err = mgr.parent_for("refs/heads/atomic/div", &state, false).unwrap_err();
    assert_eq!(
        err.message(),
        "git operation failed: branch refs/heads/atomic/div has diverged from base; use --force to override"
    );
}

#[test]
fn multi_component_split_single_commit() {
    let cfg = config(&[("frontend", &["src/ui/**"]), ("backend", &["src/api/**"])]);
    let matcher = ComponentMatcher::from_config(&cfg).unwrap();
    let plan = plan_atomize(&cfg, &matcher, &strings(&["src/ui/app.ts", "src/api/handler.rs"]), "add both components").unwrap();
    assert_eq!(plan.components.len(), 2);
    assert_eq!(plan.components[0].component, "frontend");
    assert_eq!(plan.components[0].ref_name, "refs/heads/atomic/frontend");
    assert_eq!(plan.components[0].message, "feat(frontend): add both components");
    assert_eq!(plan.components[1].component, "backend");
    assert_eq!(plan.components[1].files, strings(&["src/api/handler.rs"]));
    assert!(plan.warning.is_none());
}

#[test]
fn unmatched_files_error_policy() {
    let cfg = config(&[("app", &["src/**"])]);
    let matcher = ComponentMatcher::from_config(&cfg).unwrap();
    let result = plan_atomize(&cfg, &matcher, &strings(&["src/a.rs", "README.md"]), "s");
    match result {
        Err(Error::UnmatchedFiles { paths }) => assert_eq!(paths, strings(&["README.md"])),
        _ => panic!("should error on unmatched files"),
    }
}

#[test]
fn unmatched_files_warn_and_ignore_policies() {
    let mut cfg = config(&[("app", &["src/**"])]);
    cfg.settings.unmatched_files = UnmatchedPolicy::Warn;
    let matcher = ComponentMatcher::from_config(&cfg).unwrap();
    let plan = plan_atomize(&cfg, &matcher, &strings(&["src/a.rs", "README.md", "x"]), "s").unwrap();
    assert_eq!(plan.warning, Some("warning: unmatched files: README.md, x".to_string()));
    assert_eq!(plan.components.len(), 1);

    cfg.settings.unmatched_files = UnmatchedPolicy::Ignore;
    let plan = plan_atomize(&cfg, &matcher, &strings(&["src/a.rs", "README.md"]), "s").unwrap();
    assert!(plan.warning.is_none());
}

#[test]
fn component_overrides_apply() {
    let mut cfg = config(&[("docs", &["docs/**"])]);
    cfg.components[0].commit_type = Some("docs".into());
    cfg.components[0].branch = Some("documentation".into());
    cfg.settings.default_commit_type = Some("chore".into());
    let matcher = ComponentMatcher::from_config(&cfg).unwrap();
    let plan = plan_atomize(&cfg, &matcher, &strings(&["docs/a.md"]), "update").unwrap();
    assert_eq!(plan.components[0].ref_name, "refs/heads/documentation");
    assert_eq!(plan.components[0].message, "docs(docs): update");
}

#[test]
fn range_mode_empty_range() {
    let cfg = config(&[("app", &["src/**"])]);
    let matcher = ComponentMatcher::from_config(&cfg).unwrap();
    let plan = plan_atomize_range(&cfg, &matcher, &vec![], &vec![], "s").unwrap();
    assert!(plan.components.is_empty());
    assert!(plan.warning.is_none());
}

#[test]
fn range_mode_partial_squash() {
    let cfg = config(&[("frontend", &["src/ui/**"])]);
    let matcher = ComponentMatcher::from_config(&cfg).unwrap();
    let commits = strings(&["c1", "c2", "c3"]);
    let effective = strings(&["src/ui/bar.ts"]);
    let plan = plan_atomize_range(&cfg, &matcher, &commits, &effective, "remove foo").unwrap();
    assert_eq!(plan.components.len(), 1);
    assert_eq!(plan.components[0].component, "frontend");
    assert!(plan.components[0].files.contains(&"src/ui/bar.ts".to_string()));
    assert!(!plan.components[0].files.contains(&"src/ui/foo.ts".to_string()));
}

#[test]
fn prepared_commits_follow_branch_state() {
    let cfg = config(&[("app", &["src/**"])]);
    let matcher = ComponentMatcher::from_config(&cfg).unwrap();
    let plan = plan_atomize(&cfg, &matcher, &strings(&["src/a.rs"]), "s").unwrap();
    let p = &plan.components[0];
    let mgr = BranchManager::new("base".into(), "atomic/{component}".into());

    let fresh = prepare_commit(p, &mgr, &BranchState::Missing, "main", false).unwrap();
    assert_eq!(fresh.parent, "base");
    assert_eq!(fresh.previous, None);
    assert!(fresh.created);

    let ff = prepare_commit(p, &mgr, &BranchState::FastForward { tip: "t".into() }, "main", false).unwrap();
    assert_eq!(ff.parent, "t");
    assert_eq!(ff.previous, Some("t".to_string()));
    assert!(!ff.created);

    match prepare_commit(p, &mgr, &BranchState::Diverged { tip: "t".into() }, "main", false) {
        Err(Error::DivergedBranch { branch, base }) => {
            assert_eq!(branch, "atomic/app");
            assert_eq!(base, "main");
        }
        _ => panic!("expected a diverged branch"),
    }

    let edit = ref_edit(p, &ff, "new");
    assert_eq!(edit.ref_name, "refs/heads/atomic/app");
    assert_eq!(edit.new_id, "new");
    assert_eq!(edit.previous, Some("t".to_string()));
    let result = atomic_result(p, "new", fresh.created);
    assert_eq!(result.branch, "atomic/app");
    assert_eq!(result.files, strings(&["src/a.rs"]));
    assert!(result.created);
}

fn walk(start: &str, end: &str, parents: &HashMap<&str, Vec<&str>>) -> (Vec<String>, usize) {
    let mut w = RangeWalk::new(start.to_string(), end.to_string());
    let mut asked = 0;
    loop {
        match w.next_step() {
            WalkStep::NeedParents(c) => {
                asked += 1;
                let ps = parents.get(c.as_str()).cloned().unwrap_or_default();
                w.provide_parents(ps.into_iter().map(String::from).collect());
            }
            WalkStep::Finished(list) => return (list, asked),
        }
    }
}

#[test]
fn walk_range_empty_when_same_commit() {
    let mut parents = HashMap::new();
    parents.insert("head", vec![]);
    let (commits, _) = walk("head", "head", &parents);
    assert!(commits.is_empty());
}

#[test]
fn walk_range_returns_commits_oldest_first() {
    let mut parents = HashMap::new();
    parents.insert("base", vec![]);
    parents.insert("c1", vec!["base"]);
    parents.insert("c2", vec!["c1"]);
    parents.insert("c3", vec!["c2"]);
    let (commits, _) = walk("base", "c3", &parents);
    assert_eq!(commits, strings(&["c1", "c2", "c3"]));
}

#[test]
fn walk_stops_at_commits_reachable_from_start() {
    // base <- a <- m, base <- b <- m (a merge), start = a
    let mut parents = HashMap::new();
    parents.insert("base", vec![]);
    parents.insert("a", vec!["base"]);
    parents.insert("b", vec!["base"]);
    parents.insert("m", vec!["a", "b"]);
    let (commits, asked) = walk("a", "m", &parents);
    assert_eq!(commits.len(), 2);
    assert!(commits.contains(&"m".to_string()));
    assert!(commits.contains(&"b".to_string()));
    assert_eq!(commits.last(), Some(&"m".to_string()));
    assert!(asked >= 4);
}

#[test]
fn walk_treats_unknown_commits_as_roots() {
    let parents = HashMap::new();
    let (commits, _) = walk("gone", "also-gone", &parents);
    assert_eq!(commits, strings(&["also-gone"]));
}

#[test]
fn walk_repeats_request_until_answered() {
    let mut w = RangeWalk::new("s".to_string(), "e".to_string());
    let first = match w.next_step() {
        WalkStep::NeedParents(c) => c,
        _ => panic!("expected a request"),
    };
    assert_eq!(first, "s");
    match w.next_step() {
        WalkStep::NeedParents(c) => assert_eq!(c, "s"),
        _ => panic!("expected the same request"),
    }
}

#[test]
fn walk_puts_parents_before_children() {
    // base <- a <- b, and m merges b and a (listing b first)
    let mut parents = HashMap::new();
    parents.insert("base", vec![]);
    parents.insert("a", vec!["base"]);
    parents.insert("b", vec!["a"]);
    parents.insert("m", vec!["b", "a"]);
    let (commits, _) = walk("base", "m", &parents);
    assert_eq!(commits, strings(&["a", "b", "m"]));
}
