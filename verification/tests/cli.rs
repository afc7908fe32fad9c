use git_atomic::cli::commands::commit::{parse_source, push_effect, range_side_error, require_components};
use git_atomic::cli::commands::init::{HEADER, plan, report};
use git_atomic::cli::commands::status::targets;
use git_atomic::cli::commands::validate::run;
use git_atomic::cli::commands::commit::commit_effects;
use git_atomic::cli::commands::{EffectRun, RunStep};
use git_atomic::domain::effect::PlannedRefEdit;
use git_atomic::cli::output::{Printer, Rendered};
use git_atomic::cli::{AtomizeArgs, Cli, Command, StatusArgs};
use git_atomic::config::layered::ResolvedConfig;
use git_atomic::config::source::{ConfigSource, Sourced};
use git_atomic::config::types::{Component, Config, Settings, UnmatchedPolicy};
use git_atomic::domain::effect::Effect;
use git_atomic::domain::error::{ConfigError, Error};
use git_atomic::domain::refspec::RefSpec;
use git_atomic::git::atomize::AtomicResult;

fn cli(command: Option<Command>) -> Cli {
    Cli { config: ".atomic.toml".into(), verbose: 0, quiet: false, json: false, dry_run: false, command }
}

#[test]
fn default_no_subcommand() {
    match cli(None).into_command() {
        Command::Commit(a) => {
            assert_eq!(a.source_ref, "HEAD");
            assert!(!a.force && !a.ci_mode && !a.push);
            assert_eq!(a.remote, "origin");
        }
        other => panic!("unexpected {other:?}"),
    }
    assert!(matches!(cli(Some(Command::Validate)).into_command(), Command::Validate));
    match cli(Some(Command::Status(StatusArgs { commit: "HEAD~1".into() }))).into_command() {
        Command::Status(s) => assert_eq!(s.commit, "HEAD~1"),
        other => panic!("unexpected {other:?}"),
    }
}

#[test]
fn validate_command() {
    let printer = Printer::new(false, false, 0);
    let ok = Config { settings: Settings::default(), components: vec![] };
    let (r, shown) = run(Ok(ok), &printer);
    assert!(r.unwrap().is_empty());
    assert!(matches!(shown, Rendered::Lines(_)));
    let cfg = Config {
        settings: Settings::default(),
        components: vec![
            Component { name: "app".into(), globs: vec!["src/**".into()], commit_type: None, branch: None },
            Component { name: "ui".into(), globs: vec!["src/ui/**".into()], commit_type: None, branch: None },
            Component { name: "docs".into(), globs: vec!["docs/**".into()], commit_type: None, branch: None },
        ],
    };
    let (r, shown) = run(Ok(cfg), &printer);
    let warnings = r.unwrap();
    assert_eq!(warnings.len(), 1);
    assert_eq!(warnings[0].message, "globs of components \"app\" and \"ui\" overlap");
    match shown {
        Rendered::Lines(lines) => assert_eq!(lines.len(), 2),
        other => panic!("unexpected {other:?}"),
    }
    let (r, _) = run(Err(ConfigError::Invalid { reason: "bad".into() }), &printer);
    let err = r.unwrap_err();
    assert_eq!(err.exit_code(), 2);
    assert_eq!(err.message(), "invalid config: bad");
}

#[test]
fn init_plans_a_file() {
    let effects = plan(false, false, ".atomic.toml", "[settings]\n").unwrap();
    match &effects[..] {
        [Effect::WriteFile { path, content, structured }] => {
            assert!(structured.is_some());
            assert_eq!(path, ".atomic.toml");
            assert!(content.starts_with("# git-atomic configuration\n"));
            assert_eq!(content, &format!("{HEADER}[settings]\n"));
        }
        other => panic!("unexpected {other:?}"),
    }
}

#[test]
fn init_existing_config_fails() {
    let err = plan(true, false, ".atomic.toml", "").unwrap_err();
    assert_eq!(err.message(), "config already exists: .atomic.toml");
    assert_eq!(err.exit_code(), 1);
    assert_eq!(plan(true, true, ".atomic.toml", "x").unwrap().len(), 1);
}

#[test]
fn init_dry_run_reports_nothing() {
    let printer = Printer::new(false, false, 0);
    assert!(matches!(report(&printer, "x", true), Rendered::Nothing));
    assert!(matches!(report(&printer, "x", false), Rendered::Lines(_)));
}

#[test]
fn dry_run_shows_effects() {
    let printer = Printer::new(false, false, 0);
    let e = Effect::Push { remote: "origin".into(), branches: vec![] };
    let mut run = EffectRun::new(vec![e], true);
    assert!(matches!(run.next_step(&printer), RunStep::Show(Rendered::Lines(_))));
    assert!(matches!(run.next_step(&printer), RunStep::Done(Ok(()))));
}

#[test]
fn effects_run_in_order_and_stop_at_failure() {
    let printer = Printer::new(false, false, 0);
    let effects = vec![
        Effect::Push { remote: "a".into(), branches: vec![] },
        Effect::Push { remote: "b".into(), branches: vec![] },
    ];
    let mut run = EffectRun::new(effects, false);
    assert!(matches!(run.next_step(&printer), RunStep::Perform(0)));
    assert!(matches!(run.next_step(&printer), RunStep::Perform(0)));
    run.report(Ok(()));
    assert!(matches!(run.next_step(&printer), RunStep::Perform(1)));
    run.report(Err(Error::General("push failed".into())));
    match run.next_step(&printer) {
        RunStep::Done(Err(e)) => assert_eq!(e.message(), "push failed"),
        other => panic!("unexpected {other:?}"),
    }
    let mut run = EffectRun::new(vec![Effect::Push { remote: "a".into(), branches: vec![] }, Effect::Push { remote: "b".into(), branches: vec![] }], false);
    assert!(matches!(run.next_step(&printer), RunStep::Perform(0)));
    run.report(Err(Error::General("refs".into())));
    assert!(matches!(run.next_step(&printer), RunStep::Done(Err(_))));
}

#[test]
fn push_follows_ref_transaction() {
    let result = AtomicResult {
        component: "ui".into(),
        branch: "atomic/ui".into(),
        commit_id: "c".into(),
        files: vec![],
        created: true,
    };
    let mut args = AtomizeArgs::defaults();
    args.push = true;
    let edits = vec![PlannedRefEdit {
        ref_name: "refs/heads/atomic/ui".into(),
        new_id: "c".into(),
        previous: None,
        component: "ui".into(),
        created: true,
    }];
    let effects = commit_effects(".git".into(), edits, &args, &vec![result]);
    assert_eq!(effects.len(), 2);
    assert!(matches!(effects[0], Effect::RefTransaction { .. }));
    assert!(matches!(effects[1], Effect::Push { .. }));
    args.push = false;
    assert!(commit_effects(".git".into(), vec![], &args, &vec![]).is_empty());
}

#[test]
fn commit_source_and_errors() {
    assert_eq!(parse_source("main..HEAD").unwrap(), RefSpec::Range { start: "main".into(), end: "HEAD".into() });
    match parse_source("a...b") {
        Err(Error::General(m)) => assert_eq!(m, "triple-dot syntax is not supported; use `A..B`"),
        other => panic!("unexpected {other:?}"),
    }
    assert_eq!(
        range_side_error(true, "v1", "v2", "not found").message(),
        "git operation failed: could not resolve 'v1' (left side of range 'v1..v2'): not found"
    );
    assert_eq!(
        range_side_error(false, "v1", "v2", "nope").message(),
        "git operation failed: could not resolve 'v2' (right side of range 'v1..v2'): nope"
    );
    let resolved = ResolvedConfig {
        base_branch: Sourced::new("main".into(), ConfigSource::Default),
        branch_template: Sourced::new("atomic/{component}".into(), ConfigSource::Default),
        unmatched_files: Sourced::new(UnmatchedPolicy::Error, ConfigSource::Default),
        default_commit_type: Sourced::new(None, ConfigSource::Default),
        components: vec![],
    };
    let err = require_components(&resolved).unwrap_err();
    assert!(err.message().starts_with("No components defined."));
}

#[test]
fn push_only_when_asked_and_nonempty() {
    let result = AtomicResult {
        component: "ui".into(),
        branch: "atomic/ui".into(),
        commit_id: "c".into(),
        files: vec![],
        created: true,
    };
    let mut args = AtomizeArgs::defaults();
    assert!(push_effect(&args, &vec![]).is_none());
    args.ci_mode = true;
    assert!(push_effect(&args, &vec![]).is_none());
    match push_effect(&args, &vec![result]) {
        Some(Effect::Push { remote, branches }) => {
            assert_eq!(remote, "origin");
            assert_eq!(branches, vec!["atomic/ui".to_string()]);
        }
        other => panic!("unexpected {other:?}"),
    }
}

#[test]
fn status_targets_name_branches() {
    let cfg = Config {
        settings: Settings::default(),
        components: vec![Component {
            name: "docs".into(),
            globs: vec!["docs/**".into()],
            commit_type: None,
            branch: Some("documentation".into()),
        }],
    };
    let grouped = vec![
        ("docs".to_string(), vec!["docs/a.md".to_string()]),
        ("ui".to_string(), vec!["src/ui/a.ts".to_string()]),
    ];
    let t = targets(&cfg, &grouped);
    assert_eq!(t[0].ref_name, "refs/heads/documentation");
    assert_eq!(t[0].branch, "documentation");
    assert_eq!(t[1].ref_name, "refs/heads/atomic/ui");
    assert_eq!(t[1].branch, "atomic/ui");
    assert_eq!(t[1].files, vec!["src/ui/a.ts".to_string()]);
}
