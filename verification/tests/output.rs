use git_atomic::cli::layout::{abbreviate_id, decimal_string, pad_right, split_lines, utf8_len_below};
use git_atomic::cli::json::JsonDoc;
use git_atomic::cli::output::{OutLine, OutputMode, Printer, Rendered, StatusRow, Stream};
use git_atomic::cli::paint::{paint_bold, paint_cyan, paint_dimmed, paint_green, paint_red, paint_yellow};
use git_atomic::config::layered::{ConfigWarning, ResolvedConfig};
use git_atomic::config::source::{ConfigSource, Sourced};
use git_atomic::config::types::UnmatchedPolicy;
use git_atomic::domain::effect::{Effect, PlannedRefEdit};
use git_atomic::domain::error::Error;
use git_atomic::git::atomize::AtomicResult;
use git_atomic::git::branch::BranchState;

fn lines(r: Rendered) -> Vec<(Stream, String)> {
    match r {
        Rendered::Lines(v) => v.into_iter().map(|OutLine { stream, text }| (stream, text)).collect(),
        other => panic!("expected lines, got {other:?}"),
    }
}

fn human(verbosity: u8) -> Printer {
    Printer::new(false, false, verbosity)
}

#[test]
fn printer_modes() {
    assert_eq!(Printer::new(true, true, 0).mode, OutputMode::Json);
    assert_eq!(Printer::new(false, true, 2).mode, OutputMode::Quiet);
    let p = Printer::new(false, false, 2);
    assert_eq!(p.mode, OutputMode::Human);
    assert_eq!(p.verbosity, 2);
}

#[test]
fn paint_wraps_in_escape_codes() {
    assert_eq!(paint_green("ok"), "\x1b[32mok\x1b[39m");
    assert_eq!(paint_red("no"), "\x1b[31mno\x1b[39m");
    assert_eq!(paint_yellow("hm"), "\x1b[33mhm\x1b[39m");
    assert_eq!(paint_cyan("c"), "\x1b[36mc\x1b[39m");
    assert_eq!(paint_bold("b"), "\x1b[1mb\x1b[0m");
    assert_eq!(paint_dimmed("d"), "\x1b[2md\x1b[0m");
}

#[test]
fn layout_helpers() {
    assert_eq!(decimal_string(0), "0");
    assert_eq!(decimal_string(7), "7");
    assert_eq!(decimal_string(4096), "4096");
    assert_eq!(decimal_string(usize::MAX), usize::MAX.to_string());
    assert_eq!(pad_right("ab", 5), "ab   ");
    assert_eq!(pad_right("abcdef", 3), "abcdef");
    assert_eq!(pad_right("é", 3), format!("{:<3}", "é"));
    assert_eq!(split_lines("a\nb\r\n\nc\n"), vec!["a", "b", "", "c"]);
    assert_eq!(split_lines(""), Vec::<String>::new());
    assert_eq!(split_lines("x\r"), "x\r".lines().collect::<Vec<_>>());
    assert_eq!(split_lines("a\r\nb"), "a\r\nb".lines().collect::<Vec<_>>());
    assert_eq!(abbreviate_id("0123456789abcdef0123456789abcdef01234567"), "01234567");
    assert_eq!(abbreviate_id("abc"), "abc");
    assert_eq!(abbreviate_id("ééééé"), "éééé");
    assert_eq!(abbreviate_id("aéééé"), "aéééé");
    assert!(utf8_len_below("abc", 4));
    assert!(!utf8_len_below("abcd", 4));
    assert!(!utf8_len_below("é", 2));
    assert!(utf8_len_below("é", 3));
}

#[test]
fn commit_results_human() {
    let results = vec![AtomicResult {
        component: "ui".into(),
        branch: "atomic/ui".into(),
        commit_id: "0123456789abcdef0123456789abcdef01234567".into(),
        files: vec!["src/ui/a.ts".into(), "src/ui/b.ts".into()],
        created: true,
    }];
    let out = lines(human(0).print_commit_results(&results, false));
    assert_eq!(out.len(), 1);
    assert_eq!(
        out[0],
        (
            Stream::Stdout,
            format!(
                "{} [{}] {} → {} (create, 2 files)",
                paint_green("✓"),
                paint_cyan("ui"),
                paint_dimmed("01234567"),
                paint_bold("atomic/ui")
            )
        )
    );
    let out = lines(human(1).print_commit_results(&results, true));
    assert_eq!(out.len(), 3);
    assert!(out[0].1.ends_with("(would create, 2 files)"));
    assert_eq!(out[1].1, format!("    {}", paint_dimmed("src/ui/a.ts")));
    assert!(matches!(Printer::new(false, true, 0).print_commit_results(&results, false), Rendered::Nothing));
    assert!(matches!(Printer::new(true, false, 0).print_commit_results(&results, false), Rendered::Json { pretty: true, .. }));
}

#[test]
fn status_human() {
    let rows = vec![
        StatusRow { component: "ui".into(), files: vec!["a".into()], state: BranchState::Missing, branch: "atomic/ui".into() },
        StatusRow { component: "api".into(), files: vec![], state: BranchState::Diverged { tip: "t".into() }, branch: "atomic/api".into() },
    ];
    let out = lines(human(0).print_status(&rows));
    assert_eq!(
        out[0].1,
        format!("  {} {} ({}, 1 file)", paint_bold("ui"), paint_dimmed("atomic/ui"), paint_yellow("missing"))
    );
    assert_eq!(
        out[1].1,
        format!("  {} {} ({}, 0 files)", paint_bold("api"), paint_dimmed("atomic/api"), paint_red("diverged"))
    );
}

#[test]
fn validate_and_errors() {
    assert_eq!(
        lines(human(0).print_validate_ok(&vec![])),
        vec![(Stream::Stdout, format!("{} configuration is valid", paint_green("✓")))]
    );
    assert_eq!(
        lines(Printer::new(true, false, 0).print_validate_ok(&vec![])),
        vec![(Stream::Stdout, "{\"valid\": true}".to_string())]
    );
    assert!(matches!(Printer::new(false, true, 0).print_validate_ok(&vec![]), Rendered::Nothing));
    let err = Error::General("boom".into());
    assert_eq!(lines(human(0).print_error(&err)), vec![(Stream::Stderr, format!("{} boom", paint_red("✗")))]);
    assert_eq!(
        lines(human(0).print_validate_error(&err)),
        vec![(Stream::Stderr, format!("{} boom", paint_red("✗")))]
    );
    assert!(matches!(Printer::new(true, false, 0).print_error(&err), Rendered::Json { pretty: false, .. }));
    assert_eq!(
        lines(Printer::new(false, true, 0).print_error(&err)),
        vec![(Stream::Stderr, format!("{} boom", paint_red("✗")))]
    );
    let w = ConfigWarning { message: "careful".into() };
    assert_eq!(lines(human(0).print_config_warning(&w)), vec![(Stream::Stderr, format!("{} careful", paint_yellow("⚠")))]);
    assert_eq!(
        lines(human(0).print_init(".atomic.toml")),
        vec![(Stream::Stdout, format!("{} created .atomic.toml", paint_green("✓")))]
    );
}

#[test]
fn provenance_human() {
    let resolved = ResolvedConfig {
        base_branch: Sourced::new("develop".into(), ConfigSource::File),
        branch_template: Sourced::new("atomic/{component}".into(), ConfigSource::Default),
        unmatched_files: Sourced::new(UnmatchedPolicy::Warn, ConfigSource::GitConfig),
        default_commit_type: Sourced::new(Some("feat".into()), ConfigSource::Env),
        components: vec![],
    };
    let out = lines(human(0).print_config_provenance(&resolved));
    assert_eq!(out.len(), 6);
    assert_eq!(out[0].1, paint_bold("Settings:"));
    assert_eq!(
        out[1].1,
        format!("  {:<20} = {:<30} ({})", "base_branch", "develop", paint_dimmed(".atomic.toml"))
    );
    assert_eq!(
        out[3].1,
        format!("  {:<20} = {:<30} ({})", "unmatched_files", "warn", paint_dimmed("git config"))
    );
    assert_eq!(out[4].1, format!("  {:<20} = {:<30} ({})", "default_commit_type", "feat", paint_dimmed("env")));
    assert_eq!(out[5].1, "");
}

#[test]
fn effect_previews() {
    let tx = Effect::RefTransaction {
        repo_path: ".".into(),
        edits: vec![PlannedRefEdit {
            ref_name: "refs/heads/atomic/ui".into(),
            new_id: "n".into(),
            previous: Some("p".into()),
            component: "ui".into(),
            created: false,
        }],
    };
    assert_eq!(
        lines(human(0).print_effect_preview(&tx)),
        vec![(Stream::Stdout, format!("  {} would update branch {}", paint_dimmed("▸"), paint_bold("atomic/ui")))]
    );
    let push = Effect::Push { remote: "origin".into(), branches: vec!["a".into()] };
    assert_eq!(
        lines(human(0).print_effect_preview(&push))[0].1,
        format!("  {} would push 1 branch to {}", paint_dimmed("▸"), paint_bold("origin"))
    );
    let write = Effect::WriteFile { path: ".atomic.toml".into(), content: "a = 1\nb = 2\n".into(), structured: None };
    let out = lines(human(0).print_effect_preview(&write));
    assert_eq!(out.len(), 4);
    assert_eq!(out[0].1, format!("  {} would create {}", paint_dimmed("▸"), paint_bold(".atomic.toml")));
    assert_eq!(out[1].1, "");
    assert_eq!(out[3].1, format!("    {}", paint_dimmed("b = 2")));
    let big = Effect::WriteFile { path: "big".into(), content: "x".repeat(5000), structured: None };
    assert_eq!(lines(human(0).print_effect_preview(&big)).len(), 1);
    assert_eq!(lines(human(1).print_effect_preview(&big)).len(), 3);
}

fn field<'a>(doc: &'a JsonDoc, key: &str) -> &'a JsonDoc {
    match doc {
        JsonDoc::Obj(fields) => &fields.iter().find(|(k, _)| k == key).expect("field").1,
        other => panic!("not an object: {other:?}"),
    }
}

#[test]
fn json_documents() {
    let resolved = ResolvedConfig {
        base_branch: Sourced::new("develop".into(), ConfigSource::File),
        branch_template: Sourced::new("atomic/{component}".into(), ConfigSource::Default),
        unmatched_files: Sourced::new(UnmatchedPolicy::Warn, ConfigSource::GitConfig),
        default_commit_type: Sourced::new(None, ConfigSource::Default),
        components: vec![],
    };
    match Printer::new(true, false, 0).print_config_provenance(&resolved) {
        Rendered::Json { doc, pretty } => {
            assert!(pretty);
            let config = field(&doc, "config");
            assert!(matches!(field(field(config, "base_branch"), "value"), JsonDoc::Str(s) if s == "develop"));
            assert!(matches!(field(field(config, "base_branch"), "source"), JsonDoc::Str(s) if s == ".atomic.toml"));
            assert!(matches!(field(field(config, "unmatched_files"), "value"), JsonDoc::Str(s) if s == "warn"));
            assert!(matches!(field(field(config, "default_commit_type"), "value"), JsonDoc::Null));
        }
        other => panic!("unexpected {other:?}"),
    }
    let rows = vec![StatusRow { component: "ui".into(), files: vec!["a".into(), "b".into()], state: BranchState::FastForward { tip: "t".into() }, branch: "atomic/ui".into() }];
    match Printer::new(true, false, 0).print_status(&rows) {
        Rendered::Json { doc: JsonDoc::Arr(items), .. } => {
            assert!(matches!(field(&items[0], "state"), JsonDoc::Str(s) if s == "FastForward { tip: Sha1(t) }"));
            assert!(matches!(field(&items[0], "file_count"), JsonDoc::Num(2)));
        }
        other => panic!("unexpected {other:?}"),
    }
    let push = Effect::Push { remote: "origin".into(), branches: vec!["a".into()] };
    match Printer::new(true, false, 0).print_effect_preview(&push) {
        Rendered::Json { doc, .. } => {
            assert!(matches!(field(&doc, "effect"), JsonDoc::Str(s) if s == "push"));
            assert!(matches!(field(&doc, "dry_run"), JsonDoc::Bool(true)));
        }
        other => panic!("unexpected {other:?}"),
    }
    let results = vec![AtomicResult { component: "ui".into(), branch: "atomic/ui".into(), commit_id: "c".into(), files: vec![], created: false }];
    match Printer::new(true, false, 0).print_commit_results(&results, true) {
        Rendered::Json { doc, .. } => {
            assert!(matches!(field(&doc, "dry_run"), JsonDoc::Bool(true)));
            match field(&doc, "results") {
                JsonDoc::Arr(rs) => assert!(matches!(field(&rs[0], "created"), JsonDoc::Bool(false))),
                other => panic!("unexpected {other:?}"),
            }
        }
        other => panic!("unexpected {other:?}"),
    }
}
