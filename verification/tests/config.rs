use git_atomic::config::layered::{
    ResolvedConfig, TaggedValue, env_key_path, git_config_keys, git_config_settings,
    resolve_layers, source_for_tag, source_from_metadata_name, validate_resolved,
};
use git_atomic::config::source::{ConfigSource, Sourced};
use git_atomic::config::types::{Component, Config, Settings, UnmatchedPolicy};
use git_atomic::config::validate::{finish_load, validate_components};
use git_atomic::domain::error::ConfigError;
use std::str::FromStr;

fn component(name: &str, globs: &[&str]) -> Component {
    Component {
        name: name.to_string(),
        globs: globs.iter().map(|g| g.to_string()).collect(),
        commit_type: None,
        branch: None,
    }
}

fn tagged(value: &str, is_default: bool, provider: Option<&str>) -> TaggedValue<String> {
    TaggedValue { value: value.to_string(), is_default, provider: provider.map(String::from) }
}

fn policy_default() -> TaggedValue<UnmatchedPolicy> {
    TaggedValue { value: UnmatchedPolicy::Error, is_default: true, provider: None }
}

#[test]
fn unmatched_policy_from_str() {
    assert_eq!(UnmatchedPolicy::from_str("error").unwrap(), UnmatchedPolicy::Error);
    assert_eq!(UnmatchedPolicy::from_str("WARN").unwrap(), UnmatchedPolicy::Warn);
    assert_eq!(UnmatchedPolicy::from_str("Ignore").unwrap(), UnmatchedPolicy::Ignore);
    assert!(UnmatchedPolicy::from_str("invalid").is_err());
}

#[test]
fn unmatched_policy_display() {
    assert_eq!(UnmatchedPolicy::Error.to_string(), "error");
    assert_eq!(UnmatchedPolicy::Warn.to_string(), "warn");
    assert_eq!(UnmatchedPolicy::Ignore.to_string(), "ignore");
}

#[test]
fn empty_string_from_str_returns_error() {
    let result = UnmatchedPolicy::from_str("");
    assert!(result.is_err());
    assert!(result.unwrap_err().contains("invalid unmatched_files policy"));
}

#[test]
fn invalid_policy_message_is_exact() {
    assert_eq!(
        UnmatchedPolicy::from_str("Loud").unwrap_err(),
        "invalid unmatched_files policy: \"loud\" (expected \"error\", \"warn\", or \"ignore\")"
    );
}

#[test]
fn validate_resolved_warns_on_bad_template() {
    let resolved = ResolvedConfig {
        base_branch: Sourced::new("main".into(), ConfigSource::Default),
        branch_template: Sourced::new("bad-template".into(), ConfigSource::Default),
        unmatched_files: Sourced::new(UnmatchedPolicy::Error, ConfigSource::Default),
        default_commit_type: Sourced::new(None, ConfigSource::Default),
        components: vec![component("app", &["src/**"])],
    };

    let warnings = validate_resolved(&resolved);
    assert_eq!(warnings.len(), 1);
    assert!(warnings[0].message.contains("{component}"));
    assert_eq!(
        warnings[0].message,
        "branch_template \"bad-template\" does not contain {component} placeholder"
    );
}

#[test]
fn validate_resolved_accepts_name_placeholder() {
    let resolved = ResolvedConfig {
        base_branch: Sourced::new("main".into(), ConfigSource::Default),
        branch_template: Sourced::new("split/{name}".into(), ConfigSource::Default),
        unmatched_files: Sourced::new(UnmatchedPolicy::Error, ConfigSource::Default),
        default_commit_type: Sourced::new(None, ConfigSource::Default),
        components: vec![component("app", &["src/**"])],
    };
    assert!(validate_resolved(&resolved).is_empty());
}

#[test]
fn validate_resolved_warns_on_no_components() {
    let resolved = ResolvedConfig {
        base_branch: Sourced::new("main".into(), ConfigSource::Default),
        branch_template: Sourced::new("atomic/{component}".into(), ConfigSource::Default),
        unmatched_files: Sourced::new(UnmatchedPolicy::Error, ConfigSource::Default),
        default_commit_type: Sourced::new(None, ConfigSource::Default),
        components: vec![],
    };

    let warnings = validate_resolved(&resolved);
    assert_eq!(warnings.len(), 1);
    assert!(warnings[0].message.contains("no components defined"));
}

#[test]
fn to_config_bridges_correctly() {
    let resolved = ResolvedConfig {
        base_branch: Sourced::new("develop".into(), ConfigSource::File),
        branch_template: Sourced::new("atomic/{component}".into(), ConfigSource::Default),
        unmatched_files: Sourced::new(UnmatchedPolicy::Warn, ConfigSource::GitConfig),
        default_commit_type: Sourced::new(Some("feat".into()), ConfigSource::Env),
        components: vec![component("app", &["src/**"])],
    };

    let config = resolved.to_config();
    assert_eq!(config.settings.base_branch, "develop");
    assert_eq!(config.settings.unmatched_files, UnmatchedPolicy::Warn);
    assert_eq!(config.components.len(), 1);
    assert_eq!(config.components[0].name, "app");
}

#[test]
fn validate_resolved_warns_on_empty_base_branch() {
    let resolved = ResolvedConfig {
        base_branch: Sourced::new("".into(), ConfigSource::File),
        branch_template: Sourced::new("atomic/{component}".into(), ConfigSource::Default),
        unmatched_files: Sourced::new(UnmatchedPolicy::Error, ConfigSource::Default),
        default_commit_type: Sourced::new(None, ConfigSource::Default),
        components: vec![component("app", &["src/**"])],
    };

    let warnings = validate_resolved(&resolved);
    assert!(warnings.iter().any(|w| w.message.contains("base_branch is empty")));
}

#[test]
fn validate_resolved_reports_every_problem_in_order() {
    let resolved = ResolvedConfig {
        base_branch: Sourced::new("".into(), ConfigSource::File),
        branch_template: Sourced::new("flat".into(), ConfigSource::Default),
        unmatched_files: Sourced::new(UnmatchedPolicy::Error, ConfigSource::Default),
        default_commit_type: Sourced::new(None, ConfigSource::Default),
        components: vec![],
    };
    let warnings = validate_resolved(&resolved);
    assert_eq!(warnings.len(), 3);
    assert!(warnings[0].message.starts_with("no components defined"));
    assert!(warnings[1].message.starts_with("branch_template"));
    assert_eq!(warnings[2].message, "base_branch is empty");
}

#[test]
fn defaults_when_no_file() {
    let resolved = resolve_layers(
        tagged("main", true, None),
        tagged("atomic/{component}", true, None),
        policy_default(),
        None,
        vec![],
    )
    .unwrap();
    assert_eq!(resolved.base_branch.value, "main");
    assert_eq!(resolved.base_branch.source, ConfigSource::Default);
    assert!(resolved.components.is_empty());
    assert_eq!(resolved.default_commit_type.value, None);
    assert_eq!(resolved.default_commit_type.source, ConfigSource::Default);
}

#[test]
fn file_overrides_defaults() {
    let resolved = resolve_layers(
        tagged("develop", false, Some("TOML file")),
        tagged("atomic/{component}", true, None),
        policy_default(),
        None,
        vec![component("app", &["src/**"])],
    )
    .unwrap();
    assert_eq!(resolved.base_branch.value, "develop");
    assert_eq!(resolved.base_branch.source, ConfigSource::File);
    assert_eq!(resolved.components.len(), 1);
}

#[test]
fn env_overrides_file() {
    let resolved = resolve_layers(
        tagged("staging", false, Some("`GIT_ATOMIC_` environment variable(s)")),
        tagged("atomic/{component}", true, None),
        policy_default(),
        None,
        vec![component("app", &["src/**"])],
    )
    .unwrap();
    assert_eq!(resolved.base_branch.value, "staging");
    assert_eq!(resolved.base_branch.source, ConfigSource::Env);
}

#[test]
fn env_overrides_branch_template() {
    let resolved = resolve_layers(
        tagged("main", true, None),
        tagged("custom/{component}", false, Some("`GIT_ATOMIC_` environment variable(s)")),
        policy_default(),
        None,
        vec![component("app", &["src/**"])],
    )
    .unwrap();
    assert_eq!(resolved.branch_template.value, "custom/{component}");
    assert_eq!(resolved.branch_template.source, ConfigSource::Env);
}

#[test]
fn layered_duplicate_component_names_rejected() {
    let err = resolve_layers(
        tagged("main", true, None),
        tagged("atomic/{component}", true, None),
        policy_default(),
        None,
        vec![component("app", &["src/**"]), component("app", &["lib/**"])],
    )
    .unwrap_err();
    assert!(matches!(err, ConfigError::Invalid { .. }));
}

#[test]
fn component_order_preserved() {
    let resolved = resolve_layers(
        tagged("main", true, None),
        tagged("atomic/{component}", true, None),
        policy_default(),
        None,
        vec![component("zebra", &["z/**"]), component("alpha", &["a/**"])],
    )
    .unwrap();
    assert_eq!(resolved.components[0].name, "zebra");
    assert_eq!(resolved.components[1].name, "alpha");
}

#[test]
fn git_config_values_are_attributed_to_git_config() {
    let resolved = resolve_layers(
        tagged("main", true, None),
        tagged("atomic/{component}", true, None),
        TaggedValue { value: UnmatchedPolicy::Warn, is_default: false, provider: Some("git config".into()) },
        Some(tagged("chore", false, Some("git config"))),
        vec![],
    )
    .unwrap();
    assert_eq!(resolved.unmatched_files.value, UnmatchedPolicy::Warn);
    assert_eq!(resolved.unmatched_files.source, ConfigSource::GitConfig);
    assert_eq!(resolved.default_commit_type.value, Some("chore".to_string()));
    assert_eq!(resolved.default_commit_type.source, ConfigSource::GitConfig);
}

#[test]
fn metadata_names_map_to_sources() {
    assert_eq!(source_from_metadata_name("git config"), ConfigSource::GitConfig);
    assert_eq!(source_from_metadata_name("TOML file"), ConfigSource::File);
    assert_eq!(source_from_metadata_name("/repo/.atomic.toml"), ConfigSource::File);
    assert_eq!(source_from_metadata_name("`GIT_ATOMIC_` environment variable(s)"), ConfigSource::Env);
    assert_eq!(source_from_metadata_name("settings"), ConfigSource::Default);
    assert_eq!(source_for_tag(true, Some("git config")), ConfigSource::Default);
    assert_eq!(source_for_tag(false, None), ConfigSource::Default);
    assert_eq!(ConfigSource::File.label(), ".atomic.toml");
    assert_eq!(ConfigSource::GitConfig.label(), "git config");
}

#[test]
fn env_keys_map_to_settings() {
    assert_eq!(env_key_path("BASE_BRANCH"), "settings.base_branch");
    assert_eq!(env_key_path("BRANCH_TEMPLATE"), "settings.branch_template");
}

#[test]
fn git_config_provides_found_keys_only() {
    let keys = git_config_keys();
    assert_eq!(keys[0], ("baseBranch", "base_branch"));
    assert_eq!(keys[3], ("defaultCommitType", "default_commit_type"));
    let found = vec![Some("develop".to_string()), None, Some("warn".to_string()), None];
    assert_eq!(
        git_config_settings(&found),
        vec![
            ("base_branch".to_string(), "develop".to_string()),
            ("unmatched_files".to_string(), "warn".to_string())
        ]
    );
}

#[test]
fn invalid_glob_rejected() {
    let parsed = Config { settings: Settings::default(), components: vec![component("bad", &["[invalid"])] };
    let err = finish_load(Ok(parsed)).unwrap_err();
    assert!(matches!(err, ConfigError::InvalidGlob { .. }));
}

#[test]
fn mod_duplicate_component_names_rejected() {
    let parsed = Config {
        settings: Settings::default(),
        components: vec![component("app", &["src/**"]), component("app", &["lib/**"])],
    };
    let err = finish_load(Ok(parsed)).unwrap_err();
    assert!(matches!(err, ConfigError::Invalid { .. }));
    assert_eq!(err.message(), "invalid config: duplicate component name: \"app\"");
}

#[test]
fn unparsable_config_is_invalid() {
    let err = finish_load(Err("expected `=`".to_string())).unwrap_err();
    match err {
        ConfigError::Invalid { reason } => assert_eq!(reason, "expected `=`"),
        other => panic!("unexpected {other:?}"),
    }
}

#[test]
fn valid_config_loads() {
    let parsed = Config {
        settings: Settings::default(),
        components: vec![component("frontend", &["src/ui/**"]), component("backend", &["src/api/**", "src/db/**"])],
    };
    let cfg = finish_load(Ok(parsed)).unwrap();
    assert_eq!(cfg.components[0].name, "frontend");
    assert_eq!(cfg.components[1].name, "backend");
    assert!(validate_components(&cfg.components).is_ok());
}

#[test]
fn first_problem_is_reported() {
    let err = validate_components(&vec![
        component("a", &["ok/**", "[bad"]),
        component("a", &["x/**"]),
    ])
    .unwrap_err();
    match err {
        ConfigError::InvalidGlob { component, pattern, .. } => {
            assert_eq!(component, "a");
            assert_eq!(pattern, "[bad");
        }
        other => panic!("unexpected {other:?}"),
    }
}

#[test]
fn config_defaults_applied() {
    let s = Settings::default();
    assert_eq!(s.base_branch, "main");
    assert_eq!(s.branch_template, "atomic/{component}");
    assert_eq!(s.unmatched_files, UnmatchedPolicy::Error);
    assert!(s.default_commit_type.is_none());
}

#[test]
fn sample_config_has_two_components() {
    let sample = Config::sample();
    assert_eq!(sample.components.len(), 2);
    assert_eq!(sample.settings.base_branch, "main");
    assert_eq!(sample.components[0].name, "frontend");
    assert_eq!(sample.components[0].globs, vec!["src/ui/**", "src/components/**"]);
    assert_eq!(sample.components[1].commit_type, Some("fix".to_string()));
    assert!(validate_components(&sample.components).is_ok());
}
