use git_atomic::config::types::{Component, Config, Settings};
use git_atomic::domain::error::ConfigError;
use git_atomic::domain::matcher::ComponentMatcher;

fn make_config(components: Vec<(&str, Vec<&str>)>) -> Config {
    Config {
        settings: Settings::default(),
        components: components
            .into_iter()
            .map(|(name, globs)| Component {
                name: name.to_string(),
                globs: globs.into_iter().map(String::from).collect(),
                commit_type: None,
                branch: None,
            })
            .collect(),
    }
}

fn paths(ps: &[&str]) -> Vec<String> {
    ps.iter().map(|p| p.to_string()).collect()
}

#[test]
fn exact_match() {
    let cfg = make_config(vec![("ui", vec!["src/ui/**"]), ("api", vec!["src/api/**"])]);
    let m = ComponentMatcher::from_config(&cfg).unwrap();
    assert_eq!(m.match_file("src/ui/button.rs"), Some("ui"));
    assert_eq!(m.match_file("src/api/handler.rs"), Some("api"));
}

#[test]
fn no_match() {
    let cfg = make_config(vec![("ui", vec!["src/ui/**"])]);
    let m = ComponentMatcher::from_config(&cfg).unwrap();
    assert_eq!(m.match_file("README.md"), None);
}

#[test]
fn first_match_wins() {
    let cfg = make_config(vec![("specific", vec!["src/**"]), ("catchall", vec!["**"])]);
    let m = ComponentMatcher::from_config(&cfg).unwrap();
    assert_eq!(m.match_file("src/foo.rs"), Some("specific"));
    assert_eq!(m.match_file("README.md"), Some("catchall"));
}

#[test]
fn group_files_works() {
    let cfg = make_config(vec![("ui", vec!["src/ui/**"]), ("api", vec!["src/api/**"])]);
    let m = ComponentMatcher::from_config(&cfg).unwrap();
    let (grouped, unmatched) = m.group_files(&paths(&["src/ui/a.rs", "src/api/b.rs", "README.md"]));
    assert_eq!(grouped.len(), 2);
    assert_eq!(grouped[0].0, "ui");
    assert_eq!(grouped[1].0, "api");
    assert_eq!(unmatched, vec!["README.md".to_string()]);
}

#[test]
fn catch_all_last() {
    let cfg = make_config(vec![("core", vec!["src/core/**"]), ("_other", vec!["**"])]);
    let m = ComponentMatcher::from_config(&cfg).unwrap();
    assert_eq!(m.match_file("src/core/lib.rs"), Some("core"));
    assert_eq!(m.match_file("docs/readme.md"), Some("_other"));
}

#[test]
fn matcher_groups_files_correctly() {
    let cfg = make_config(vec![
        ("frontend", vec!["src/ui/**"]),
        ("backend", vec!["src/api/**"]),
        ("docs", vec!["docs/**"]),
    ]);
    let m = ComponentMatcher::from_config(&cfg).unwrap();
    let (grouped, unmatched) =
        m.group_files(&paths(&["src/ui/app.ts", "src/api/handler.rs", "docs/guide.md", "README.md"]));
    assert_eq!(grouped.len(), 3);
    assert_eq!(grouped[0].0, "frontend");
    assert_eq!(grouped[0].1, vec!["src/ui/app.ts".to_string()]);
    assert_eq!(grouped[1].0, "backend");
    assert_eq!(grouped[1].1, vec!["src/api/handler.rs".to_string()]);
    assert_eq!(grouped[2].0, "docs");
    assert_eq!(grouped[2].1, vec!["docs/guide.md".to_string()]);
    assert_eq!(unmatched, vec!["README.md".to_string()]);
}

#[test]
fn groups_follow_config_order_and_keep_path_order() {
    let cfg = make_config(vec![("a", vec!["a/**"]), ("b", vec!["b/**"]), ("c", vec!["c/**"])]);
    let m = ComponentMatcher::from_config(&cfg).unwrap();
    let (grouped, unmatched) = m.group_files(&paths(&["b/2", "x", "a/1", "b/1"]));
    assert_eq!(grouped.len(), 2);
    assert_eq!(grouped[0], ("a".to_string(), vec!["a/1".to_string()]));
    assert_eq!(grouped[1], ("b".to_string(), vec!["b/2".to_string(), "b/1".to_string()]));
    assert_eq!(unmatched, vec!["x".to_string()]);
    let total: usize = grouped.iter().map(|g| g.1.len()).sum::<usize>() + unmatched.len();
    assert_eq!(total, 4);
}

#[test]
fn second_glob_of_a_component_matches() {
    let cfg = make_config(vec![("backend", vec!["src/api/**", "src/db/**"])]);
    let m = ComponentMatcher::from_config(&cfg).unwrap();
    assert_eq!(m.match_index("src/db/schema.sql"), Some(0));
    assert_eq!(m.match_file("src/db/schema.sql"), Some("backend"));
}

#[test]
fn invalid_glob_names_component_and_pattern() {
    let cfg = make_config(vec![("ok", vec!["src/**"]), ("bad", vec!["x/**", "[invalid"])]);
    match ComponentMatcher::from_config(&cfg) {
        Err(ConfigError::InvalidGlob { component, pattern, reason }) => {
            assert_eq!(component, "bad");
            assert_eq!(pattern, "[invalid");
            assert!(!reason.is_empty());
        }
        _ => panic!("expected an invalid glob"),
    }
}

#[test]
fn grouping_rearranges_paths_without_loss() {
    let cfg = make_config(vec![("a", vec!["a/**"]), ("b", vec!["b/**"])]);
    let m = ComponentMatcher::from_config(&cfg).unwrap();
    let input = paths(&["x", "a/1", "a/1", "b/1", "y"]);
    let (grouped, unmatched) = m.group_files(&input);
    let mut all: Vec<String> = grouped.iter().flat_map(|g| g.1.clone()).collect();
    all.extend(unmatched.clone());
    let mut sorted_input = input.clone();
    sorted_input.sort();
    all.sort();
    assert_eq!(all, sorted_input);
    assert!(grouped.iter().all(|g| !g.1.is_empty()));
    assert_eq!(unmatched, paths(&["x", "y"]));
}
