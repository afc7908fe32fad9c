use git_atomic::domain::refspec::RefSpec;

#[test]
fn parse_single_ref() {
    assert_eq!(RefSpec::parse("HEAD").unwrap(), RefSpec::Single("HEAD".into()));
    assert_eq!(RefSpec::parse("abc123").unwrap(), RefSpec::Single("abc123".into()));
    assert_eq!(RefSpec::parse("HEAD~3").unwrap(), RefSpec::Single("HEAD~3".into()));
}

#[test]
fn parse_range() {
    assert_eq!(
        RefSpec::parse("main..feature").unwrap(),
        RefSpec::Range { start: "main".into(), end: "feature".into() }
    );
    assert_eq!(
        RefSpec::parse("HEAD~3..HEAD").unwrap(),
        RefSpec::Range { start: "HEAD~3".into(), end: "HEAD".into() }
    );
}

#[test]
fn parse_empty_sides_default_to_head() {
    assert_eq!(
        RefSpec::parse("..feature").unwrap(),
        RefSpec::Range { start: "HEAD".into(), end: "feature".into() }
    );
    assert_eq!(
        RefSpec::parse("main..").unwrap(),
        RefSpec::Range { start: "main".into(), end: "HEAD".into() }
    );
    assert_eq!(
        RefSpec::parse("..").unwrap(),
        RefSpec::Range { start: "HEAD".into(), end: "HEAD".into() }
    );
}

#[test]
fn parse_triple_dot_errors() {
    let err = RefSpec::parse("main...feature").unwrap_err();
    assert!(err.contains("triple-dot"));
}

#[test]
fn parse_unicode_refs() {
    assert_eq!(
        RefSpec::parse("\u{1F680}").unwrap(),
        RefSpec::Single("\u{1F680}".into())
    );
    assert_eq!(
        RefSpec::parse("\u{4E16}\u{754C}").unwrap(),
        RefSpec::Single("\u{4E16}\u{754C}".into())
    );
    assert_eq!(
        RefSpec::parse("\u{1F680}..\u{4E16}\u{754C}").unwrap(),
        RefSpec::Range {
            start: "\u{1F680}".into(),
            end: "\u{4E16}\u{754C}".into(),
        }
    );
}

#[test]
fn parse_special_chars() {
    assert_eq!(
        RefSpec::parse("my branch").unwrap(),
        RefSpec::Single("my branch".into())
    );
    assert_eq!(
        RefSpec::parse("refs\\heads\\main").unwrap(),
        RefSpec::Single("refs\\heads\\main".into())
    );
}

#[test]
fn parse_whitespace_only() {
    assert_eq!(
        RefSpec::parse("   ").unwrap(),
        RefSpec::Single("   ".into())
    );
    assert_eq!(
        RefSpec::parse("\t").unwrap(),
        RefSpec::Single("\t".into())
    );
}

#[test]
fn parse_very_long_string() {
    let long = "a".repeat(250);
    assert_eq!(
        RefSpec::parse(&long).unwrap(),
        RefSpec::Single(long.clone())
    );
    let long_range = format!("{}..{}", "b".repeat(200), "c".repeat(200));
    assert_eq!(
        RefSpec::parse(&long_range).unwrap(),
        RefSpec::Range {
            start: "b".repeat(200),
            end: "c".repeat(200),
        }
    );
}

#[test]
fn parse_empty_string() {
    assert_eq!(
        RefSpec::parse("").unwrap(),
        RefSpec::Single("".into())
    );
}

#[test]
fn parse_splits_at_first_double_dot() {
    assert_eq!(
        RefSpec::parse("a..b..c").unwrap(),
        RefSpec::Range { start: "a".into(), end: "b..c".into() }
    );
}

#[test]
fn parse_triple_dot_error_text() {
    assert_eq!(
        RefSpec::parse("...").unwrap_err(),
        "triple-dot syntax is not supported; use `A..B`"
    );
    assert!(RefSpec::parse("x....y").is_err());
}

#[test]
fn parse_single_dot_is_single() {
    assert_eq!(RefSpec::parse("v1.2").unwrap(), RefSpec::Single("v1.2".into()));
}

#[test]
fn refspec_range_has_two_parts_examples() {
    for (s, e) in [("a", "b"), ("main", "feature2"), ("Z9", "q")] {
        let spec = RefSpec::parse(&format!("{s}..{e}")).unwrap();
        assert_eq!(spec, RefSpec::Range { start: s.into(), end: e.into() });
    }
}
