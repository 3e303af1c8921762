use cargo_release::config::Replace;
use cargo_release::error::ValidationError;
use cargo_release::ops::diff::unified_diff;
use cargo_release::ops::replace::{
    check_occurrences, decide_change, do_file_replacements, replace_in_file, replace_once,
    replacement_files, FileChange, FileSource, Template,
};

fn rule(file: &str, search: &str, replace: &str) -> Replace {
    Replace {
        file: file.to_owned(),
        search: search.to_owned(),
        replace: replace.to_owned(),
        min: None,
        max: None,
        exactly: None,
        prerelease: false,
    }
}

fn source(file: &str, content: &str) -> FileSource {
    FileSource { file: file.to_owned(), content: Some(content.to_owned()) }
}

fn template() -> Template<'static> {
    Template {
        prev_version: Some("1.0.0"),
        version: Some("1.1.0"),
        crate_name: Some("foo"),
        ..Default::default()
    }
}

#[test]
fn rule_with_one_match_replaces_it() {
    let mut r = rule("Cargo.toml", r#"version = "1\.0\.0""#, r#"version = "{{version}}""#);
    r.min = Some(1);
    let out = replace_once(&r, &template(), "name = \"foo\"\nversion = \"1.0.0\"\n".to_owned(), false);
    assert_eq!(out.unwrap(), "name = \"foo\"\nversion = \"1.1.0\"\n");
}

#[test]
fn rule_without_a_match_fails() {
    let mut r = rule("Cargo.toml", r#"version = "1\.0\.0""#, r#"version = "{{version}}""#);
    r.min = Some(1);
    let fault = replace_once(&r, &template(), "name = \"foo\"\n".to_owned(), false).unwrap_err();
    match &fault {
        ValidationError::TooFew { expected, found, file, .. } => {
            assert_eq!((*expected, *found), (1, 0));
            assert_eq!(file, "Cargo.toml");
        }
        other => panic!("unexpected fault {other:?}"),
    }
    assert_eq!(
        fault.message(),
        "for `version = \"1\\.0\\.0\"` in 'Cargo.toml', at least 1 replacements expected, found 0"
    );
}

#[test]
fn exact_count_rejects_zero_and_two() {
    let mut r = rule("README.md", "foo", "bar");
    r.exactly = Some(1);
    assert!(check_occurrences(&r, 1).is_ok());
    assert!(matches!(check_occurrences(&r, 0), Err(ValidationError::TooFew { expected: 1, found: 0, .. })));
    assert!(matches!(check_occurrences(&r, 2), Err(ValidationError::TooMany { expected: 1, found: 2, .. })));
    assert!(matches!(
        replace_once(&r, &template(), "nothing here".to_owned(), false),
        Err(ValidationError::TooFew { .. })
    ));
    let fault = replace_once(&r, &template(), "foo and foo".to_owned(), false).unwrap_err();
    assert_eq!(fault.message(), "for `foo` in 'README.md', at most 1 replacements expected, found 2");
    let sources = vec![source("README.md", "foo and foo")];
    let (changes, done) = do_file_replacements(&vec![r], &template(), &sources, false, false, false);
    assert!(changes.is_empty());
    assert!(matches!(done, Err(ValidationError::TooMany { .. })));
}

#[test]
fn bounds_default_to_one_or_more() {
    let r = rule("f", "x", "y");
    assert_eq!(r.bounds(), (1, usize::MAX));
    assert!(check_occurrences(&r, 0).is_err());
    assert!(check_occurrences(&r, 1).is_ok());
    assert!(check_occurrences(&r, 1000).is_ok());
    let mut r = rule("f", "x", "y");
    r.min = Some(0);
    r.max = Some(2);
    r.exactly = Some(7);
    assert_eq!(r.bounds(), (0, 2));
    r.min = None;
    assert_eq!(r.bounds(), (7, 2));
}

#[test]
fn patterns_match_line_by_line() {
    let r = rule("CHANGELOG.md", "^## Unreleased$", "## {{version}}");
    let out = replace_once(&r, &template(), "# Log\n## Unreleased\n- a\n".to_owned(), false);
    assert_eq!(out.unwrap(), "# Log\n## 1.1.0\n- a\n");
}

#[test]
fn refused_pattern_is_reported() {
    let r = rule("f", "(unclosed", "y");
    let fault = replace_once(&r, &template(), "text".to_owned(), false).unwrap_err();
    match &fault {
        ValidationError::PatternRefused { pattern, file, reason } => {
            assert_eq!(pattern, "(unclosed");
            assert_eq!(file, "f");
            assert!(!reason.is_empty());
        }
        other => panic!("unexpected fault {other:?}"),
    }
    assert!(fault.message().starts_with("for `(unclosed` in 'f', the pattern is refused: "));
}

#[test]
fn rule_is_passed_over_for_a_pre_release() {
    let r = rule("f", "x", "y");
    assert_eq!(replace_once(&r, &template(), "x".to_owned(), true).unwrap(), "x");
    assert_eq!(replace_once(&r, &template(), "none".to_owned(), true).unwrap(), "none");
    let mut r = rule("f", "x", "y");
    r.prerelease = true;
    assert_eq!(replace_once(&r, &template(), "x".to_owned(), true).unwrap(), "y");
}

#[test]
fn rules_of_a_file_apply_in_turn() {
    let rules = vec![
        rule("a.txt", "one", "two"),
        rule("b.txt", "one", "nine"),
        rule("a.txt", "two", "{{crate_name}}"),
    ];
    assert_eq!(replace_in_file(&rules, "a.txt", &template(), "one", false).unwrap(), "foo");
    assert_eq!(replace_in_file(&rules, "b.txt", &template(), "one", false).unwrap(), "nine");
    assert_eq!(replace_in_file(&rules, "c.txt", &template(), "one", false).unwrap(), "one");
}

#[test]
fn files_are_sorted_and_named_once() {
    let rules = vec![
        rule("src/lib.rs", "x", "y"),
        rule("README.md", "x", "y"),
        rule("src/lib.rs", "z", "y"),
        rule("Cargo.toml", "x", "y"),
        rule("a.b/c", "x", "y"),
        rule("a/b", "x", "y"),
        rule("a", "x", "y"),
        rule("Zed", "x", "y"),
    ];
    let files = replacement_files(&rules);
    let mut sorted: Vec<std::path::PathBuf> = rules.iter().map(|r| r.file.clone().into()).collect();
    sorted.sort();
    sorted.dedup();
    assert_eq!(files.iter().map(std::path::PathBuf::from).collect::<Vec<_>>(), sorted);
    assert_eq!(files, ["Cargo.toml", "README.md", "Zed", "a", "a/b", "a.b/c", "src/lib.rs"]);
    assert!(replacement_files(&Vec::new()).is_empty());
}

#[test]
fn unchanged_file_is_left_alone() {
    let rules = vec![rule("a.txt", "same", "same")];
    let sources = vec![source("a.txt", "all the same")];
    for dry_run in [true, false] {
        let (changes, done) = do_file_replacements(&rules, &template(), &sources, false, true, dry_run);
        assert!(changes.is_empty());
        assert!(matches!(done, Ok(true)));
    }
    assert!(decide_change("a.txt", "x", "x".to_owned(), true, false).is_none());
}

#[test]
fn changed_file_is_written_or_previewed() {
    let rules = vec![rule("b.txt", "1\\.0\\.0", "{{version}}"), rule("a.txt", "old", "new")];
    let sources = vec![source("a.txt", "old\n"), source("b.txt", "v1.0.0\n")];
    let (changes, done) = do_file_replacements(&rules, &template(), &sources, false, false, false);
    assert!(matches!(done, Ok(true)));
    assert_eq!(changes.len(), 2);
    assert!(matches!(&changes[0], FileChange::Write { file, content } if file == "a.txt" && content == "new\n"));
    assert!(matches!(&changes[1], FileChange::Write { file, content } if file == "b.txt" && content == "v1.1.0\n"));

    let (changes, done) = do_file_replacements(&rules, &template(), &sources, false, false, true);
    assert!(matches!(done, Ok(true)));
    assert!(matches!(&changes[0], FileChange::Preview { file, message } if file == "a.txt" && message == "in a.txt"));
    assert!(matches!(&changes[1], FileChange::Preview { message, .. } if message == "in b.txt"));

    let (changes, _) = do_file_replacements(&rules, &template(), &sources, false, true, true);
    let expected = format!("in a.txt\n{}", unified_diff("old\n", "new\n", "a.txt", "replaced"));
    assert!(matches!(&changes[0], FileChange::Preview { message, .. } if *message == expected));
}

#[test]
fn missing_file_ends_the_work() {
    let rules = vec![rule("b.txt", "x", "y"), rule("a.txt", "x", "y"), rule("c.txt", "x", "y")];
    let sources = vec![
        source("a.txt", "x"),
        FileSource { file: "b.txt".to_owned(), content: None },
        source("c.txt", "x"),
    ];
    let (changes, done) = do_file_replacements(&rules, &template(), &sources, false, false, false);
    assert_eq!(changes.len(), 1);
    assert!(matches!(&changes[0], FileChange::Write { file, .. } if file == "a.txt"));
    let fault = done.unwrap_err();
    assert!(matches!(&fault, ValidationError::MissingFile { file } if file == "b.txt"));
    assert_eq!(fault.message(), "unable to find file b.txt to perform replace");
    let (changes, done) = do_file_replacements(&rules, &template(), &Vec::new(), false, false, false);
    assert!(changes.is_empty());
    assert!(matches!(done, Err(ValidationError::MissingFile { file }) if file == "a.txt"));
}

#[test]
fn unified_diff_names_both_sides() {
    let diff = unified_diff("a\nb\n", "a\nc\n", "dir/file.txt", "replaced");
    assert!(diff.starts_with("--- dir/file.txt\toriginal\n+++ dir/file.txt\treplaced\n"));
    assert!(diff.contains("-b\n"));
    assert!(diff.contains("+c\n"));
    assert_eq!(unified_diff("same\n", "same\n", "f", "replaced"), "");
}

#[test]
fn search_pattern_is_not_rendered() {
    let mut r = rule("Cargo.toml", r#"version = "{{prev_version}}""#, r#"version = "{{version}}""#);
    r.min = Some(1);
    let out = replace_once(&r, &template(), "version = \"1.0.0\"\n".to_owned(), false);
    assert!(matches!(out, Err(ValidationError::PatternRefused { .. })));
}
