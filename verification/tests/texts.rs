use cargo_release::ops::order::{insert_sorted, sorts_before};
use cargo_release::ops::path::FilePath;
use cargo_release::ops::replace::{render_var, Template};
use cargo_release::ops::text::{find_text, same_text};

#[test]
fn render_var_replaces_every_occurrence() {
    assert_eq!(render_var("a{{x}}b{{x}}".to_owned(), "{{x}}", Some("-")), "a-b-");
    assert_eq!(render_var("a{{x}}b".to_owned(), "{{x}}", None), "a{{x}}b");
    assert_eq!(render_var("aaa".to_owned(), "aa", Some("b")), "ba");
    assert_eq!(render_var("".to_owned(), "{{x}}", Some("v")), "");
}

#[test]
fn render_applies_slots_in_order() {
    let template = Template {
        prev_version: Some("{{version}}"),
        version: Some("2.0.0"),
        metadata: Some(""),
        ..Default::default()
    };
    assert_eq!(template.render("{{prev_version}} -> {{version}}{{metadata}}"), "2.0.0 -> 2.0.0");
    let late = Template { version: Some("{{prev_version}}"), prev_version: Some("1.0.0"), ..Default::default() };
    assert_eq!(late.render("{{version}}"), "{{prev_version}}");
    let all = Template {
        prev_version: Some("a"),
        prev_metadata: Some("b"),
        version: Some("c"),
        metadata: Some("d"),
        crate_name: Some("e"),
        date: Some("f"),
        prefix: Some("g"),
        tag_name: Some("h"),
    };
    assert_eq!(
        all.render(
            "{{prev_version}}{{prev_metadata}}{{version}}{{metadata}}{{crate_name}}{{date}}{{prefix}}{{tag_name}}"
        ),
        "abcdefgh"
    );
    assert!(all.unrendered("{{date}} {{unknown}}").is_empty());
}

#[test]
fn unrendered_tokens_are_listed_in_slot_order() {
    let template = Template { version: Some("{{date}}"), ..Default::default() };
    assert_eq!(template.unrendered("{{tag_name}} {{version}} {{prev_version}}"), [
        "{{prev_version}}",
        "{{date}}",
        "{{tag_name}}"
    ]);
    assert!(Template::default().unrendered("plain").is_empty());
}

#[test]
fn paths_sort_component_by_component() {
    let paths = [
        "a", "a/x", "a.b/x", "a.b", "a-b/x", "a/b/c", "a/b", "ab", "b", "Z/z", "é/x", "src/lib.rs",
        "src/lib.rs.bak", "src-old/lib.rs", "a b/c", "a/!", "a!",
    ];
    for a in paths {
        for b in paths {
            let by_path = std::path::Path::new(a) < std::path::Path::new(b);
            assert_eq!(sorts_before(a, b), by_path, "{a:?} against {b:?}");
        }
    }
    assert!(sorts_before("a/x", "a.b/x"));
    assert!(!sorts_before("a.b/x", "a/x"));
    assert!(sorts_before("", "a"));
    assert!(!sorts_before("a", "a"));
}

#[test]
fn insert_sorted_keeps_order_without_repeats() {
    let mut list: Vec<String> = Vec::new();
    for word in ["m", "c", "x", "c", "a", "m", "z", "b"] {
        insert_sorted(&mut list, word);
    }
    assert_eq!(list, ["a", "b", "c", "m", "x", "z"]);
}

#[test]
fn text_helpers_compare_and_find() {
    assert!(same_text("abc", "abc"));
    assert!(!same_text("abc", "abd"));
    let list = vec!["x".to_owned(), "y".to_owned(), "x".to_owned()];
    assert_eq!(find_text(&list, "x"), Some(0));
    assert_eq!(find_text(&list, "y"), Some(1));
    assert_eq!(find_text(&list, "z"), None);
}

#[test]
fn paths_are_compared_by_component() {
    let base = FilePath::new().join("ws").join("core");
    let file = base.join("tests").join("it.rs");
    assert!(file.enters(&base, "tests"));
    assert!(!file.enters(&base, "src"));
    assert!(!base.enters(&base, "tests"));
    assert!(!file.enters(&FilePath::new().join("ws"), "tests"));
    assert!(file.ends_with("it.rs"));
    assert!(!file.ends_with("tests"));
    assert!(!FilePath::new().ends_with(""));
    assert!(file.parent().unwrap().equals(&base.join("tests")));
    assert!(FilePath::new().parent().is_none());
    assert!(!file.equals(&base));
    assert!(file.clone().equals(&file));
}

#[test]
fn empty_token_is_put_between_characters() {
    assert_eq!(render_var("abc".to_owned(), "", Some("-")), "-a-b-c-");
    assert_eq!(render_var("".to_owned(), "", Some("-")), "-");
}
