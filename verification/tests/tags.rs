use cargo_release::ops::replace::Template;
use cargo_release::ops::version::SemVer;
use cargo_release::steps::plan::{
    render_tag, render_tag_glob, unrendered_in_tag, unrendered_in_tag_glob, Version,
};

#[test]
fn prefix_is_rendered_before_the_tag() {
    let version = Version::new(SemVer::new(1, 2, 3, "", ""));
    let tag = render_tag("{{prefix}}v{{version}}", "{{crate_name}}-", "foo", &version, &version);
    assert_eq!(tag, "foo-v1.2.3");
}

#[test]
fn tag_without_prefix_token_ignores_the_prefix() {
    let version = Version::new(SemVer::new(1, 2, 3, "", ""));
    let tag = render_tag("v{{version}}", "{{crate_name}}-", "foo", &version, &version);
    assert_eq!(tag, "v1.2.3");
}

#[test]
fn glob_keeps_name_and_prefix_literal() {
    let glob = render_tag_glob("{{prefix}}v{{version}}", "{{crate_name}}-", "foo");
    assert_eq!(glob, "foo-v*");
}

#[test]
fn render_leaves_unbound_tokens() {
    let template = Template { version: Some("1.0.0"), ..Default::default() };
    assert_eq!(template.render("{{version}} on {{date}}"), "1.0.0 on {{date}}");
    assert_eq!(template.unrendered("{{version}} on {{date}}"), vec!["{{date}}".to_owned()]);
}

#[test]
fn rendering_a_tag_twice_gives_the_same_tag() {
    let prev = Version::new(SemVer::new(1, 2, 3, "rc.1", "b1"));
    let base = Version::new(SemVer::new(1, 2, 3, "", "b2"));
    let render = || render_tag("{{prefix}}{{prev_version}}+{{prev_metadata}}..{{version}}+{{metadata}}", "{{crate_name}}/", "foo", &prev, &base);
    assert_eq!(render(), render());
    assert_eq!(render(), "foo/1.2.3-rc.1+b1..1.2.3+b2");
}

#[test]
fn tokens_left_in_a_tag_are_listed() {
    let version = Version::new(SemVer::new(1, 2, 3, "", ""));
    let left = unrendered_in_tag("{{prefix}}v{{version}}-{{date}}", "{{tag_name}}/", "foo", &version, &version);
    assert_eq!(left, ["{{tag_name}}", "{{date}}", "{{tag_name}}"]);
    assert_eq!(render_tag("{{prefix}}v{{version}}-{{date}}", "{{tag_name}}/", "foo", &version, &version), "{{tag_name}}/v1.2.3-{{date}}");
    assert!(unrendered_in_tag("{{prefix}}v{{version}}", "{{crate_name}}-", "foo", &version, &version).is_empty());
}

#[test]
fn tokens_left_in_a_tag_pattern_are_listed() {
    assert!(unrendered_in_tag_glob("{{prefix}}v{{version}}", "{{crate_name}}-", "foo").is_empty());
    assert_eq!(unrendered_in_tag_glob("{{prefix}}v{{version}}-{{date}}", "", "foo"), ["{{date}}"]);
}
