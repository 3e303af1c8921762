use cargo_release::config::{Config, MetadataPolicy};
use cargo_release::error::ValidationError;
use cargo_release::ops::cargo::Features;
use cargo_release::ops::path::FilePath;
use cargo_release::ops::version::SemVer;
use cargo_release::steps::plan::{plan, PackageRelease, Version};
use cargo_release::steps::workspace::PackageMeta;
use cargo_release::steps::{BumpLevel, TargetVersion};
use indexmap::IndexMap;

fn path(components: &[&str]) -> FilePath {
    FilePath { components: components.iter().map(|c| c.to_string()).collect() }
}

fn package(name: &str, version: SemVer, group: Option<&str>) -> PackageRelease {
    let mut config = Config::new();
    config.shared_version = group.map(|g| g.to_owned());
    PackageRelease {
        meta: PackageMeta {
            id: format!("{name} 0.0.0"),
            name: name.to_owned(),
            version: version.clone(),
            manifest_path: path(&["ws", name, "Cargo.toml"]),
            targets: vec![vec!["lib".to_owned()]],
            dependencies: Vec::new(),
        },
        manifest_path: path(&["ws", name, "Cargo.toml"]),
        package_root: path(&["ws", name]),
        is_root: false,
        config,
        package_content: Vec::new(),
        bin: false,
        dependents: Vec::new(),
        features: Features::Plain,
        initial_version: Version::new(version),
        prior_tag: None,
        planned_version: None,
        planned_tag: None,
        ensure_owners: false,
    }
}

fn workspace(pkgs: Vec<PackageRelease>) -> IndexMap<String, PackageRelease> {
    pkgs.into_iter().map(|p| (p.meta.id.clone(), p)).collect()
}

fn effective(pkg: &PackageRelease) -> &Version {
    pkg.planned_version.as_ref().unwrap_or(&pkg.initial_version)
}

#[test]
fn group_member_left_behind_is_pulled_up() {
    let a = package("a", SemVer::new(1, 0, 0, "", ""), Some("g"));
    let mut b = package("b", SemVer::new(1, 0, 0, "", ""), Some("g"));
    b.bump(&TargetVersion::Relative(BumpLevel::Major), None).unwrap();
    assert_eq!(b.planned_version.as_ref().unwrap().full_version_string, "2.0.0");
    let planned = plan(workspace(vec![b, a])).unwrap();
    let a = &planned["a 0.0.0"];
    let version = a.planned_version.as_ref().unwrap();
    assert_eq!(version.bare_version_string, "2.0.0");
    assert_eq!(version.full_version.build, "");
    assert_eq!(version.full_version_string, "2.0.0");
    assert_eq!(a.planned_tag.as_deref(), Some("a-v2.0.0"));
    let b = &planned["b 0.0.0"];
    assert_eq!(effective(b).bare_version_string, "2.0.0");
    assert_eq!(b.planned_tag.as_deref(), Some("b-v2.0.0"));
}

#[test]
fn group_converges_whatever_the_order() {
    let versions = [(1, 0, 0), (3, 1, 0), (2, 5, 9), (3, 0, 7)];
    let forward: Vec<PackageRelease> = versions
        .iter()
        .enumerate()
        .map(|(i, v)| package(&format!("p{i}"), SemVer::new(v.0, v.1, v.2, "", ""), Some("g")))
        .collect();
    let backward: Vec<PackageRelease> = versions
        .iter()
        .enumerate()
        .rev()
        .map(|(i, v)| package(&format!("p{i}"), SemVer::new(v.0, v.1, v.2, "", ""), Some("g")))
        .collect();
    let forward = plan(workspace(forward)).unwrap();
    let backward = plan(workspace(backward)).unwrap();
    for pkgs in [&forward, &backward] {
        assert_eq!(pkgs.len(), 4);
        for pkg in pkgs.values() {
            assert_eq!(effective(pkg).bare_version_string, "3.1.0");
        }
    }
    assert!(forward["p1 0.0.0"].planned_version.is_none());
    assert!(backward["p1 0.0.0"].planned_version.is_none());
    assert_eq!(forward.keys().collect::<Vec<_>>(), ["p0 0.0.0", "p1 0.0.0", "p2 0.0.0", "p3 0.0.0"]);
}

#[test]
fn group_member_at_the_maximum_loses_a_forced_plan() {
    let mut a = package("a", SemVer::new(2, 0, 0, "", ""), Some("g"));
    a.planned_version = Some(Version::new(SemVer::new(1, 5, 0, "", "")));
    let b = package("b", SemVer::new(1, 5, 0, "", ""), Some("g"));
    let planned = plan(workspace(vec![a, b])).unwrap();
    assert_eq!(planned["a 0.0.0"].planned_version.as_ref().unwrap().bare_version_string, "1.5.0");
    assert!(planned["b 0.0.0"].planned_version.is_none());
}

#[test]
fn packages_outside_groups_keep_their_own_plan() {
    let mut lone = package("lone", SemVer::new(0, 1, 0, "", ""), None);
    lone.bump(&TargetVersion::Relative(BumpLevel::Patch), None).unwrap();
    let a = package("a", SemVer::new(5, 0, 0, "", ""), Some("g"));
    let b = package("b", SemVer::new(4, 0, 0, "", ""), Some("g"));
    let planned = plan(workspace(vec![a, lone, b])).unwrap();
    assert_eq!(planned["lone 0.0.0"].planned_version.as_ref().unwrap().full_version_string, "0.1.1");
    assert_eq!(planned["lone 0.0.0"].planned_tag.as_deref(), Some("lone-v0.1.1"));
    assert_eq!(effective(&planned["b 0.0.0"]).bare_version_string, "5.0.0");
}

#[test]
fn groups_do_not_mix() {
    let a = package("a", SemVer::new(1, 0, 0, "", ""), Some("g"));
    let b = package("b", SemVer::new(9, 0, 0, "", ""), Some("h"));
    let c = package("c", SemVer::new(2, 0, 0, "", ""), Some("g"));
    let planned = plan(workspace(vec![a, b, c])).unwrap();
    assert_eq!(effective(&planned["a 0.0.0"]).bare_version_string, "2.0.0");
    assert_eq!(effective(&planned["b 0.0.0"]).bare_version_string, "9.0.0");
    assert_eq!(effective(&planned["c 0.0.0"]).bare_version_string, "2.0.0");
}

#[test]
fn packages_not_released_stay_out_of_their_group() {
    let a = package("a", SemVer::new(1, 0, 0, "", ""), Some("g"));
    let mut b = package("b", SemVer::new(9, 0, 0, "", ""), Some("g"));
    b.config.release = Some(false);
    let planned = plan(workspace(vec![a, b])).unwrap();
    assert!(planned["a 0.0.0"].planned_version.is_none());
    assert_eq!(planned["a 0.0.0"].planned_tag.as_deref(), Some("a-v1.0.0"));
    assert!(planned["b 0.0.0"].planned_version.is_none());
    assert!(planned["b 0.0.0"].planned_tag.is_none());
}

#[test]
fn group_ranks_pre_releases_below_the_release() {
    let a = package("a", SemVer::new(1, 0, 0, "rc.1", ""), Some("g"));
    let b = package("b", SemVer::new(1, 0, 0, "", ""), Some("g"));
    let c = package("c", SemVer::new(1, 0, 0, "beta.3", ""), Some("g"));
    let planned = plan(workspace(vec![a, b, c])).unwrap();
    for pkg in planned.values() {
        assert_eq!(effective(pkg).bare_version_string, "1.0.0");
    }
}

#[test]
fn plan_renders_tag_or_none() {
    let mut a = package("a", SemVer::new(1, 2, 3, "", "b7"), None);
    a.config.tag_name = Some("{{crate_name}}/{{version}}+{{metadata}} after {{prev_version}}".to_owned());
    a.plan().unwrap();
    assert_eq!(a.planned_tag.as_deref(), Some("a/1.2.3+b7 after 1.2.3"));
    a.config.tag = Some(false);
    a.plan().unwrap();
    assert!(a.planned_tag.is_none());
    let mut root = package("root", SemVer::new(1, 0, 0, "", ""), None);
    root.is_root = true;
    root.plan().unwrap();
    assert_eq!(root.planned_tag.as_deref(), Some("v1.0.0"));
}

#[test]
fn bump_follows_the_metadata_policy() {
    let mut a = package("a", SemVer::new(1, 0, 0, "", "keep"), None);
    a.config.metadata = Some(MetadataPolicy::Required);
    let fault = a.bump(&TargetVersion::Relative(BumpLevel::Minor), None).unwrap_err();
    assert!(matches!(&fault, ValidationError::MetadataRequired { name } if name == "a"));
    assert_eq!(fault.message(), "`a` requires the metadata to be overridden");
    assert!(a.planned_version.is_none());
    a.bump(&TargetVersion::Relative(BumpLevel::Minor), Some("m1")).unwrap();
    assert_eq!(a.planned_version.as_ref().unwrap().full_version_string, "1.1.0+m1");

    a.config.metadata = Some(MetadataPolicy::Ignore);
    a.bump(&TargetVersion::Relative(BumpLevel::Minor), Some("m1")).unwrap();
    assert_eq!(a.planned_version.as_ref().unwrap().full_version_string, "1.1.0");

    a.config.metadata = Some(MetadataPolicy::Persistent);
    a.bump(&TargetVersion::Relative(BumpLevel::Minor), None).unwrap();
    assert_eq!(a.planned_version.as_ref().unwrap().full_version_string, "1.1.0+keep");
    a.bump(&TargetVersion::Relative(BumpLevel::Minor), Some("other")).unwrap();
    assert_eq!(a.planned_version.as_ref().unwrap().full_version_string, "1.1.0+other");

    a.config.metadata = Some(MetadataPolicy::Optional);
    a.bump(&TargetVersion::Relative(BumpLevel::Minor), None).unwrap();
    assert_eq!(a.planned_version.as_ref().unwrap().full_version_string, "1.1.0");
}

#[test]
fn bump_reports_faults_and_plans_nothing() {
    let mut a = package("a", SemVer::new(u64::MAX, 0, 0, "", ""), None);
    let fault = a.bump(&TargetVersion::Relative(BumpLevel::Major), None).unwrap_err();
    assert!(matches!(fault, ValidationError::VersionExhausted { .. }));
    assert!(a.planned_version.is_none());
    let mut b = package("b", SemVer::new(1, 0, 0, "", ""), None);
    let fault = b.bump(&TargetVersion::Relative(BumpLevel::Major), Some("a b")).unwrap_err();
    assert!(matches!(&fault, ValidationError::MetadataRefused { metadata, .. } if metadata == "a b"));
    assert!(b.planned_version.is_none());
}

#[test]
fn set_prior_tag_records_the_tag() {
    let mut a = package("a", SemVer::new(1, 0, 0, "", ""), None);
    a.set_prior_tag("a-v0.9.0".to_owned());
    assert_eq!(a.prior_tag.as_deref(), Some("a-v0.9.0"));
}

#[test]
fn faults_have_messages() {
    let fault = ValidationError::VersionExhausted { name: "a".to_owned() };
    assert_eq!(fault.message(), "`a` is at a version that cannot be incremented");
    let fault = ValidationError::MetadataRefused { name: "a".to_owned(), metadata: "x y".to_owned() };
    assert_eq!(fault.message(), "`a` cannot take `x y` as metadata");
    let fault = ValidationError::RepeatedPackage { id: "a 1.0.0".to_owned() };
    assert_eq!(fault.message(), "workspace member `a 1.0.0` is listed twice");
}

#[test]
fn members_at_one_bare_maximum_do_not_depend_on_order() {
    for flip in [false, true] {
        let a = package("a", SemVer::new(2, 0, 0, "", "x1"), Some("g"));
        let b = package("b", SemVer::new(2, 0, 0, "", "x2"), Some("g"));
        let c = package("c", SemVer::new(1, 0, 0, "", ""), Some("g"));
        let pkgs = if flip { vec![b, c, a] } else { vec![a, c, b] };
        let planned = plan(workspace(pkgs)).unwrap();
        assert_eq!(planned["c 0.0.0"].planned_version.as_ref().unwrap().full_version_string, "2.0.0+x2");
        assert!(planned["a 0.0.0"].planned_version.is_none());
        assert!(planned["b 0.0.0"].planned_version.is_none());
        assert_eq!(planned["c 0.0.0"].planned_tag.as_deref(), Some("c-v2.0.0"));
    }
}

#[test]
fn group_that_cannot_be_ranked_fails_the_plan() {
    let a = package("a", SemVer::new(1, 0, 0, "not valid", ""), Some("g"));
    let b = package("b", SemVer::new(1, 0, 0, "", ""), Some("g"));
    let lone = package("lone", SemVer::new(1, 0, 0, "also not", ""), Some("h"));
    let fault = plan(workspace(vec![lone, a, b])).unwrap_err();
    assert!(matches!(&fault, ValidationError::Unranked { group } if group == "g"));
    assert_eq!(fault.message(), "the versions in group `g` cannot be ranked");
    let single = package("single", SemVer::new(1, 0, 0, "also not", ""), Some("h"));
    assert!(plan(workspace(vec![single])).is_ok());
    let mut off = package("off", SemVer::new(1, 0, 0, "not valid", ""), Some("g"));
    off.config.release = Some(false);
    let on = package("on", SemVer::new(1, 0, 0, "", ""), Some("g"));
    assert!(plan(workspace(vec![off, on])).is_ok());
}
