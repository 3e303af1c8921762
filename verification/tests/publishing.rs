use cargo_release::config::{Config, RateLimit};
use cargo_release::error::{CliError, NOTHING_SELECTED, PUBLISH_FAILED};
use cargo_release::ops::cargo::Features;
use cargo_release::ops::index::{CratesIoIndex, Fetched, IndexKrate, Lookup};
use cargo_release::ops::path::FilePath;
use cargo_release::ops::version::SemVer;
use cargo_release::steps::plan::{PackageRelease, Version};
use cargo_release::steps::workspace::PackageMeta;
use cargo_release::steps::publish::{
    counts_against_rate_limit, exclude, grace_for, is_published, publish, publish_grace_sleep,
    select, skip_published, verify_metadata, verify_rate_limit,
    PublishAction, PublishCall, PublishStep,
};
use indexmap::IndexMap;

fn path(components: &[&str]) -> FilePath {
    FilePath { components: components.iter().map(|c| c.to_string()).collect() }
}

fn package(name: &str, version: SemVer) -> PackageRelease {
    PackageRelease {
        meta: PackageMeta {
            id: name.to_owned(),
            name: name.to_owned(),
            version: version.clone(),
            manifest_path: path(&["ws", name, "Cargo.toml"]),
            targets: Vec::new(),
            dependencies: Vec::new(),
        },
        manifest_path: path(&["ws", name, "Cargo.toml"]),
        package_root: path(&["ws", name]),
        is_root: false,
        config: Config::new(),
        package_content: Vec::new(),
        bin: false,
        dependents: Vec::new(),
        features: Features::Plain,
        initial_version: Version::new(version),
        prior_tag: None,
        planned_version: None,
        planned_tag: None,
        ensure_owners: false,
    }
}

fn workspace(names: &[&str]) -> IndexMap<String, PackageRelease> {
    names.iter().map(|n| (n.to_string(), package(n, SemVer::new(1, 0, 0, "", "")))).collect()
}

fn step(execute: bool) -> PublishStep {
    PublishStep {
        custom_config: None,
        isolated: false,
        allow_branch: None,
        execute,
        dry_run: false,
        no_confirm: false,
    }
}

#[test]
fn dry_run_batch_skips_verification() {
    let pkgs = vec![package("b", SemVer::new(1, 0, 0, "", "")), package("a", SemVer::new(1, 0, 0, "", ""))];
    assert!(pkgs.iter().all(|p| p.config.verify()));
    assert_eq!(publish(&pkgs, true, 0, None), PublishAction::Call(PublishCall { package: 0, verify: false }));
    assert_eq!(
        publish(&pkgs, true, 1, Some(true)),
        PublishAction::Call(PublishCall { package: 1, verify: false })
    );
    assert_eq!(publish(&pkgs, true, 2, Some(true)), PublishAction::Finished);
}

#[test]
fn single_package_and_real_runs_verify() {
    let one = vec![package("a", SemVer::new(1, 0, 0, "", ""))];
    assert_eq!(publish(&one, true, 0, None), PublishAction::Call(PublishCall { package: 0, verify: true }));
    let two = vec![package("b", SemVer::new(1, 0, 0, "", "")), package("a", SemVer::new(1, 0, 0, "", ""))];
    assert_eq!(publish(&two, false, 0, None), PublishAction::Call(PublishCall { package: 0, verify: true }));
    let mut quiet = package("q", SemVer::new(1, 0, 0, "", ""));
    quiet.config.verify = Some(false);
    assert_eq!(
        publish(&vec![quiet], false, 0, None),
        PublishAction::Call(PublishCall { package: 0, verify: false })
    );
}

#[test]
fn packages_not_published_are_passed_over() {
    let mut pkgs = vec![
        package("a", SemVer::new(1, 0, 0, "", "")),
        package("b", SemVer::new(1, 0, 0, "", "")),
        package("c", SemVer::new(1, 0, 0, "", "")),
    ];
    pkgs[0].config.publish = Some(false);
    pkgs[2].config.publish = Some(false);
    assert_eq!(publish(&pkgs, false, 0, None), PublishAction::Call(PublishCall { package: 1, verify: true }));
    assert_eq!(publish(&pkgs, false, 2, Some(true)), PublishAction::Finished);
    assert_eq!(publish(&Vec::new(), false, 0, None), PublishAction::Finished);
    assert_eq!(publish(&pkgs, false, 7, None), PublishAction::Finished);
}

#[test]
fn failed_call_ends_the_run() {
    let pkgs = vec![package("a", SemVer::new(1, 0, 0, "", "")), package("b", SemVer::new(1, 0, 0, "", ""))];
    assert_eq!(
        publish(&pkgs, false, 1, Some(false)),
        PublishAction::Failed(CliError { code: PUBLISH_FAILED })
    );
    assert_eq!(PUBLISH_FAILED, 101);
}

#[test]
fn grace_sleep_follows_the_setting() {
    assert_eq!(publish_grace_sleep(false, Some("5")), 5);
    assert_eq!(publish_grace_sleep(false, Some("0")), 0);
    assert_eq!(publish_grace_sleep(false, Some("soon")), 0);
    assert_eq!(publish_grace_sleep(false, Some("")), 0);
    assert_eq!(publish_grace_sleep(false, None), 0);
    assert_eq!(publish_grace_sleep(true, Some("5")), 0);
    assert_eq!(grace_for(false, Some(3)), 3);
    assert_eq!(grace_for(true, Some(3)), 0);
    assert_eq!(grace_for(false, None), 0);
}

#[test]
fn excluded_packages_are_switched_off() {
    let mut pkgs = workspace(&["a", "b", "c"]);
    pkgs["c"].config.release = Some(false);
    pkgs["c"].config.publish = Some(true);
    exclude(&mut pkgs, &vec!["b".to_owned(), "outside".to_owned(), "c".to_owned()]);
    assert!(pkgs["a"].config.release() && pkgs["a"].config.publish());
    assert!(!pkgs["b"].config.release() && !pkgs["b"].config.publish());
    assert!(!pkgs["c"].config.release());
    assert_eq!(pkgs["c"].config.publish, Some(true));
    assert_eq!(pkgs.keys().collect::<Vec<_>>(), ["a", "b", "c"]);
}

#[test]
fn run_excludes_then_plans() {
    let mut pkgs = workspace(&["a", "b"]);
    pkgs["a"].config.shared_version = Some("g".to_owned());
    pkgs["b"].config.shared_version = Some("g".to_owned());
    pkgs["b"].initial_version = Version::new(SemVer::new(3, 0, 0, "", ""));
    let planned = step(false).run(pkgs, &vec!["b".to_owned()]).unwrap();
    assert!(planned["a"].planned_version.is_none());
    assert_eq!(planned["a"].planned_tag.as_deref(), Some("a-v1.0.0"));
    assert!(planned["b"].planned_tag.is_none());
    assert!(!planned["b"].config.release());
}

#[test]
fn dry_run_is_the_default() {
    assert!(step(false).is_dry_run());
    assert!(!step(true).is_dry_run());
    let mut asked = step(false);
    asked.dry_run = true;
    assert!(asked.dry_run_is_superfluous());
    assert!(!step(false).dry_run_is_superfluous());
}

#[test]
fn published_versions_are_skipped() {
    let mut index = CratesIoIndex::new();
    let mut pkg = package("foo", SemVer::new(1, 0, 0, "", ""));
    assert!(matches!(is_published(&mut index, &pkg), Lookup::Fetch { .. }));
    index.fetched(
        "foo",
        Fetched { etag: None, entry: Some(IndexKrate { versions: vec!["1.0.0".to_owned()] }) },
    );
    assert!(matches!(is_published(&mut index, &pkg), Lookup::Known(true)));
    pkg.planned_version = Some(Version::new(SemVer::new(1, 1, 0, "", "")));
    assert!(matches!(is_published(&mut index, &pkg), Lookup::Known(false)));
    pkg.config.registry = Some("private".to_owned());
    pkg.planned_version = None;
    assert!(matches!(is_published(&mut index, &pkg), Lookup::Known(false)));

    let mut pkg = package("foo", SemVer::new(1, 0, 0, "", ""));
    assert!(!skip_published(&mut pkg, false));
    assert!(pkg.config.release());
    assert!(skip_published(&mut pkg, true));
    assert!(!pkg.config.release() && !pkg.config.publish());
    assert!(!skip_published(&mut pkg, true));
}

#[test]
fn selection_keeps_released_packages_in_order() {
    let mut pkgs = workspace(&["a", "b", "c"]);
    pkgs["b"].config.release = Some(false);
    let selected = select(pkgs).unwrap();
    assert_eq!(selected.iter().map(|p| p.meta.name.as_str()).collect::<Vec<_>>(), ["a", "c"]);
    let mut none = workspace(&["a"]);
    none["a"].config.release = Some(false);
    assert_eq!(select(none).unwrap_err(), CliError { code: NOTHING_SELECTED });
    assert_eq!(select(IndexMap::new()).unwrap_err().code, 2);
}

#[test]
fn missing_fields_are_listed() {
    assert!(verify_metadata(true, true, false, false, true, false).is_empty());
    assert!(verify_metadata(true, false, true, false, false, true).is_empty());
    assert_eq!(verify_metadata(false, false, false, false, false, false), [
        "description",
        "license || license-file",
        "documentation || homepage || repository"
    ]);
    assert_eq!(verify_metadata(true, false, false, true, false, false), ["license || license-file"]);
}

#[test]
fn rate_limit_is_held_against_the_counts() {
    let unset = RateLimit { new_packages: None, existing_packages: None };
    assert_eq!(verify_rate_limit(&unset, 5, 30), (false, false));
    assert_eq!(verify_rate_limit(&unset, 6, 30), (true, false));
    assert_eq!(verify_rate_limit(&unset, 0, 31), (false, true));
    let set = RateLimit { new_packages: Some(1), existing_packages: Some(0) };
    assert_eq!(verify_rate_limit(&set, 2, 1), (true, true));
    assert_eq!(verify_rate_limit(&set, 1, 0), (false, false));
    let mut pkg = package("a", SemVer::new(1, 0, 0, "", ""));
    assert!(counts_against_rate_limit(&pkg));
    pkg.config.registry = Some("private".to_owned());
    assert!(!counts_against_rate_limit(&pkg));
    pkg.config.registry = None;
    pkg.config.publish = Some(false);
    assert!(!counts_against_rate_limit(&pkg));
}

#[test]
fn grace_setting_is_read_as_a_number() {
    assert_eq!(publish_grace_sleep(false, Some("+7")), 7);
    assert_eq!(publish_grace_sleep(false, Some("007")), 7);
    assert_eq!(publish_grace_sleep(false, Some("18446744073709551615")), u64::MAX);
    assert_eq!(publish_grace_sleep(false, Some("18446744073709551616")), 0);
    assert_eq!(publish_grace_sleep(false, Some("+")), 0);
    assert_eq!(publish_grace_sleep(false, Some("-1")), 0);
    assert_eq!(publish_grace_sleep(false, Some(" 5")), 0);
    assert_eq!(publish_grace_sleep(false, Some("5 ")), 0);
    assert_eq!(publish_grace_sleep(false, Some("1_000")), 0);
    assert_eq!(publish_grace_sleep(false, Some("٣")), 0);
}
