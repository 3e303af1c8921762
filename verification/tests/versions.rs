use cargo_release::config::MetadataPolicy;
use cargo_release::ops::text::decimal_text;
use cargo_release::ops::version::SemVer;
use cargo_release::steps::plan::{resolve_metadata, Version};
use cargo_release::steps::{step, BumpFault, BumpLevel, TargetVersion};

#[test]
fn decimal_text_writes_numbers() {
    assert_eq!(decimal_text(0), "0");
    assert_eq!(decimal_text(7), "7");
    assert_eq!(decimal_text(10), "10");
    assert_eq!(decimal_text(1203), "1203");
    assert_eq!(decimal_text(u64::MAX), "18446744073709551615");
}

#[test]
fn version_text_matches_semver() {
    for text in ["1.2.3", "0.0.0", "1.0.0-alpha.1", "1.0.0+build.5", "10.20.30-rc.1+sha.abc"] {
        let parsed = semver::Version::parse(text).unwrap();
        let ours = SemVer::new(
            parsed.major,
            parsed.minor,
            parsed.patch,
            parsed.pre.as_str(),
            parsed.build.as_str(),
        );
        assert_eq!(ours.render(), parsed.to_string());
        assert_eq!(ours.render(), text);
    }
}

#[test]
fn version_keeps_full_and_bare_forms() {
    let version = Version::new(SemVer::new(1, 2, 3, "beta.2", "build.7"));
    assert_eq!(version.full_version_string, "1.2.3-beta.2+build.7");
    assert_eq!(version.bare_version_string, "1.2.3-beta.2");
    assert_eq!(version.bare_version.build, "");
    assert_eq!(version.bare_version.pre, "beta.2");
    assert!(version.is_prerelease());
    assert!(!Version::new(SemVer::new(1, 2, 3, "", "x")).is_prerelease());
}

#[test]
fn precedence_follows_semver() {
    let texts = [
        "1.0.0-alpha",
        "1.0.0-alpha.1",
        "1.0.0-alpha.beta",
        "1.0.0-beta",
        "1.0.0-beta.2",
        "1.0.0-beta.11",
        "1.0.0-rc.1",
        "1.0.0",
        "1.0.0+1",
        "1.0.0+2",
        "1.0.0+b",
        "1.0.1",
        "1.1.0",
        "2.0.0",
    ];
    for (i, a) in texts.iter().enumerate() {
        for (j, b) in texts.iter().enumerate() {
            let pa = semver::Version::parse(a).unwrap();
            let pb = semver::Version::parse(b).unwrap();
            let va = SemVer::new(pa.major, pa.minor, pa.patch, pa.pre.as_str(), pa.build.as_str());
            let vb = SemVer::new(pb.major, pb.minor, pb.patch, pb.pre.as_str(), pb.build.as_str());
            assert_eq!(va.precedes(&vb), i < j, "{a} against {b}");
            assert_eq!(va.precedes(&vb), pa < pb);
        }
    }
}

#[test]
fn build_metadata_breaks_ties() {
    let a = SemVer::new(1, 0, 0, "", "a");
    let b = SemVer::new(1, 0, 0, "", "b");
    assert!(a.precedes(&b));
    assert!(!b.precedes(&a));
    assert!(!a.precedes(&a));
    assert!(a.bare_equals(&b));
    assert!(!a.equals(&b));
    let later = SemVer::new(1, 0, 1, "", "");
    assert!(b.precedes(&later));
    assert!(!later.precedes(&a));
}

#[test]
fn precedence_of_a_refused_tag_is_never_lower() {
    let odd = SemVer::new(1, 0, 0, "not valid", "");
    let fine = SemVer::new(1, 0, 0, "alpha", "");
    assert!(!odd.precedes(&fine));
    assert!(!fine.precedes(&odd));
}

#[test]
fn bump_levels_step_up() {
    let current = SemVer::new(1, 2, 3, "", "");
    assert_eq!(BumpLevel::Major.bump_version(&current).unwrap().render(), "2.0.0");
    assert_eq!(BumpLevel::Minor.bump_version(&current).unwrap().render(), "1.3.0");
    assert_eq!(BumpLevel::Patch.bump_version(&current).unwrap().render(), "1.2.4");
    assert_eq!(BumpLevel::Release.bump_version(&current).unwrap().render(), "1.2.3");
    let pre = SemVer::new(1, 2, 3, "rc.1", "");
    assert_eq!(BumpLevel::Patch.bump_version(&pre).unwrap().render(), "1.2.3");
    assert_eq!(BumpLevel::Release.bump_version(&pre).unwrap().render(), "1.2.3");
    assert_eq!(BumpLevel::Minor.bump_version(&pre).unwrap().render(), "1.3.0");
}

#[test]
fn bump_levels_stop_at_the_greatest_number() {
    assert!(BumpLevel::Major.bump_version(&SemVer::new(u64::MAX, 0, 0, "", "")).is_none());
    assert!(BumpLevel::Minor.bump_version(&SemVer::new(0, u64::MAX, 0, "", "")).is_none());
    assert!(BumpLevel::Patch.bump_version(&SemVer::new(0, 0, u64::MAX, "", "")).is_none());
    assert!(BumpLevel::Patch.bump_version(&SemVer::new(0, 0, u64::MAX, "rc.1", "")).is_some());
}

#[test]
fn relative_target_plans_the_next_version() {
    let current = SemVer::new(1, 2, 3, "", "");
    let planned = TargetVersion::Relative(BumpLevel::Minor).bump(&current, None).unwrap().unwrap();
    assert_eq!(planned.full_version_string, "1.3.0");
    let planned =
        TargetVersion::Relative(BumpLevel::Minor).bump(&current, Some("b1")).unwrap().unwrap();
    assert_eq!(planned.full_version_string, "1.3.0+b1");
    assert_eq!(planned.bare_version_string, "1.3.0");
}

#[test]
fn relative_target_that_leads_nowhere_plans_nothing() {
    let current = SemVer::new(1, 2, 3, "", "");
    assert!(TargetVersion::Relative(BumpLevel::Release).bump(&current, None).unwrap().is_none());
}

#[test]
fn relative_target_reports_faults() {
    let top = SemVer::new(u64::MAX, 0, 0, "", "");
    assert_eq!(
        TargetVersion::Relative(BumpLevel::Major).bump(&top, None).unwrap_err(),
        BumpFault::Exhausted
    );
    let current = SemVer::new(1, 2, 3, "", "");
    assert_eq!(
        TargetVersion::Relative(BumpLevel::Major).bump(&current, Some("not valid")).unwrap_err(),
        BumpFault::Refused
    );
}

#[test]
fn absolute_target_takes_metadata_where_it_has_none() {
    let current = SemVer::new(1, 2, 3, "", "old");
    let target = TargetVersion::Absolute(SemVer::new(2, 0, 0, "", ""));
    assert_eq!(target.bump(&current, None).unwrap().unwrap().full_version_string, "2.0.0+old");
    assert_eq!(target.bump(&current, Some("new")).unwrap().unwrap().full_version_string, "2.0.0+new");
    let own = TargetVersion::Absolute(SemVer::new(2, 0, 0, "", "own"));
    assert_eq!(own.bump(&current, Some("new")).unwrap().unwrap().full_version_string, "2.0.0+own");
    assert_eq!(target.bump(&current, Some("a b")).unwrap_err(), BumpFault::Refused);
}

#[test]
fn absolute_target_at_the_current_bare_version_plans_nothing() {
    let current = SemVer::new(1, 2, 3, "", "old");
    let target = TargetVersion::Absolute(SemVer::new(1, 2, 3, "", "other"));
    assert!(target.bump(&current, None).unwrap().is_none());
}

#[test]
fn metadata_policy_decides_what_is_carried() {
    assert_eq!(resolve_metadata(MetadataPolicy::Optional, "cur", None), Some(None));
    assert_eq!(resolve_metadata(MetadataPolicy::Optional, "cur", Some("x")), Some(Some("x")));
    assert_eq!(resolve_metadata(MetadataPolicy::Required, "cur", None), None);
    assert_eq!(resolve_metadata(MetadataPolicy::Required, "cur", Some("x")), Some(Some("x")));
    assert_eq!(resolve_metadata(MetadataPolicy::Ignore, "cur", Some("x")), Some(None));
    assert_eq!(resolve_metadata(MetadataPolicy::Ignore, "cur", None), Some(None));
    assert_eq!(resolve_metadata(MetadataPolicy::Persistent, "cur", None), Some(Some("cur")));
    assert_eq!(resolve_metadata(MetadataPolicy::Persistent, "cur", Some("x")), Some(Some("x")));
    assert_eq!(resolve_metadata(MetadataPolicy::Persistent, "", None), Some(None));
}

#[test]
fn tags_and_metadata_go_one_step_on() {
    assert_eq!(step("").unwrap(), "1");
    assert_eq!(step("1").unwrap(), "2");
    assert_eq!(step("alpha").unwrap(), "alpha.1");
    assert_eq!(step("alpha.1").unwrap(), "alpha.2");
    assert_eq!(step("rc.9").unwrap(), "rc.10");
    assert_eq!(step("a.b.7").unwrap(), "a.b.8");
    assert_eq!(step("a.7.b").unwrap(), "a.7.b.1");
    assert_eq!(step("x.").unwrap(), "x..1");
    assert!(step("18446744073709551615").is_none());
    assert!(step("alpha.18446744073709551615").is_none());
    assert_eq!(step("alpha.18446744073709551616").unwrap(), "alpha.18446744073709551616.1");
}

#[test]
fn pre_release_and_build_levels_step_up() {
    let release = SemVer::new(1, 2, 3, "", "b1");
    assert_eq!(BumpLevel::Prerelease.bump_version(&release).unwrap().render(), "1.2.4-1");
    assert_eq!(BumpLevel::Build.bump_version(&release).unwrap().render(), "1.2.3+b1.1");
    let pre = SemVer::new(1, 2, 3, "alpha.1", "5");
    assert_eq!(BumpLevel::Prerelease.bump_version(&pre).unwrap().render(), "1.2.3-alpha.2");
    assert_eq!(BumpLevel::Build.bump_version(&pre).unwrap().render(), "1.2.3-alpha.1+6");
    assert!(BumpLevel::Prerelease.bump_version(&SemVer::new(1, 2, u64::MAX, "", "")).is_none());
    assert!(BumpLevel::Prerelease.bump_version(&SemVer::new(1, 2, u64::MAX, "rc", "")).is_some());
    let planned =
        TargetVersion::Relative(BumpLevel::Prerelease).bump(&release, Some("m")).unwrap().unwrap();
    assert_eq!(planned.full_version_string, "1.2.4-1+m");
    assert_eq!(planned.bare_version_string, "1.2.4-1");
}
