use cargo_release::config::Config;
use cargo_release::error::ValidationError;
use cargo_release::ops::cargo::{dependency_order, sort_workspace, Features};
use cargo_release::ops::path::FilePath;
use cargo_release::ops::version::SemVer;
use cargo_release::steps::plan::{
    find_dependents, find_prior_tag, initial_tag, load, PackageInput, PackageRelease, PriorTag,
    Version,
};
use cargo_release::steps::workspace::{
    is_bin, package_content, package_root, DependencyDecl, PackageMeta, ResolveNode, Workspace,
};

fn path(text: &str) -> FilePath {
    FilePath { components: text.split('/').map(|c| c.to_string()).collect() }
}

fn texts(paths: &[FilePath]) -> Vec<String> {
    paths.iter().map(|p| p.components.join("/")).collect()
}

fn meta(name: &str, kinds: &[&str], deps: &[(&str, &str)]) -> PackageMeta {
    PackageMeta {
        id: format!("id:{name}"),
        name: name.to_owned(),
        version: SemVer::new(0, 3, 1, "", ""),
        manifest_path: path(&format!("ws/{name}/Cargo.toml")),
        targets: vec![kinds.iter().map(|k| k.to_string()).collect()],
        dependencies: deps
            .iter()
            .map(|(n, r)| DependencyDecl { name: n.to_string(), req: r.to_string() })
            .collect(),
    }
}

fn node(name: &str, deps: &[&str]) -> ResolveNode {
    ResolveNode {
        id: format!("id:{name}"),
        dependencies: deps.iter().map(|d| format!("id:{d}")).collect(),
    }
}

fn sample() -> Workspace {
    Workspace {
        workspace_root: path("ws"),
        packages: vec![
            meta("app", &["bin"], &[("core", "^0.3"), ("util", "^0.3"), ("serde", "1")]),
            meta("core", &["lib"], &[("serde", "1")]),
            meta("serde", &["lib"], &[("core", "9")]),
            meta("util", &["lib", "bin"], &[("core", "=0.3.1")]),
        ],
        workspace_members: vec!["id:app".to_owned(), "id:util".to_owned(), "id:core".to_owned()],
        resolve: vec![
            node("app", &["core", "util", "serde"]),
            node("core", &["serde"]),
            node("serde", &[]),
            node("util", &["core"]),
        ],
    }
}

fn input(name: &str, listed: &[&str]) -> PackageInput {
    PackageInput {
        id: format!("id:{name}"),
        config: Config::new(),
        listed: listed.iter().map(|p| path(p)).collect(),
        prior_tag: None,
    }
}

#[test]
fn dependents_are_workspace_members_that_depend_on_the_package() {
    let ws = sample();
    let found = find_dependents(&ws, &ws.packages[1]);
    assert_eq!(found.iter().map(|d| (d.pkg.name.as_str(), d.req.as_str())).collect::<Vec<_>>(), [
        ("app", "^0.3"),
        ("util", "=0.3.1")
    ]);
    assert!(find_dependents(&ws, &ws.packages[0]).is_empty());
    let on_util = find_dependents(&ws, &ws.packages[3]);
    assert_eq!(on_util.len(), 1);
    assert_eq!(on_util[0].pkg.id, "id:app");
}

#[test]
fn members_are_ordered_by_dependency() {
    let ws = sample();
    assert_eq!(sort_workspace(&ws), [2, 1, 0]);
    let mut lone = sample();
    lone.resolve.clear();
    assert_eq!(sort_workspace(&lone), [0, 1, 2]);
}

#[test]
fn dependency_order_places_every_node_once() {
    assert_eq!(dependency_order(&vec![vec![1, 2], vec![2], vec![]]), [2, 1, 0]);
    assert_eq!(dependency_order(&vec![vec![], vec![0], vec![1, 0]]), [0, 1, 2]);
    assert_eq!(dependency_order(&vec![vec![3], vec![], vec![1], vec![2]]), [1, 2, 3, 0]);
    assert_eq!(dependency_order(&Vec::new()), Vec::<usize>::new());
    assert_eq!(dependency_order(&vec![vec![0, 9]]), [0]);
    let mut circle = dependency_order(&vec![vec![1], vec![2], vec![0], vec![]]);
    circle.sort();
    assert_eq!(circle, [0, 1, 2, 3]);
}

#[test]
fn content_of_a_library_drops_lock_files_and_tests() {
    let listed = vec![
        path("ws/core/Cargo.toml"),
        path("ws/core/Cargo.lock"),
        path("ws/core/src/lib.rs"),
        path("ws/core/tests/it.rs"),
        path("ws/core/src/tests/unit.rs"),
        path("ws/core/tests"),
    ];
    let content = package_content(listed, false, &path("ws"), &path("ws/core"));
    assert_eq!(texts(&content), ["ws/core/Cargo.toml", "ws/core/src/lib.rs", "ws/core/src/tests/unit.rs"]);
}

#[test]
fn content_of_a_binary_takes_the_workspace_lock_file() {
    let listed = vec![path("ws/app/Cargo.lock"), path("ws/app/src/main.rs"), path("ws/app/tests/cli.rs")];
    let content = package_content(listed, true, &path("ws"), &path("ws/app"));
    assert_eq!(texts(&content), ["ws/app/Cargo.lock", "ws/app/src/main.rs", "ws/Cargo.lock"]);
    let listed = vec![path("ws/Cargo.lock"), path("ws/app/src/main.rs")];
    let content = package_content(listed, true, &path("ws"), &path("ws/app"));
    assert_eq!(texts(&content), ["ws/Cargo.lock", "ws/app/src/main.rs"]);
}

#[test]
fn package_root_is_the_directory_of_the_manifest() {
    assert_eq!(package_root(&path("ws/core/Cargo.toml")).components, ["ws", "core"]);
    assert_eq!(package_root(&FilePath::new()).components, ["."]);
    assert!(package_root(&path("Cargo.toml")).components.is_empty());
}

#[test]
fn binary_targets_are_recognised() {
    assert!(is_bin(&vec![vec!["lib".to_owned()], vec!["example".to_owned(), "bin".to_owned()]]));
    assert!(!is_bin(&vec![vec!["lib".to_owned()], vec!["binary".to_owned()]]));
    assert!(!is_bin(&Vec::new()));
}

#[test]
fn package_is_loaded_with_nothing_planned() {
    let ws = sample();
    let mut config = Config::new();
    config.owners = vec!["me".to_owned()];
    config.enable_features = vec!["extra".to_owned()];
    let listed = vec![path("ws/app/src/main.rs"), path("ws/app/tests/cli.rs")];
    let pkg = PackageRelease::load(config, &path("ws/app"), &ws, &ws.packages[0], listed, Some("app-v0.3.0".to_owned()));
    assert_eq!(pkg.meta.name, "app");
    assert_eq!(pkg.manifest_path.components, ["ws", "app", "Cargo.toml"]);
    assert_eq!(pkg.package_root.components, ["ws", "app"]);
    assert!(pkg.is_root);
    assert!(pkg.bin);
    assert_eq!(texts(&pkg.package_content), ["ws/app/src/main.rs", "ws/Cargo.lock"]);
    assert!(pkg.dependents.is_empty());
    assert!(matches!(&pkg.features, Features::Selective(list) if list == &["extra".to_owned()]));
    assert_eq!(pkg.initial_version.full_version_string, "0.3.1");
    assert_eq!(pkg.prior_tag.as_deref(), Some("app-v0.3.0"));
    assert!(pkg.planned_version.is_none() && pkg.planned_tag.is_none());
    assert!(pkg.ensure_owners);

    let mut config = Config::new();
    config.all_features = Some(true);
    config.publish = Some(false);
    config.owners = vec!["me".to_owned()];
    let pkg = PackageRelease::load(config, &path("ws"), &ws, &ws.packages[1], Vec::new(), None);
    assert!(!pkg.is_root && !pkg.bin && !pkg.ensure_owners);
    assert!(matches!(pkg.features, Features::All));
    assert_eq!(pkg.dependents.len(), 2);
}

#[test]
fn workspace_is_loaded_in_dependency_order() {
    let ws = sample();
    let inputs = vec![input("util", &[]), input("app", &["ws/app/src/main.rs"]), input("core", &[])];
    let pkgs = load(&path("ws"), &ws, inputs).unwrap();
    assert_eq!(pkgs.keys().collect::<Vec<_>>(), ["id:core", "id:util", "id:app"]);
    assert_eq!(texts(&pkgs["id:app"].package_content), ["ws/app/src/main.rs", "ws/Cargo.lock"]);
    assert_eq!(pkgs["id:core"].dependents.len(), 2);
}

#[test]
fn loading_fails_for_members_without_metadata_or_input() {
    let ws = sample();
    let fault = load(&path("ws"), &ws, vec![input("util", &[]), input("app", &[])]).unwrap_err();
    assert!(matches!(&fault, ValidationError::MissingPackage { id } if id == "id:core"));
    assert_eq!(fault.message(), "nothing is known of workspace member `id:core`");
    let mut ws = sample();
    ws.workspace_members.push("id:ghost".to_owned());
    let inputs = vec![input("util", &[]), input("app", &[]), input("core", &[]), input("ghost", &[])];
    assert!(matches!(load(&path("ws"), &ws, inputs), Err(ValidationError::MissingPackage { id }) if id == "id:ghost"));
    let mut ws = sample();
    ws.workspace_members.push("id:core".to_owned());
    let inputs = vec![input("util", &[]), input("app", &[]), input("core", &[]), input("core", &[])];
    assert!(matches!(load(&path("ws"), &ws, inputs), Err(ValidationError::RepeatedPackage { id }) if id == "id:core"));
}

#[test]
fn prior_tag_is_the_initial_tag_where_it_exists() {
    let config = Config::new();
    let version = Version::new(SemVer::new(0, 3, 1, "", ""));
    let tag = initial_tag(&config, false, "core", &version);
    assert_eq!(tag, "core-v0.3.1");
    assert_eq!(initial_tag(&config, true, "core", &version), "v0.3.1");
    assert!(matches!(find_prior_tag(&config, false, "core", tag, true), PriorTag::Found(t) if t == "core-v0.3.1"));
}

#[test]
fn prior_tag_is_searched_by_pattern_otherwise() {
    let config = Config::new();
    match find_prior_tag(&config, false, "core", "core-v0.3.1".to_owned(), false) {
        PriorTag::Search { glob, pattern } => {
            assert_eq!(glob, "core-v*");
            assert_eq!(pattern.glob(), "core-v*");
            let matcher = pattern.compile_matcher();
            assert!(matcher.is_match("core-v0.2.0"));
            assert!(!matcher.is_match("util-v0.2.0"));
        }
        other => panic!("unexpected outcome {other:?}"),
    }
    let mut odd = Config::new();
    odd.tag_name = Some("[{{version}}".to_owned());
    assert!(matches!(find_prior_tag(&odd, false, "core", "x".to_owned(), false), PriorTag::Absent));
}
