use cargo_release::ops::index::{CratesIoIndex, Fetched, IndexKrate, Lookup, RemoteIndex};

fn krate(versions: &[&str]) -> IndexKrate {
    IndexKrate { versions: versions.iter().map(|v| v.to_string()).collect() }
}

fn known<T: std::fmt::Debug>(lookup: Lookup<T>) -> T {
    match lookup {
        Lookup::Known(value) => value,
        other => panic!("a fetch was asked for: {other:?}"),
    }
}

fn etag_of<T: std::fmt::Debug>(lookup: Lookup<T>) -> String {
    match lookup {
        Lookup::Fetch { etag } => etag,
        other => panic!("no fetch was asked for: {other:?}"),
    }
}

#[test]
fn second_query_is_served_from_the_cache() {
    let mut index = CratesIoIndex::new();
    assert_eq!(etag_of(index.has_krate_version(None, "foo", "1.0.0")), "");
    let response = Fetched { etag: Some("W/\"abc\"".to_owned()), entry: Some(krate(&["0.9.0", "1.0.0"])) };
    let entry = index.fetched("foo", response);
    assert_eq!(entry.unwrap().versions, ["0.9.0", "1.0.0"]);
    assert_eq!(known(index.has_krate_version(None, "foo", "1.0.0")), Some(true));
    assert_eq!(known(index.has_krate_version(None, "foo", "2.0.0")), Some(false));
    assert!(known(index.has_krate(None, "foo")));
    assert!(known(index.krate(None, "foo")).is_some());
}

#[test]
fn invalidation_asks_for_a_new_fetch_with_the_validator() {
    let mut index = CratesIoIndex::new();
    index.fetched("foo", Fetched { etag: Some("v1".to_owned()), entry: Some(krate(&["1.0.0"])) });
    index.fetched("bar", Fetched { etag: None, entry: None });
    index.update_krate(None, "foo");
    assert_eq!(etag_of(index.has_krate(None, "foo")), "v1");
    assert!(!known(index.has_krate(None, "bar")));
    assert_eq!(known(index.has_krate_version(None, "bar", "1.0.0")), None);
    index.fetched("foo", Fetched { etag: Some("v2".to_owned()), entry: Some(krate(&["1.0.0", "1.1.0"])) });
    assert_eq!(known(index.has_krate_version(None, "foo", "1.1.0")), Some(true));
    index.update_krate(None, "foo");
    assert_eq!(etag_of(index.krate(None, "foo")), "v2");
}

#[test]
fn other_registries_are_never_asked() {
    let mut index = CratesIoIndex::new();
    assert!(!known(index.has_krate(Some("private"), "foo")));
    assert_eq!(known(index.has_krate_version(Some("private"), "foo", "1.0.0")), None);
    index.fetched("foo", Fetched { etag: None, entry: Some(krate(&["1.0.0"])) });
    assert_eq!(known(index.has_krate_version(Some("private"), "foo", "1.0.0")), None);
    index.update_krate(Some("private"), "foo");
    assert_eq!(known(index.has_krate_version(None, "foo", "1.0.0")), Some(true));
}

#[test]
fn validators_are_kept_per_name() {
    let mut remote = RemoteIndex::open();
    assert_eq!(remote.etag("foo"), "");
    let entry = remote.krate("foo", Fetched { etag: Some("a".to_owned()), entry: Some(krate(&["1.0.0"])) });
    assert_eq!(entry.unwrap().versions, ["1.0.0"]);
    remote.krate("bar", Fetched { etag: Some("b".to_owned()), entry: None });
    assert_eq!(remote.etag("foo"), "a");
    assert_eq!(remote.etag("bar"), "b");
    remote.krate("foo", Fetched { etag: Some("c".to_owned()), entry: None });
    remote.krate("bar", Fetched { etag: None, entry: None });
    assert_eq!(remote.etag("foo"), "c");
    assert_eq!(remote.etag("bar"), "b");
    assert_eq!(remote.etags.len(), 2);
    assert_eq!(remote.etag("baz"), "");
}
