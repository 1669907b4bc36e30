use cargo_upgrade::manifest::{
    remove, DepKind, DepTable, Dependency, Feature, Manifest, RemoveError, RemoveOptions, Source,
    Table,
};

fn dep(key: &str, package: Option<&str>) -> Dependency {
    Dependency {
        toml_key: key.to_string(),
        package: package.map(|p| p.to_string()),
        source: Source::Registry { registry: None },
        version: Some("1.0".to_string()),
        optional: false,
    }
}

fn strings(items: &[&str]) -> Vec<String> {
    items.iter().map(|s| s.to_string()).collect()
}

fn sample() -> Manifest {
    Manifest {
        tables: vec![
            Table { path: strings(&["dependencies"]), deps: vec![dep("foo", None), dep("bar", None), dep("alias", Some("baz"))] },
            Table { path: strings(&["dev-dependencies"]), deps: vec![dep("bar", None)] },
        ],
        features: vec![
            Feature { name: "foo".to_string(), activations: strings(&["foo/feat", "dep:foo", "bar/x", "foo?/weak", "foobar"]) },
            Feature { name: "only".to_string(), activations: strings(&["foo"]) },
        ],
    }
}

fn options(names: &[&str], kind: DepKind) -> RemoveOptions {
    RemoveOptions { dependencies: strings(names), section: DepTable { kind, target: None }, dry_run: false }
}

#[test]
fn table_paths() {
    let t = DepTable { kind: DepKind::Development, target: Some("cfg(unix)".to_string()) };
    assert_eq!(t.to_table(), strings(&["target", "cfg(unix)", "dev-dependencies"]));
    assert_eq!(t.kind_table_name(), "dev-dependencies");
    let t = DepTable { kind: DepKind::Build, target: None };
    assert_eq!(t.to_table(), strings(&["build-dependencies"]));
}

#[test]
fn removing_drops_feature_activations() {
    let mut m = sample();
    assert_eq!(remove(&mut m, &options(&["foo"], DepKind::Normal)), Ok(()));
    assert_eq!(m.tables[0].deps.len(), 2);
    assert_eq!(m.features[0].activations, strings(&["bar/x", "foobar"]));
    assert_eq!(m.features[1].name, "only");
    assert!(m.features[1].activations.is_empty());
}

#[test]
fn still_declared_keeps_activations() {
    let mut m = sample();
    assert_eq!(remove(&mut m, &options(&["bar"], DepKind::Normal)), Ok(()));
    assert_eq!(m.features[0].activations, strings(&["foo/feat", "dep:foo", "bar/x", "foo?/weak", "foobar"]));
}

#[test]
fn unreferenced_removal_leaves_features() {
    let mut m = sample();
    assert_eq!(remove(&mut m, &options(&["alias"], DepKind::Normal)), Ok(()));
    assert_eq!(m.features[0].activations, strings(&["foo/feat", "dep:foo", "bar/x", "foo?/weak", "foobar"]));
    assert_eq!(m.features[1].activations, strings(&["foo"]));
}

#[test]
fn removal_by_package_name() {
    let mut m = sample();
    assert_eq!(remove(&mut m, &options(&["baz"], DepKind::Normal)), Ok(()));
    assert_eq!(m.tables[0].deps.len(), 2);
    assert_eq!(m.tables[0].deps[1].toml_key, "bar");
}

#[test]
fn missing_dependency_fails() {
    let mut m = sample();
    assert_eq!(
        remove(&mut m, &options(&["nope"], DepKind::Normal)),
        Err(RemoveError::DependencyNotFound("nope".to_string()))
    );
    assert_eq!(m.tables[0].deps.len(), 3);
}

#[test]
fn missing_table_fails() {
    let mut m = sample();
    assert_eq!(
        remove(&mut m, &options(&["foo"], DepKind::Build)),
        Err(RemoveError::TableNotFound(strings(&["build-dependencies"])))
    );
}

#[test]
fn gc_twice_is_gc_once() {
    let mut m = sample();
    m.tables[0].deps.remove(0);
    m.gc_dep("foo");
    let once: Vec<Vec<String>> = m.features.iter().map(|f| f.activations.clone()).collect();
    m.gc_dep("foo");
    let twice: Vec<Vec<String>> = m.features.iter().map(|f| f.activations.clone()).collect();
    assert_eq!(once, twice);
}

#[test]
fn removing_nothing_changes_nothing() {
    let mut m = sample();
    assert_eq!(remove(&mut m, &options(&[], DepKind::Build)), Ok(()));
    assert_eq!(m.tables.len(), 2);
    assert_eq!(m.tables[0].deps.len(), 3);
    assert_eq!(m.features[0].activations, strings(&["foo/feat", "dep:foo", "bar/x", "foo?/weak", "foobar"]));
}

#[test]
fn removal_stops_at_first_missing_name() {
    let mut m = sample();
    assert_eq!(
        remove(&mut m, &options(&["foo", "foo", "bar"], DepKind::Normal)),
        Err(RemoveError::DependencyNotFound("foo".to_string()))
    );
    assert_eq!(m.tables[0].deps.len(), 2);
    assert_eq!(m.tables[0].deps[0].toml_key, "bar");
    assert_eq!(m.features[0].activations, strings(&["bar/x", "foobar"]));
}

#[test]
fn key_match_wins_over_renamed_package() {
    let mut m = Manifest {
        tables: vec![Table {
            path: strings(&["dependencies"]),
            deps: vec![dep("foo", Some("name")), dep("name", None)],
        }],
        features: vec![Feature { name: "x".to_string(), activations: strings(&["name/feat", "foo/y"]) }],
    };
    assert_eq!(remove(&mut m, &options(&["name"], DepKind::Normal)), Ok(()));
    assert_eq!(m.tables[0].deps.len(), 1);
    assert_eq!(m.tables[0].deps[0].toml_key, "foo");
    assert_eq!(m.features[0].activations, strings(&["foo/y"]));
}

