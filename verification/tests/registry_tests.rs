use ecargo::pkg::{Pkg, PkgKey};
use ecargo::project::{find_root, Metadata, PkgMeta};
use ecargo::project::collect_packages;
use ecargo::registry::Registry;

fn mk_meta(name: &str, version: &str) -> PkgMeta {
    PkgMeta {
        id: format!("{name} {version}"),
        name: name.to_string(),
        version: version.to_string(),
        requirements: Vec::new(),
        description: Some(format!("the {name} package")),
        license: None,
        keywords: Vec::new(),
        authors: Vec::new(),
        homepage: None,
        repository: None,
        documentation: None,
        features: Vec::new(),
        source: None,
        manifest_dir: format!("/src/{name}"),
        readme_path: Some(format!("/src/{name}/README.md")),
        changelog_path: None,
    }
}

fn mk_pkg(name: &str, version: &str) -> Pkg {
    Pkg {
        id: format!("{name} {version}"),
        name: name.to_string(),
        version: version.to_string(),
        requirements: Vec::new(),
        description: None,
        license: None,
        keywords: Vec::new(),
        authors: Vec::new(),
        homepage: None,
        repository: None,
        documentation: None,
        features: Vec::new(),
        source: None,
        manifest_dir: String::new(),
        readme_path: None,
        changelog_path: None,
        key: PkgKey { idx: 0 },
        dependents: Vec::new(),
        dependencies: Vec::new(),
        enabled_features: Vec::new(),
    }
}

#[test]
fn insert_issues_sequential_keys_and_get_finds_them() {
    let mut reg = Registry::new();
    let k0 = reg.insert(mk_pkg("first", "0.1.0"));
    let k1 = reg.insert(mk_pkg("second", "0.2.0"));
    assert_eq!(k0.idx, 0);
    assert_eq!(k1.idx, 1);
    assert_eq!(reg.len(), 2);
    assert_eq!(reg.get(k0).unwrap().name, "first");
    assert_eq!(reg.get(k1).unwrap().name, "second");
    // the stored package carries the issued key
    assert_eq!(reg.get(k1).unwrap().key.idx, 1);
}

#[test]
fn get_with_unknown_key_yields_nothing() {
    let mut reg = Registry::new();
    reg.insert(mk_pkg("only", "0.1.0"));
    assert!(reg.get(PkgKey { idx: 7 }).is_none());
}

#[test]
fn collect_preserves_report_order_and_data() {
    let reg = collect_packages(vec![mk_meta("alpha", "1.0.0"), mk_meta("beta", "2.0.0")]);
    assert_eq!(reg.len(), 2);
    let alpha = reg.at(0);
    assert_eq!(alpha.name, "alpha");
    assert_eq!(alpha.version, "1.0.0");
    assert_eq!(alpha.description.as_deref(), Some("the alpha package"));
    assert_eq!(alpha.manifest_dir, "/src/alpha");
    assert_eq!(alpha.readme_path.as_deref(), Some("/src/alpha/README.md"));
    assert!(alpha.changelog_path.is_none());
    assert!(alpha.dependencies.is_empty());
    assert!(alpha.dependents.is_empty());
    assert!(alpha.enabled_features.is_empty());
    assert_eq!(reg.at(1).name, "beta");
    assert_eq!(reg.at(1).key.idx, 1);
}

#[test]
fn root_is_located_by_identity() {
    let reg = collect_packages(vec![mk_meta("alpha", "1.0.0"), mk_meta("beta", "2.0.0")]);
    let hint = Some("beta 2.0.0".to_string());
    let root = find_root(&reg, &hint);
    assert_eq!(root.unwrap().idx, 1);
}

#[test]
fn missing_root_identity_yields_none() {
    let reg = collect_packages(vec![mk_meta("alpha", "1.0.0")]);
    let hint = Some("gamma 3.0.0".to_string());
    assert!(find_root(&reg, &hint).is_none());
}

#[test]
fn virtual_workspace_has_no_root() {
    let reg = collect_packages(vec![mk_meta("alpha", "1.0.0")]);
    assert!(find_root(&reg, &None).is_none());
}

#[test]
fn empty_registry_never_locates_a_root() {
    let reg = Registry::new();
    let hint = Some("anything 1.0.0".to_string());
    assert!(find_root(&reg, &hint).is_none());
}

#[test]
fn metadata_struct_carries_the_report() {
    let meta = Metadata {
        packages: vec![mk_meta("alpha", "1.0.0")],
        resolve: None,
        root_id: Some("alpha 1.0.0".to_string()),
    };
    assert_eq!(meta.packages.len(), 1);
    assert_eq!(meta.root_id.as_deref(), Some("alpha 1.0.0"));
}
