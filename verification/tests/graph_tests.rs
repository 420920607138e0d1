use ecargo::matcher::resolve_requirement;
use ecargo::pipeline::{run_load, LoadStage};
use ecargo::pkg::{DepKind, Requirement};
use ecargo::project::{Metadata, PkgMeta, Project, ResolveNode};

fn mk_meta(name: &str, version: &str, requirements: Vec<Requirement>) -> PkgMeta {
    PkgMeta {
        id: format!("{name} {version}"),
        name: name.to_string(),
        version: version.to_string(),
        requirements,
        description: None,
        license: None,
        keywords: Vec::new(),
        authors: Vec::new(),
        homepage: None,
        repository: None,
        documentation: None,
        features: Vec::new(),
        source: None,
        manifest_dir: format!("/src/{name}"),
        readme_path: None,
        changelog_path: None,
    }
}

fn mk_req(name: &str, req: &str, kind: DepKind) -> Requirement {
    Requirement {
        name: name.to_string(),
        req: req.to_string(),
        kind,
        optional: false,
        target: None,
        source: None,
    }
}

/// The scenario: `root` depends normally on `left` v"1.0" and `right`
/// v"2.0"; `left` is 1.2.0 and additionally has a dev dependency on
/// `right`; `right` is 2.0.0.
fn scenario() -> Metadata {
    Metadata {
        packages: vec![
            mk_meta(
                "root",
                "0.1.0",
                vec![
                    mk_req("left", "1.0", DepKind::Normal),
                    mk_req("right", "2.0", DepKind::Normal),
                ],
            ),
            mk_meta("left", "1.2.0", vec![mk_req("right", "2", DepKind::Development)]),
            mk_meta("right", "2.0.0", vec![]),
        ],
        resolve: Some(vec![ResolveNode {
            id: "left 1.2.0".to_string(),
            features: vec!["extras".to_string()],
        }]),
        root_id: Some("root 0.1.0".to_string()),
    }
}

fn load(meta: Metadata) -> Project {
    let mut msgs = run_load(Ok(meta));
    match msgs.pop() {
        Some(LoadStage::Finished(p)) => p,
        _ => panic!("load did not finish"),
    }
}

#[test]
fn end_to_end_graph() {
    let p = load(scenario());
    let root = p.packages.get(p.root.expect("root located")).unwrap();
    assert_eq!(root.name, "root");

    // root depends on left and right, both normal, in registry order
    assert_eq!(root.dependencies.len(), 2);
    assert_eq!(root.dependencies[0].pkg_key.idx, 1);
    assert_eq!(root.dependencies[0].kind, DepKind::Normal);
    assert_eq!(root.dependencies[1].pkg_key.idx, 2);
    assert_eq!(root.dependencies[1].kind, DepKind::Normal);
    assert!(root.dependents.is_empty());

    // left is depended on by root, and depends (dev) on right
    let left = p.packages.at(1);
    assert_eq!(left.name, "left");
    assert_eq!(left.dependents.len(), 1);
    assert_eq!(left.dependents[0].pkg_key.idx, 0);
    assert_eq!(left.dependents[0].kind, DepKind::Normal);
    assert_eq!(left.dependencies.len(), 1);
    assert_eq!(left.dependencies[0].pkg_key.idx, 2);
    assert_eq!(left.dependencies[0].kind, DepKind::Development);

    // right has two dependents: root (normal) and left (dev), one entry
    // per neighbour
    let right = p.packages.at(2);
    assert_eq!(right.name, "right");
    assert!(right.dependencies.is_empty());
    assert_eq!(right.dependents.len(), 2);
    assert_eq!(right.dependents[0].pkg_key.idx, 0);
    assert_eq!(right.dependents[0].kind, DepKind::Normal);
    assert_eq!(right.dependents[1].pkg_key.idx, 1);
    assert_eq!(right.dependents[1].kind, DepKind::Development);
}

#[test]
fn resolved_features_applied() {
    let p = load(scenario());
    let left = p.packages.at(1);
    assert_eq!(left.enabled_features, vec!["extras".to_string()]);
    assert!(left.feature_enabled(&"extras".to_string()));
    assert!(!left.feature_enabled(&"missing".to_string()));
    let root = p.packages.at(0);
    assert!(root.enabled_features.is_empty());
    assert!(!root.feature_enabled(&"extras".to_string()));
}

#[test]
fn duplicate_requirements_collapse_to_first_declared() {
    // One package declares the same dependency twice, first as a dev
    // dependency and then as a normal one: a single edge survives, and
    // the first declared requirement decides its kind.
    let meta = Metadata {
        packages: vec![
            mk_meta(
                "dup",
                "0.1.0",
                vec![
                    mk_req("target", "1", DepKind::Development),
                    mk_req("target", "1", DepKind::Normal),
                ],
            ),
            mk_meta("target", "1.0.0", vec![]),
        ],
        resolve: None,
        root_id: None,
    };
    let p = load(meta);
    let dup = p.packages.at(0);
    assert_eq!(dup.dependencies.len(), 1);
    assert_eq!(dup.dependencies[0].pkg_key.idx, 1);
    assert_eq!(dup.dependencies[0].kind, DepKind::Development);
    let target = p.packages.at(1);
    assert_eq!(target.dependents.len(), 1);
    assert_eq!(target.dependents[0].pkg_key.idx, 0);
    assert_eq!(target.dependents[0].kind, DepKind::Development);
}

#[test]
fn platform_filter_is_carried_on_both_sides() {
    let meta = Metadata {
        packages: vec![
            mk_meta(
                "app",
                "0.1.0",
                vec![Requirement {
                    name: "winonly".to_string(),
                    req: "1".to_string(),
                    kind: DepKind::Normal,
                    optional: false,
                    target: Some("cfg(windows)".to_string()),
                    source: None,
                }],
            ),
            mk_meta("winonly", "1.0.0", vec![]),
        ],
        resolve: None,
        root_id: None,
    };
    let p = load(meta);
    assert_eq!(
        p.packages.at(0).dependencies[0].target.as_deref(),
        Some("cfg(windows)")
    );
    assert_eq!(
        p.packages.at(1).dependents[0].target.as_deref(),
        Some("cfg(windows)")
    );
}

#[test]
fn unresolved_requirement_yields_no_edge_but_stays_declared() {
    let meta = Metadata {
        packages: vec![
            mk_meta("alone", "0.1.0", vec![mk_req("ghostcrate", "3", DepKind::Normal)]),
            mk_meta("other", "1.0.0", vec![]),
        ],
        resolve: None,
        root_id: None,
    };
    let p = load(meta);
    let alone = p.packages.at(0);
    assert!(alone.dependencies.is_empty());
    assert_eq!(alone.requirements.len(), 1);
    assert_eq!(alone.requirements[0].name, "ghostcrate");
    assert_eq!(alone.requirements[0].req, "3");
}

#[test]
fn requirement_resolution_for_display() {
    let p = load(scenario());
    // root's first requirement resolves to left
    let root = p.packages.at(0);
    let resolved = resolve_requirement(&p.packages, &root.requirements[0]);
    assert_eq!(resolved.unwrap().idx, 1);
    // a requirement on an absent name resolves to nothing
    let ghost_req = mk_req("ghostcrate", "1", DepKind::Normal);
    assert!(resolve_requirement(&p.packages, &ghost_req).is_none());
}

#[test]
fn version_mismatch_yields_no_edge() {
    // The name resolves but the version range does not admit the
    // package's version: no edge either way.
    let meta = Metadata {
        packages: vec![
            mk_meta("app", "0.1.0", vec![mk_req("lib", "2.0", DepKind::Normal)]),
            mk_meta("lib", "1.4.0", vec![]),
        ],
        resolve: None,
        root_id: None,
    };
    let p = load(meta);
    assert!(p.packages.at(0).dependencies.is_empty());
    assert!(p.packages.at(1).dependents.is_empty());
}
