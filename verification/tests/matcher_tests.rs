use ecargo::matcher::dep_matches_pkg;
use ecargo::pkg::{DepKind, Pkg, PkgKey, Requirement};

fn mk_pkg(name: &str, version: &str) -> Pkg {
    Pkg {
        id: format!("{name} {version}"),
        name: name.to_string(),
        version: version.to_string(),
        requirements: Vec::new(),
        description: None,
        license: None,
        keywords: Vec::new(),
        authors: Vec::new(),
        homepage: None,
        repository: None,
        documentation: None,
        features: Vec::new(),
        source: None,
        manifest_dir: String::new(),
        readme_path: None,
        changelog_path: None,
        key: PkgKey { idx: 0 },
        dependents: Vec::new(),
        dependencies: Vec::new(),
        enabled_features: Vec::new(),
    }
}

fn mk_req(name: &str, req: &str) -> Requirement {
    Requirement {
        name: name.to_string(),
        req: req.to_string(),
        kind: DepKind::Normal,
        optional: false,
        target: None,
        source: None,
    }
}

#[test]
fn caret_requirement_matches_compatible_version() {
    assert!(dep_matches_pkg(&mk_req("left", "1.0"), &mk_pkg("left", "1.2.0")));
}

#[test]
fn requirement_rejects_older_major() {
    assert!(!dep_matches_pkg(&mk_req("left", "2.0"), &mk_pkg("left", "1.2.0")));
}

#[test]
fn exact_requirement_matches_equal_version() {
    assert!(dep_matches_pkg(&mk_req("serde", "=1.0.200"), &mk_pkg("serde", "1.0.200")));
    assert!(!dep_matches_pkg(&mk_req("serde", "=1.0.200"), &mk_pkg("serde", "1.0.201")));
}

#[test]
fn name_mismatch_is_false_regardless_of_version() {
    assert!(!dep_matches_pkg(&mk_req("left", "1.0"), &mk_pkg("right", "1.2.0")));
    assert!(!dep_matches_pkg(&mk_req("left", "*"), &mk_pkg("right", "1.2.0")));
}

#[test]
fn malformed_requirement_matches_nothing() {
    assert!(!dep_matches_pkg(&mk_req("left", ">a.b"), &mk_pkg("left", "1.2.0")));
}

#[test]
fn malformed_version_matches_nothing() {
    assert!(!dep_matches_pkg(&mk_req("left", "*"), &mk_pkg("left", "not-a-version")));
}

#[test]
fn wildcard_matches_any_release() {
    assert!(dep_matches_pkg(&mk_req("left", "*"), &mk_pkg("left", "0.3.7")));
}

#[test]
fn prerelease_is_not_matched_by_plain_range() {
    assert!(!dep_matches_pkg(&mk_req("left", "1.0"), &mk_pkg("left", "1.2.0-alpha.1")));
}
