use ecargo::license::compute_license_map;
use ecargo::pipeline::{run_load, LoadStage};
use ecargo::project::{Metadata, PkgMeta, Project};

fn mk_meta(name: &str, license: Option<&str>) -> PkgMeta {
    PkgMeta {
        id: format!("{name} 1.0.0"),
        name: name.to_string(),
        version: "1.0.0".to_string(),
        requirements: Vec::new(),
        description: None,
        license: license.map(|l| l.to_string()),
        keywords: Vec::new(),
        authors: Vec::new(),
        homepage: None,
        repository: None,
        documentation: None,
        features: Vec::new(),
        source: None,
        manifest_dir: String::new(),
        readme_path: None,
        changelog_path: None,
    }
}

fn load(meta: Metadata) -> Project {
    let mut msgs = run_load(Ok(meta));
    match msgs.pop() {
        Some(LoadStage::Finished(p)) => p,
        _ => panic!("load did not finish"),
    }
}

fn six_packages() -> Project {
    load(Metadata {
        packages: vec![
            mk_meta("a", Some("MIT")),
            mk_meta("b", Some("Apache-2.0")),
            mk_meta("c", Some("MIT")),
            mk_meta("d", None),
            mk_meta("e", Some("Apache-2.0")),
            mk_meta("f", Some("MIT")),
        ],
        resolve: None,
        root_id: None,
    })
}

#[test]
fn grouping_by_license_with_sentinel() {
    let p = six_packages();
    let groups = compute_license_map(&p.packages);
    assert_eq!(groups.len(), 3);
    assert_eq!(groups[0].license, "MIT");
    assert_eq!(groups[0].pkgs.len(), 3);
    assert_eq!(groups[1].license, "Apache-2.0");
    assert_eq!(groups[1].pkgs.len(), 2);
    assert_eq!(groups[2].license, "<no license>");
    assert_eq!(groups[2].pkgs.len(), 1);
    // keys keep registry order within each group
    assert_eq!(groups[0].pkgs[0].idx, 0);
    assert_eq!(groups[0].pkgs[1].idx, 2);
    assert_eq!(groups[0].pkgs[2].idx, 5);
    assert_eq!(groups[2].pkgs[0].idx, 3);
}

#[test]
fn recomputation_is_idempotent() {
    let p = six_packages();
    let first = compute_license_map(&p.packages);
    let second = compute_license_map(&p.packages);
    assert_eq!(first.len(), second.len());
    for (g1, g2) in first.iter().zip(second.iter()) {
        assert_eq!(g1.license, g2.license);
        assert_eq!(g1.pkgs.len(), g2.pkgs.len());
        for (k1, k2) in g1.pkgs.iter().zip(g2.pkgs.iter()) {
            assert_eq!(k1.idx, k2.idx);
        }
    }
}

#[test]
fn license_index_is_cached_on_the_project() {
    let mut p = six_packages();
    assert!(p.license_map.is_empty());
    p.license_index();
    assert_eq!(p.license_map.len(), 3);
    // a second call leaves the cached grouping in place
    p.license_index();
    assert_eq!(p.license_map.len(), 3);
    assert_eq!(p.license_map[0].license, "MIT");
}
