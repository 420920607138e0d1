//! The loaded project: registry population, feature resolution, root
//! location, and the atomic build that ties them together.
//!
//! A project is built once per load, from the plain-value output of the
//! external metadata collaborator, and is immutable afterwards but for the
//! license index cache.

use vstd::prelude::*;
use crate::graph::{
    dents_of, deps_of, gen_dep_graph_info, graph_inputs_eq, has_match, lemma_adjacency_deduplicated,
    lemma_dep_link_mirrored, lemma_graph_congruence, link_for, mirror_link_for,
};
use crate::license::{compute_license_map, license_groups_of, LicenseGroup};
use crate::pkg::{same_pkg_data, DepLink, FeatureDecl, Pkg, PkgKey, Requirement};
use crate::registry::{with_enabled_features, with_key, Registry};

verus! {

/// One package as the metadata collaborator reports it: identity, declared
/// metadata and requirements, and what the caller found next to the
/// manifest.
pub struct PkgMeta {
    pub id: String,
    pub name: String,
    pub version: String,
    pub requirements: Vec<Requirement>,
    pub description: Option<String>,
    pub license: Option<String>,
    pub keywords: Vec<String>,
    pub authors: Vec<String>,
    pub homepage: Option<String>,
    pub repository: Option<String>,
    pub documentation: Option<String>,
    pub features: Vec<FeatureDecl>,
    pub source: Option<String>,
    pub manifest_dir: String,
    pub readme_path: Option<String>,
    pub changelog_path: Option<String>,
}

/// One entry of the resolver output: a package identity and the features
/// actually enabled for it.
pub struct ResolveNode {
    pub id: String,
    pub features: Vec<String>,
}

/// The whole output of the metadata collaborator, as plain values: the
/// resolved package set, the optional per-package feature resolution, and
/// the identity of the root package when the project has one.
pub struct Metadata {
    pub packages: Vec<PkgMeta>,
    pub resolve: Option<Vec<ResolveNode>>,
    pub root_id: Option<String>,
}

/// The loaded universe: every package with its derived graph, the root
/// package if one was determined, and the license index, which stays empty
/// until first requested and is then cached.
pub struct Project {
    pub packages: Registry,
    pub root: Option<PkgKey>,
    pub license_map: Vec<LicenseGroup>,
}

/// Package `p`, stored at position `i`, carries exactly the data of `m`
/// with empty derived lists.
pub open spec fn pkg_from_meta(p: Pkg, m: PkgMeta, i: int) -> bool {
    &&& p.id == m.id
    &&& p.name == m.name
    &&& p.version == m.version
    &&& p.requirements == m.requirements
    &&& p.description == m.description
    &&& p.license == m.license
    &&& p.keywords == m.keywords
    &&& p.authors == m.authors
    &&& p.homepage == m.homepage
    &&& p.repository == m.repository
    &&& p.documentation == m.documentation
    &&& p.features == m.features
    &&& p.source == m.source
    &&& p.manifest_dir == m.manifest_dir
    &&& p.readme_path == m.readme_path
    &&& p.changelog_path == m.changelog_path
    &&& p.key.idx == i
    &&& p.dependents@ == Seq::<DepLink>::empty()
    &&& p.dependencies@ == Seq::<DepLink>::empty()
    &&& p.enabled_features@ == Seq::<String>::empty()
}

/// Populates a fresh registry from the reported packages, in report
/// order; every derived field starts empty.
pub fn collect_packages(metas: Vec<PkgMeta>) -> (reg: Registry)
    ensures
        reg.wf(),
        reg@.len() == metas@.len(),
        forall|i: int| 0 <= i < metas@.len() ==> pkg_from_meta(#[trigger] reg@[i], metas@[i], i),
{
    let ghost orig = metas@;
    let mut rest = metas;
    let total = rest.len();
    let mut reg = Registry::new();
    while rest.len() > 0
        invariant
            reg.wf(),
            total == orig.len(),
            reg@.len() + rest@.len() == orig.len(),
            rest@ == orig.skip(reg@.len() as int),
            forall|i: int| 0 <= i < reg@.len() ==> pkg_from_meta(#[trigger] reg@[i], orig[i], i),
        decreases rest@.len(),
    {
        let m = rest.remove(0);
        assert(m == orig[reg@.len() as int]);
        let pkg = Pkg {
            id: m.id,
            name: m.name,
            version: m.version,
            requirements: m.requirements,
            description: m.description,
            license: m.license,
            keywords: m.keywords,
            authors: m.authors,
            homepage: m.homepage,
            repository: m.repository,
            documentation: m.documentation,
            features: m.features,
            source: m.source,
            manifest_dir: m.manifest_dir,
            readme_path: m.readme_path,
            changelog_path: m.changelog_path,
            key: PkgKey { idx: 0 },
            dependents: Vec::new(),
            dependencies: Vec::new(),
            enabled_features: Vec::new(),
        };
        let ghost before = reg@.len();
        let k = reg.insert(pkg);
        assert(reg@[before as int] == with_key(pkg, k));
        assert(rest@ =~= orig.skip(reg@.len() as int));
    }
    assert(reg@.len() == orig.len());
    reg
}

/// The feature list the resolver reports for identity `id`: the one of
/// the latest node carrying that identity, if any.
pub open spec fn feature_lookup(nodes: Seq<ResolveNode>, id: Seq<char>) -> Option<Seq<String>>
    decreases nodes.len(),
{
    if nodes.len() == 0 {
        None
    } else if nodes.last().id@ == id {
        Some(nodes.last().features@)
    } else {
        feature_lookup(nodes.drop_last(), id)
    }
}

/// Sets each package's enabled feature set to what the resolver reports
/// for its identity; packages the resolver does not mention keep their
/// current (empty) set.  Nothing else changes.
pub fn apply_resolved_features(reg: &mut Registry, nodes: &Vec<ResolveNode>)
    ensures
        final(reg)@.len() == old(reg)@.len(),
        forall|i: int| 0 <= i < old(reg)@.len() ==> {
            &&& #[trigger] final(reg)@[i] == with_enabled_features(
                old(reg)@[i],
                final(reg)@[i].enabled_features,
            )
            &&& final(reg)@[i].enabled_features@ == (match feature_lookup(
                nodes@,
                old(reg)@[i].id@,
            ) {
                Some(f) => f,
                None => old(reg)@[i].enabled_features@,
            })
        },
{
    let n_nodes = nodes.len();
    let mut j: usize = 0;
    while j < n_nodes
        invariant
            j <= n_nodes,
            n_nodes == nodes@.len(),
            reg@.len() == old(reg)@.len(),
            forall|i: int| 0 <= i < old(reg)@.len() ==> {
                &&& #[trigger] reg@[i] == with_enabled_features(
                    old(reg)@[i],
                    reg@[i].enabled_features,
                )
                &&& reg@[i].enabled_features@ == (match feature_lookup(
                    nodes@.take(j as int),
                    old(reg)@[i].id@,
                ) {
                    Some(f) => f,
                    None => old(reg)@[i].enabled_features@,
                })
            },
        decreases n_nodes - j,
    {
        let node = &nodes[j];
        proof {
            assert(nodes@.take(j + 1).drop_last() =~= nodes@.take(j as int));
            assert(nodes@.take(j + 1).last() == nodes@[j as int]);
        }
        let m = reg.len();
        let mut i: usize = 0;
        while i < m
            invariant
                i <= m,
                j < n_nodes,
                n_nodes == nodes@.len(),
                m == reg@.len(),
                reg@.len() == old(reg)@.len(),
                nodes@.take(j + 1).drop_last() =~= nodes@.take(j as int),
                nodes@.take(j + 1).last() == nodes@[j as int],
                forall|x: int| 0 <= x < i ==> {
                    &&& #[trigger] reg@[x] == with_enabled_features(
                        old(reg)@[x],
                        reg@[x].enabled_features,
                    )
                    &&& reg@[x].enabled_features@ == (match feature_lookup(
                        nodes@.take(j + 1),
                        old(reg)@[x].id@,
                    ) {
                        Some(f) => f,
                        None => old(reg)@[x].enabled_features@,
                    })
                },
                forall|x: int| i <= x < old(reg)@.len() ==> {
                    &&& #[trigger] reg@[x] == with_enabled_features(
                        old(reg)@[x],
                        reg@[x].enabled_features,
                    )
                    &&& reg@[x].enabled_features@ == (match feature_lookup(
                        nodes@.take(j as int),
                        old(reg)@[x].id@,
                    ) {
                        Some(f) => f,
                        None => old(reg)@[x].enabled_features@,
                    })
                },
            decreases m - i,
        {
            proof {
                assert(reg@[i as int] == with_enabled_features(
                    old(reg)@[i as int],
                    reg@[i as int].enabled_features,
                ));
            }
            if reg.at(i).id == nodes[j].id {
                let feats = nodes[j].features.clone();
                proof {
                    assert(feats@ =~= nodes@[j as int].features@);
                }
                reg.set_enabled_features_at(i, feats);
            }
            i += 1;
        }
        j += 1;
        proof {
            assert(nodes@.take(j as int) == nodes@.take((j - 1) as int + 1));
        }
    }
    proof {
        assert(nodes@.take(j as int) =~= nodes@);
    }
}

/// Position of the first package at or after `i` whose identity is `id`,
/// or the registry's length when none matches.
pub open spec fn id_match_from(s: Seq<Pkg>, id: Seq<char>, i: int) -> int
    decreases s.len() - i,
{
    if i < 0 || i >= s.len() {
        s.len() as int
    } else if s[i].id@ == id {
        i
    } else {
        id_match_from(s, id, i + 1)
    }
}

/// The key `find_root` answers: the key of the first package whose
/// identity equals the hint, or nothing when there is no hint or no such
/// package.
pub open spec fn root_key_spec(s: Seq<Pkg>, root_id: Option<String>) -> Option<PkgKey> {
    match root_id {
        None => None,
        Some(id) => if id_match_from(s, id@, 0) < s.len() {
            Some(s[id_match_from(s, id@, 0)].key)
        } else {
            None
        },
    }
}

/// Locates the project's root package: the first registry entry whose
/// identity equals the hint.  No hint (a virtual workspace) or no matching
/// package yields nothing; the lookup never fails.
pub fn find_root(reg: &Registry, root_id: &Option<String>) -> (r: Option<PkgKey>)
    ensures
        r == root_key_spec(reg@, *root_id),
{
    if root_id.is_none() {
        return None;
    }
    let id: &String = root_id.as_ref().unwrap();
    let n = reg.len();
    let mut i: usize = 0;
    while i < n
        invariant
            i <= n,
            n == reg@.len(),
            root_id is Some,
            id@ == (root_id->0)@,
            forall|x: int| 0 <= x < i ==> (#[trigger] reg@[x]).id@ != id@,
        decreases n - i,
    {
        if reg.at(i).id == *id {
            proof {
                lemma_id_match_pins(reg@, id@, i as int);
            }
            return Some(reg.at(i).key);
        }
        i += 1;
    }
    proof {
        lemma_id_match_none(reg@, id@);
    }
    None
}

/// If `i` is the first identity match, `id_match_from` finds it.
proof fn lemma_id_match_pins(s: Seq<Pkg>, id: Seq<char>, i: int)
    requires
        0 <= i < s.len(),
        s[i].id@ == id,
        forall|x: int| 0 <= x < i ==> (#[trigger] s[x]).id@ != id,
    ensures
        id_match_from(s, id, 0) == i,
{
    lemma_id_match_pins_from(s, id, 0, i);
}

proof fn lemma_id_match_pins_from(s: Seq<Pkg>, id: Seq<char>, k: int, i: int)
    requires
        0 <= k <= i < s.len(),
        s[i].id@ == id,
        forall|x: int| k <= x < i ==> (#[trigger] s[x]).id@ != id,
    ensures
        id_match_from(s, id, k) == i,
    decreases i - k,
{
    if k < i {
        lemma_id_match_pins_from(s, id, k + 1, i);
    }
}

/// With no identity match at all, `id_match_from` runs off the end.
proof fn lemma_id_match_none(s: Seq<Pkg>, id: Seq<char>)
    requires
        forall|x: int| 0 <= x < s.len() ==> (#[trigger] s[x]).id@ != id,
    ensures
        id_match_from(s, id, 0) == s.len(),
{
    lemma_id_match_none_from(s, id, 0);
}

proof fn lemma_id_match_none_from(s: Seq<Pkg>, id: Seq<char>, k: int)
    requires
        0 <= k,
        forall|x: int| k <= x < s.len() ==> (#[trigger] s[x]).id@ != id,
    ensures
        id_match_from(s, id, k) == s.len(),
    decreases s.len() - k,
{
    if k < s.len() {
        lemma_id_match_none_from(s, id, k + 1);
    }
}

/// The resolver nodes of a metadata report, or nothing when the resolver
/// stage was skipped.
pub open spec fn resolve_nodes(meta: Metadata) -> Seq<ResolveNode> {
    match meta.resolve {
        Some(nodes) => nodes@,
        None => Seq::empty(),
    }
}

/// What `Project::build` promises: the registry holds exactly the
/// reported packages in report order; each package's enabled features are
/// the resolver's answer for its identity (empty without one); the two
/// adjacency lists are exactly the derived dependency graph; the root is
/// the first package matching the reported root identity; and the license
/// index starts empty.
pub open spec fn built_from(p: Project, meta: Metadata) -> bool {
    &&& p.packages.wf()
    &&& p.packages@.len() == meta.packages@.len()
    &&& forall|i: int| 0 <= i < meta.packages@.len()
        ==> loaded_pkg_matches(#[trigger] p.packages@[i], meta.packages@[i], i, resolve_nodes(meta))
    &&& forall|a: int| 0 <= a < p.packages@.len() ==> {
        &&& (#[trigger] p.packages@[a]).dependencies@ == deps_of(p.packages@, a)
        &&& p.packages@[a].dependents@ == dents_of(p.packages@, a)
    }
    &&& p.root == root_key_spec(p.packages@, meta.root_id)
    &&& p.license_map@ == Seq::<LicenseGroup>::empty()
}

/// One loaded package against its report: same data, resolved features.
pub open spec fn loaded_pkg_matches(p: Pkg, m: PkgMeta, i: int, nodes: Seq<ResolveNode>) -> bool {
    &&& p.id == m.id
    &&& p.name == m.name
    &&& p.version == m.version
    &&& p.requirements == m.requirements
    &&& p.description == m.description
    &&& p.license == m.license
    &&& p.keywords == m.keywords
    &&& p.authors == m.authors
    &&& p.homepage == m.homepage
    &&& p.repository == m.repository
    &&& p.documentation == m.documentation
    &&& p.features == m.features
    &&& p.source == m.source
    &&& p.manifest_dir == m.manifest_dir
    &&& p.readme_path == m.readme_path
    &&& p.changelog_path == m.changelog_path
    &&& p.key.idx == i
    &&& p.enabled_features@ == (match feature_lookup(nodes, m.id@) {
        Some(f) => f,
        None => Seq::<String>::empty(),
    })
}

impl Project {
    /// Builds the whole project from one metadata report, atomically: the
    /// registry is populated, features are resolved, the graph is derived
    /// and the root located before anything is handed out.
    pub fn build(meta: Metadata) -> (p: Project)
        ensures
            built_from(p, meta),
    {
        let Metadata { packages, resolve, root_id } = meta;
        let mut reg = collect_packages(packages);
        let ghost s_collect = reg@;
        match &resolve {
            Some(nodes) => apply_resolved_features(&mut reg, nodes),
            None => {},
        }
        let ghost s_feat = reg@;
        proof {
            assert forall|i: int| 0 <= i < s_feat.len() implies (#[trigger] s_feat[i]).enabled_features@
                == (match feature_lookup(resolve_nodes(meta), meta.packages@[i].id@) {
                    Some(f) => f,
                    None => Seq::<String>::empty(),
                }) by {
                if resolve is Some {
                    assert(s_feat[i] == with_enabled_features(s_collect[i], s_feat[i].enabled_features));
                } else {
                    assert(resolve_nodes(meta) =~= Seq::<ResolveNode>::empty());
                }
            }
            assert(reg.wf());
        }
        gen_dep_graph_info(&mut reg);
        let ghost s_graph = reg@;
        proof {
            assert(graph_inputs_eq(s_feat, s_graph)) by {
                assert forall|i: int| 0 <= i < s_feat.len() implies {
                    &&& (#[trigger] s_graph[i]).name == s_feat[i].name
                    &&& s_graph[i].version == s_feat[i].version
                    &&& s_graph[i].requirements == s_feat[i].requirements
                    &&& s_graph[i].key == s_feat[i].key
                } by {
                    assert(same_pkg_data(s_graph[i], s_feat[i]));
                }
            }
            lemma_graph_congruence(s_feat, s_graph);
        }
        let root = find_root(&reg, &root_id);
        let p = Project { packages: reg, root, license_map: Vec::new() };
        proof {
            assert forall|i: int| 0 <= i < meta.packages@.len()
                implies loaded_pkg_matches(#[trigger] p.packages@[i], meta.packages@[i], i, resolve_nodes(meta)) by {
                assert(pkg_from_meta(s_collect[i], meta.packages@[i], i));
                assert(s_feat[i] == with_enabled_features(s_collect[i], s_feat[i].enabled_features));
                assert(same_pkg_data(s_graph[i], s_feat[i]));
            }
        }
        p
    }

    /// The derived graph of a loaded project is exactly the matcher's
    /// verdict, in both directions: a dependency edge from `a` toward `b`
    /// exists precisely when some requirement declared by `a` matches
    /// `b`; every such edge is mirrored in `b`'s dependents with the same
    /// kind and platform filter, and the mirror relation also runs the
    /// other way.  A requirement that matches no package yields no edge,
    /// while staying in the package's declared requirement list.
    pub proof fn lemma_graph_bidirectional(p: Project, meta: Metadata, a: int, b: int)
        requires
            built_from(p, meta),
            0 <= a < p.packages@.len(),
            0 <= b < p.packages@.len(),
            a != b,
        ensures
            (exists|i: int| 0 <= i < p.packages@[a].dependencies@.len()
                && (#[trigger] p.packages@[a].dependencies@[i]).pkg_key == p.packages@[b].key)
                <==> has_match(p.packages@[a].requirements@, p.packages@[b]),
            forall|l: DepLink| #[trigger] p.packages@[a].dependencies@.contains(l)
                && l.pkg_key == p.packages@[b].key
                ==> p.packages@[b].dependents@.contains(DepLink {
                    pkg_key: p.packages@[a].key,
                    kind: l.kind,
                    target: l.target,
                }),
            forall|l: DepLink| #[trigger] p.packages@[b].dependents@.contains(l)
                && l.pkg_key == p.packages@[a].key
                ==> p.packages@[a].dependencies@.contains(DepLink {
                    pkg_key: p.packages@[b].key,
                    kind: l.kind,
                    target: l.target,
                }),
    {
        let s = p.packages@;
        lemma_dep_link_mirrored(s, a, b);
        if has_match(s[a].requirements@, s[b]) {
            let l = link_for(s, a, b);
            assert(deps_of(s, a).contains(l));
            let i = choose|i: int| 0 <= i < deps_of(s, a).len() && deps_of(s, a)[i] == l;
            assert(s[a].dependencies@[i].pkg_key == s[b].key);
        }
        if exists|i: int| 0 <= i < s[a].dependencies@.len()
            && (#[trigger] s[a].dependencies@[i]).pkg_key == s[b].key {
            let i = choose|i: int| 0 <= i < s[a].dependencies@.len()
                && (#[trigger] s[a].dependencies@[i]).pkg_key == s[b].key;
            let l = s[a].dependencies@[i];
            assert(deps_of(s, a).contains(l));
            assert(has_match(s[a].requirements@, s[b]));
        }
        assert forall|l: DepLink| #[trigger] s[a].dependencies@.contains(l)
            && l.pkg_key == s[b].key
            implies s[b].dependents@.contains(DepLink {
                pkg_key: s[a].key,
                kind: l.kind,
                target: l.target,
            }) by {
            assert(l == link_for(s, a, b));
            assert(mirror_link_for(s, a, b) == DepLink {
                pkg_key: s[a].key,
                kind: l.kind,
                target: l.target,
            });
        }
        assert forall|l: DepLink| #[trigger] s[b].dependents@.contains(l)
            && l.pkg_key == s[a].key
            implies s[a].dependencies@.contains(DepLink {
                pkg_key: s[b].key,
                kind: l.kind,
                target: l.target,
            }) by {
            assert(l == mirror_link_for(s, a, b));
            assert(link_for(s, a, b) == DepLink {
                pkg_key: s[b].key,
                kind: l.kind,
                target: l.target,
            });
        }
    }

    /// Deduplication over a loaded project: no package's dependencies,
    /// and no package's dependents, hold two edges toward the same
    /// neighbour key.
    pub proof fn lemma_graph_deduplicated(p: Project, meta: Metadata, a: int)
        requires
            built_from(p, meta),
            0 <= a < p.packages@.len(),
        ensures
            forall|i: int, j: int| 0 <= i < j < p.packages@[a].dependencies@.len()
                ==> (#[trigger] p.packages@[a].dependencies@[i]).pkg_key
                    != (#[trigger] p.packages@[a].dependencies@[j]).pkg_key,
            forall|i: int, j: int| 0 <= i < j < p.packages@[a].dependents@.len()
                ==> (#[trigger] p.packages@[a].dependents@[i]).pkg_key
                    != (#[trigger] p.packages@[a].dependents@[j]).pkg_key,
    {
        lemma_adjacency_deduplicated(p.packages@, a);
    }

    /// Computes the license index if it has not been computed yet and
    /// caches it; a second call leaves the cached grouping untouched, and
    /// recomputation on the same packages would yield the identical
    /// grouping.
    pub fn license_index(&mut self)
        ensures
            final(self).packages == old(self).packages,
            final(self).root == old(self).root,
            final(self).license_map@.map_values(|g: LicenseGroup| g@)
                == license_groups_of(final(self).packages@) || final(self).license_map
                == old(self).license_map,
            old(self).license_map@.len() == 0
                ==> final(self).license_map@.map_values(|g: LicenseGroup| g@)
                    == license_groups_of(final(self).packages@),
    {
        if self.license_map.is_empty() {
            self.license_map = compute_license_map(&self.packages);
        }
    }
}

} // verus!
