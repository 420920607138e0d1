//! The data model: packages, declared requirements, and resolved edges.

use vstd::prelude::*;

verus! {

/// Stable handle of one package inside a loaded project's registry.
///
/// Keys are issued by the registry on insertion and stay valid for the
/// registry's whole lifetime; the registry never removes packages, so a key
/// is never reused.
#[derive(Clone, Copy, PartialEq, Eq, Structural, Hash, Debug)]
pub struct PkgKey {
    pub idx: usize,
}

/// Classification of one dependency edge.
#[derive(Clone, Copy, PartialEq, Eq, Structural, Hash, Debug)]
pub enum DepKind {
    /// An ordinary runtime dependency.
    Normal,
    /// A dependency used only by tests, examples and benchmarks.
    Development,
    /// A dependency of build-time tooling.
    Build,
    /// A kind the metadata source did not recognise.
    Unknown,
}

/// One declared dependency, as written by the dependent package: the target
/// name, the version requirement source text, the edge kind, and the
/// optional / platform / origin qualifiers.
pub struct Requirement {
    pub name: String,
    /// Version requirement, in its textual form.
    pub req: String,
    pub kind: DepKind,
    pub optional: bool,
    /// Target platform filter, in its textual form, if the dependency is
    /// limited to one platform.
    pub target: Option<String>,
    /// Source origin (registry or git URL), if the metadata source gave one.
    pub source: Option<String>,
}

/// One resolved, directed edge between two packages: the neighbour's key
/// plus the kind and platform filter of the declaration that produced it.
pub struct DepLink {
    pub pkg_key: PkgKey,
    pub kind: DepKind,
    pub target: Option<String>,
}

/// One resolved package of the loaded project, with its declared metadata
/// and the adjacency lists derived by the graph builder.
pub struct Pkg {
    /// Opaque identity given by the metadata source (name, version and
    /// source in one string).
    pub id: String,
    pub name: String,
    /// Semantic version, in its textual form.
    pub version: String,
    /// The dependency requirements this package declares, in declaration
    /// order.  Requirements that resolve to no package in the registry stay
    /// listed here even though they yield no edge.
    pub requirements: Vec<Requirement>,
    pub description: Option<String>,
    pub license: Option<String>,
    pub keywords: Vec<String>,
    pub authors: Vec<String>,
    pub homepage: Option<String>,
    pub repository: Option<String>,
    pub documentation: Option<String>,
    /// Features this package declares: each name with the list of features
    /// and dependencies it turns on.
    pub features: Vec<FeatureDecl>,
    /// Source origin of the package itself, if any.
    pub source: Option<String>,
    /// Directory that holds the package's manifest.
    pub manifest_dir: String,
    /// Path of a README next to the manifest, if the caller found one.
    pub readme_path: Option<String>,
    /// Path of a CHANGELOG next to the manifest, if the caller found one.
    pub changelog_path: Option<String>,
    /// This package's own key in the registry.
    pub key: PkgKey,
    /// Edges toward the packages that depend on this one; deduplicated, at
    /// most one per neighbour.
    pub dependents: Vec<DepLink>,
    /// Edges toward the packages this one depends on; deduplicated, at most
    /// one per neighbour.
    pub dependencies: Vec<DepLink>,
    /// The features actually enabled for this package in the resolved
    /// build; empty when the resolver reported nothing for it.
    pub enabled_features: Vec<String>,
}

/// One declared feature: its name and what it enables.
pub struct FeatureDecl {
    pub name: String,
    pub enables: Vec<String>,
}

impl Pkg {
    /// Some enabled feature of the package carries this name.
    pub open spec fn spec_feature_enabled(self, name: Seq<char>) -> bool {
        exists|i: int| 0 <= i < self.enabled_features@.len()
            && (#[trigger] self.enabled_features@[i])@ == name
    }

    /// Whether the feature named `name` is enabled for this package in
    /// the resolved build.
    pub fn feature_enabled(&self, name: &String) -> (b: bool)
        ensures
            b == self.spec_feature_enabled(name@),
    {
        let n = self.enabled_features.len();
        let mut i: usize = 0;
        while i < n
            invariant
                i <= n,
                n == self.enabled_features@.len(),
                forall|x: int| 0 <= x < i ==> (#[trigger] self.enabled_features@[x])@ != name@,
            decreases n - i,
        {
            if self.enabled_features[i] == *name {
                return true;
            }
            i += 1;
        }
        false
    }
}

impl Clone for DepLink {
    fn clone(&self) -> (res: Self)
        ensures
            res == *self,
    {
        DepLink {
            pkg_key: self.pkg_key,
            kind: self.kind,
            target: clone_opt_string(&self.target),
        }
    }
}

impl Clone for Requirement {
    fn clone(&self) -> (res: Self)
        ensures
            res == *self,
    {
        Requirement {
            name: self.name.clone(),
            req: self.req.clone(),
            kind: self.kind,
            optional: self.optional,
            target: clone_opt_string(&self.target),
            source: clone_opt_string(&self.source),
        }
    }
}

/// The two packages agree on everything but their adjacency lists.
pub open spec fn same_pkg_data(p1: Pkg, p2: Pkg) -> bool {
    &&& p1.id == p2.id
    &&& p1.name == p2.name
    &&& p1.version == p2.version
    &&& p1.requirements == p2.requirements
    &&& p1.description == p2.description
    &&& p1.license == p2.license
    &&& p1.keywords == p2.keywords
    &&& p1.authors == p2.authors
    &&& p1.homepage == p2.homepage
    &&& p1.repository == p2.repository
    &&& p1.documentation == p2.documentation
    &&& p1.features == p2.features
    &&& p1.source == p2.source
    &&& p1.manifest_dir == p2.manifest_dir
    &&& p1.readme_path == p2.readme_path
    &&& p1.changelog_path == p2.changelog_path
    &&& p1.key == p2.key
    &&& p1.enabled_features == p2.enabled_features
}

/// Clones an optional string; the result is the very same value.
pub fn clone_opt_string(s: &Option<String>) -> (res: Option<String>)
    ensures
        res == *s,
{
    match s {
        Some(x) => Some(x.clone()),
        None => None,
    }
}

} // verus!
