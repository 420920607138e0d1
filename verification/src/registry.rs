//! The package registry: owns every package of a loaded project and issues
//! the stable keys that the rest of the graph speaks in.
//!
//! Packages are only ever inserted, never removed, so a key handed out once
//! stays valid for the registry's whole lifetime and is never reused.

use vstd::prelude::*;
use crate::pkg::{DepLink, Pkg, PkgKey};

verus! {

/// The registry.  Its view is the sequence of stored packages, in insertion
/// order; the key of the package at position `i` is exactly `i`.
pub struct Registry {
    pkgs: Vec<Pkg>,
}

impl View for Registry {
    type V = Seq<Pkg>;

    closed spec fn view(&self) -> Seq<Pkg> {
        self.pkgs@
    }
}

/// `p` with its `key` field replaced by `k`.
pub open spec fn with_key(p: Pkg, k: PkgKey) -> Pkg {
    Pkg { key: k, ..p }
}

/// Every package of the sequence carries the key of its own position.
pub open spec fn keys_in_place(s: Seq<Pkg>) -> bool {
    forall|i: int| 0 <= i < s.len() ==> (#[trigger] s[i]).key.idx == i
}

impl Registry {
    /// Every stored package carries the key the registry issued for it.
    pub open spec fn wf(&self) -> bool {
        keys_in_place(self@)
    }

    pub fn new() -> (r: Registry)
        ensures
            r.wf(),
            r@.len() == 0,
    {
        Registry { pkgs: Vec::new() }
    }

    pub fn len(&self) -> (n: usize)
        ensures
            n == self@.len(),
    {
        self.pkgs.len()
    }

    /// Stores `pkg` and issues its key; whatever key the argument carried
    /// is replaced by the issued one.
    pub fn insert(&mut self, pkg: Pkg) -> (k: PkgKey)
        requires
            old(self).wf(),
            old(self)@.len() < usize::MAX,
        ensures
            final(self).wf(),
            k.idx == old(self)@.len(),
            final(self)@ == old(self)@.push(with_key(pkg, k)),
    {
        let k = PkgKey { idx: self.pkgs.len() };
        let mut p = pkg;
        p.key = k;
        self.pkgs.push(p);
        assert(self@ =~= old(self)@.push(with_key(pkg, k)));
        k
    }

    /// Looks a package up by key; an unknown key yields nothing, it never
    /// aborts.
    pub fn get(&self, key: PkgKey) -> (r: Option<&Pkg>)
        ensures
            key.idx < self@.len() ==> r == Some(&self@[key.idx as int]),
            key.idx >= self@.len() ==> r is None,
    {
        if key.idx < self.pkgs.len() {
            Some(&self.pkgs[key.idx])
        } else {
            None
        }
    }

    /// Borrows the package at position `i` in insertion order, for
    /// iteration over all packages.
    pub fn at(&self, i: usize) -> (r: &Pkg)
        requires
            i < self@.len(),
        ensures
            *r == self@[i as int],
    {
        &self.pkgs[i]
    }

    /// Replaces the two adjacency lists of the package at position `i`,
    /// leaving every other field as it was.
    pub(crate) fn set_links_at(&mut self, i: usize, dependencies: Vec<DepLink>, dependents: Vec<DepLink>)
        requires
            i < old(self)@.len(),
        ensures
            final(self)@ == old(self)@.update(i as int, with_links(old(self)@[i as int], dependencies, dependents)),
    {
        self.pkgs[i].dependencies = dependencies;
        self.pkgs[i].dependents = dependents;
        assert(self@ =~= old(self)@.update(
            i as int,
            with_links(old(self)@[i as int], self@[i as int].dependencies, self@[i as int].dependents),
        ));
    }

    /// Replaces the enabled feature set of the package at position `i`,
    /// leaving every other field as it was.
    pub(crate) fn set_enabled_features_at(&mut self, i: usize, enabled: Vec<String>)
        requires
            i < old(self)@.len(),
        ensures
            final(self)@ == old(self)@.update(i as int, with_enabled_features(old(self)@[i as int], enabled)),
    {
        self.pkgs[i].enabled_features = enabled;
        assert(self@ =~= old(self)@.update(
            i as int,
            with_enabled_features(old(self)@[i as int], self@[i as int].enabled_features),
        ));
    }
}

/// `p` with its two adjacency lists replaced.
pub open spec fn with_links(p: Pkg, dependencies: Vec<DepLink>, dependents: Vec<DepLink>) -> Pkg {
    Pkg { dependencies, dependents, ..p }
}

/// `p` with its enabled feature set replaced.
pub open spec fn with_enabled_features(p: Pkg, enabled: Vec<String>) -> Pkg {
    Pkg { enabled_features: enabled, ..p }
}

} // verus!
