//! The dependency matcher: decides whether a declared requirement refers to
//! a given resolved package.
//!
//! A requirement matches a package exactly when the names are equal and the
//! package's version satisfies the requirement's version range.  The range
//! check itself is semver's; this module names its result and builds the
//! matcher on that name.

use vstd::prelude::*;
use crate::pkg::{Pkg, PkgKey, Requirement};
use crate::registry::Registry;

verus! {

/// Whether the version requirement written as `req` admits the version
/// written as `version`, under semver's range semantics; false when either
/// text does not parse.  The result depends on the two texts alone.
pub uninterp spec fn req_matches(req: Seq<char>, version: Seq<char>) -> bool;

/// Relies on semver's `VersionReq::parse`, `Version::parse` and
/// `VersionReq::matches` (reached through cargo_metadata's re-export): all
/// three are pure functions of their string arguments, so the outcome is a
/// function of the two texts alone, here named `req_matches`.
#[verifier::external_body]
pub(crate) fn version_req_admits(req: &str, version: &str) -> (b: bool)
    ensures
        b == req_matches(req@, version@),
{
    match (
        cargo_metadata::semver::VersionReq::parse(req),
        cargo_metadata::semver::Version::parse(version),
    ) {
        (Ok(r), Ok(v)) => r.matches(&v),
        _ => false,
    }
}

/// The matcher, as a predicate over values: the names are equal and the
/// package's version satisfies the requirement's range.
pub open spec fn spec_matches(rq: Requirement, p: Pkg) -> bool {
    rq.name@ == p.name@ && req_matches(rq.req@, p.version@)
}

/// Whether the declared dependency `dep` refers to the resolved package
/// `pkg`: true exactly when the names are equal and `pkg`'s version
/// satisfies `dep`'s version requirement.  In particular a name mismatch
/// gives false whatever the versions say.  Total: no input fails.
pub fn dep_matches_pkg(dep: &Requirement, pkg: &Pkg) -> (b: bool)
    ensures
        b == spec_matches(*dep, *pkg),
{
    dep.name == pkg.name && version_req_admits(dep.req.as_str(), pkg.version.as_str())
}

/// A requirement never matches a package of another name, whatever the
/// versions say.
pub proof fn lemma_name_mismatch_never_matches(rq: Requirement, p: Pkg)
    requires
        rq.name@ != p.name@,
    ensures
        !spec_matches(rq, p),
{
}

/// Position of the first package at or after `i` that the requirement
/// matches, or the registry's length when none does.
pub open spec fn pkg_match_from(s: Seq<Pkg>, rq: Requirement, i: int) -> int
    decreases s.len() - i,
{
    if i < 0 || i >= s.len() {
        s.len() as int
    } else if spec_matches(rq, s[i]) {
        i
    } else {
        pkg_match_from(s, rq, i + 1)
    }
}

/// The key `resolve_requirement` answers: the key of the first package
/// the requirement matches, or nothing when it resolves to no package in
/// the registry (an unresolved requirement).
pub open spec fn resolved_key_spec(s: Seq<Pkg>, rq: Requirement) -> Option<PkgKey> {
    if pkg_match_from(s, rq, 0) < s.len() {
        Some(s[pkg_match_from(s, rq, 0)].key)
    } else {
        None
    }
}

/// Resolves one declared requirement against the registry: the first
/// package it matches, or nothing when it is unresolved — the
/// requirement itself stays declared either way.
pub fn resolve_requirement(reg: &Registry, rq: &Requirement) -> (r: Option<PkgKey>)
    ensures
        r == resolved_key_spec(reg@, *rq),
{
    let n = reg.len();
    let mut i: usize = 0;
    while i < n
        invariant
            i <= n,
            n == reg@.len(),
            forall|x: int| 0 <= x < i ==> !spec_matches(*rq, #[trigger] reg@[x]),
        decreases n - i,
    {
        if dep_matches_pkg(rq, reg.at(i)) {
            proof {
                lemma_pkg_match_pins_from(reg@, *rq, 0, i as int);
            }
            return Some(reg.at(i).key);
        }
        i += 1;
    }
    proof {
        lemma_pkg_match_none_from(reg@, *rq, 0);
    }
    None
}

proof fn lemma_pkg_match_pins_from(s: Seq<Pkg>, rq: Requirement, k: int, i: int)
    requires
        0 <= k <= i < s.len(),
        spec_matches(rq, s[i]),
        forall|x: int| k <= x < i ==> !spec_matches(rq, #[trigger] s[x]),
    ensures
        pkg_match_from(s, rq, k) == i,
    decreases i - k,
{
    if k < i {
        lemma_pkg_match_pins_from(s, rq, k + 1, i);
    }
}

proof fn lemma_pkg_match_none_from(s: Seq<Pkg>, rq: Requirement, k: int)
    requires
        0 <= k,
        forall|x: int| k <= x < s.len() ==> !spec_matches(rq, #[trigger] s[x]),
    ensures
        pkg_match_from(s, rq, k) == s.len(),
    decreases s.len() - k,
{
    if k < s.len() {
        lemma_pkg_match_none_from(s, rq, k + 1);
    }
}

} // verus!
