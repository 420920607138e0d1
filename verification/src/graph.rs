//! The graph builder: derives the bidirectional dependency graph from the
//! declared requirements of a fully populated registry.
//!
//! For every ordered pair of distinct packages `(a, b)` it asks the matcher
//! whether some requirement of `a` resolves to `b`; if so, one edge toward
//! `b` joins `a`'s `dependencies` and the mirrored edge toward `a` joins
//! `b`'s `dependents`.  Each adjacency list keeps at most one edge per
//! neighbour: when several requirements of `a` match the same package, the
//! first declared one decides the edge's kind and platform filter and the
//! rest are dropped.  Edges appear in registry order of the neighbour.

use vstd::prelude::*;
use crate::matcher::{dep_matches_pkg, spec_matches};
use crate::pkg::{clone_opt_string, same_pkg_data, DepKind, DepLink, Pkg, Requirement};
use crate::registry::{keys_in_place, Registry};

verus! {

/// Some requirement of the list matches package `p`.
pub open spec fn has_match(reqs: Seq<Requirement>, p: Pkg) -> bool {
    exists|i: int| 0 <= i < reqs.len() && spec_matches(reqs[i], p)
}

/// Position of the first requirement at or after `i` that matches `p`, or
/// the list's length when none does.
pub open spec fn first_match_from(reqs: Seq<Requirement>, p: Pkg, i: int) -> int
    decreases reqs.len() - i,
{
    if i < 0 || i >= reqs.len() {
        reqs.len() as int
    } else if spec_matches(reqs[i], p) {
        i
    } else {
        first_match_from(reqs, p, i + 1)
    }
}

/// Position of the first requirement that matches `p`.
pub open spec fn first_match(reqs: Seq<Requirement>, p: Pkg) -> int {
    first_match_from(reqs, p, 0)
}

/// Package `a` declares at least one requirement that resolves to the
/// distinct package `b`: exactly then the graph holds an edge from `a` to
/// `b`.
pub open spec fn pair_linked(s: Seq<Pkg>, a: int, b: int) -> bool {
    a != b && has_match(s[a].requirements@, s[b])
}

/// Kind of the edge from `a` to `b`: the kind declared by the first
/// requirement of `a` that matches `b`.
pub open spec fn link_kind(s: Seq<Pkg>, a: int, b: int) -> DepKind {
    s[a].requirements@[first_match(s[a].requirements@, s[b])].kind
}

/// Platform filter of the edge from `a` to `b`: the filter declared by the
/// first requirement of `a` that matches `b`.
pub open spec fn link_target(s: Seq<Pkg>, a: int, b: int) -> Option<String> {
    s[a].requirements@[first_match(s[a].requirements@, s[b])].target
}

/// The edge from `a` to `b` as it stands in `a`'s dependencies.
pub open spec fn link_for(s: Seq<Pkg>, a: int, b: int) -> DepLink {
    DepLink { pkg_key: s[b].key, kind: link_kind(s, a, b), target: link_target(s, a, b) }
}

/// The mirrored edge as it stands in `b`'s dependents: same kind and
/// platform, pointing back at `a`.
pub open spec fn mirror_link_for(s: Seq<Pkg>, a: int, b: int) -> DepLink {
    DepLink { pkg_key: s[a].key, kind: link_kind(s, a, b), target: link_target(s, a, b) }
}

/// Dependencies of `a` restricted to neighbours below `n`: one edge for
/// each linked `b < n`, in increasing order of `b`.
pub open spec fn deps_upto(s: Seq<Pkg>, a: int, n: int) -> Seq<DepLink>
    decreases n,
{
    if n <= 0 {
        Seq::empty()
    } else if pair_linked(s, a, n - 1) {
        deps_upto(s, a, n - 1).push(link_for(s, a, n - 1))
    } else {
        deps_upto(s, a, n - 1)
    }
}

/// The full dependencies list of `a`.
pub open spec fn deps_of(s: Seq<Pkg>, a: int) -> Seq<DepLink> {
    deps_upto(s, a, s.len() as int)
}

/// Dependents of `b` restricted to dependent packages below `n`: one
/// mirrored edge for each linked `a < n`, in increasing order of `a`.
pub open spec fn dents_upto(s: Seq<Pkg>, b: int, n: int) -> Seq<DepLink>
    decreases n,
{
    if n <= 0 {
        Seq::empty()
    } else if pair_linked(s, n - 1, b) {
        dents_upto(s, b, n - 1).push(mirror_link_for(s, n - 1, b))
    } else {
        dents_upto(s, b, n - 1)
    }
}

/// The full dependents list of `b`.
pub open spec fn dents_of(s: Seq<Pkg>, b: int) -> Seq<DepLink> {
    dents_upto(s, b, s.len() as int)
}

/// Finds the first requirement of the list that matches `p`, if any.
fn find_first_match(reqs: &Vec<Requirement>, p: &Pkg) -> (r: Option<usize>)
    ensures
        r matches Some(i) ==> {
            &&& i < reqs@.len()
            &&& spec_matches(reqs@[i as int], *p)
            &&& forall|j: int| 0 <= j < i ==> !spec_matches(reqs@[j], *p)
            &&& first_match(reqs@, *p) == i
            &&& has_match(reqs@, *p)
        },
        r is None ==> !has_match(reqs@, *p),
{
    let n = reqs.len();
    let mut i: usize = 0;
    while i < n
        invariant
            i <= n,
            n == reqs@.len(),
            forall|j: int| 0 <= j < i ==> !spec_matches(reqs@[j], *p),
        decreases n - i,
    {
        if dep_matches_pkg(&reqs[i], p) {
            proof {
                lemma_first_match_pins(reqs@, *p, i as int);
            }
            return Some(i);
        }
        i += 1;
    }
    None
}

/// If `i` matches and nothing before it does, the first match is `i`.
proof fn lemma_first_match_pins(reqs: Seq<Requirement>, p: Pkg, i: int)
    requires
        0 <= i < reqs.len(),
        spec_matches(reqs[i], p),
        forall|j: int| 0 <= j < i ==> !spec_matches(reqs[j], p),
    ensures
        first_match(reqs, p) == i,
{
    lemma_first_match_from_pins(reqs, p, 0, i);
}

proof fn lemma_first_match_from_pins(reqs: Seq<Requirement>, p: Pkg, k: int, i: int)
    requires
        0 <= k <= i < reqs.len(),
        spec_matches(reqs[i], p),
        forall|j: int| k <= j < i ==> !spec_matches(reqs[j], p),
    ensures
        first_match_from(reqs, p, k) == i,
    decreases i - k,
{
    if k < i {
        lemma_first_match_from_pins(reqs, p, k + 1, i);
    }
}

/// Computes the dependencies list of every package: row `a` holds the
/// deduplicated edges from package `a`, in registry order of the
/// neighbour.
fn compute_dependency_rows(reg: &Registry) -> (rows: Vec<Vec<DepLink>>)
    ensures
        rows@.len() == reg@.len(),
        forall|a: int| 0 <= a < reg@.len() ==> (#[trigger] rows@[a])@ == deps_of(reg@, a),
{
    let n = reg.len();
    let mut rows: Vec<Vec<DepLink>> = Vec::new();
    let mut a: usize = 0;
    while a < n
        invariant
            a <= n,
            n == reg@.len(),
            rows@.len() == a,
            forall|k: int| 0 <= k < a ==> (#[trigger] rows@[k])@ == deps_of(reg@, k),
        decreases n - a,
    {
        let mut row: Vec<DepLink> = Vec::new();
        let mut b: usize = 0;
        while b < n
            invariant
                b <= n,
                a < n,
                n == reg@.len(),
                row@ == deps_upto(reg@, a as int, b as int),
            decreases n - b,
        {
            if a != b {
                match find_first_match(&reg.at(a).requirements, reg.at(b)) {
                    Some(i) => {
                        let rq = &reg.at(a).requirements[i];
                        row.push(DepLink {
                            pkg_key: reg.at(b).key,
                            kind: rq.kind,
                            target: clone_opt_string(&rq.target),
                        });
                    },
                    None => {},
                }
            }
            b += 1;
        }
        rows.push(row);
        a += 1;
    }
    rows
}

/// Computes the dependents list of every package: row `b` holds the
/// deduplicated mirrored edges toward the packages that depend on `b`.
fn compute_dependent_rows(reg: &Registry) -> (rows: Vec<Vec<DepLink>>)
    ensures
        rows@.len() == reg@.len(),
        forall|b: int| 0 <= b < reg@.len() ==> (#[trigger] rows@[b])@ == dents_of(reg@, b),
{
    let n = reg.len();
    let mut rows: Vec<Vec<DepLink>> = Vec::new();
    let mut b: usize = 0;
    while b < n
        invariant
            b <= n,
            n == reg@.len(),
            rows@.len() == b,
            forall|k: int| 0 <= k < b ==> (#[trigger] rows@[k])@ == dents_of(reg@, k),
        decreases n - b,
    {
        let mut row: Vec<DepLink> = Vec::new();
        let mut a: usize = 0;
        while a < n
            invariant
                a <= n,
                b < n,
                n == reg@.len(),
                row@ == dents_upto(reg@, b as int, a as int),
            decreases n - a,
        {
            if a != b {
                match find_first_match(&reg.at(a).requirements, reg.at(b)) {
                    Some(i) => {
                        let rq = &reg.at(a).requirements[i];
                        row.push(DepLink {
                            pkg_key: reg.at(a).key,
                            kind: rq.kind,
                            target: clone_opt_string(&rq.target),
                        });
                    },
                    None => {},
                }
            }
            a += 1;
        }
        rows.push(row);
        b += 1;
    }
    rows
}

/// Fills the `dependencies` and `dependents` lists of every package from
/// the declared requirements; every other field is left untouched.  Must
/// run on the fully populated registry, so that every cross-reference can
/// resolve.
pub fn gen_dep_graph_info(reg: &mut Registry)
    requires
        old(reg).wf(),
    ensures
        final(reg).wf(),
        final(reg)@.len() == old(reg)@.len(),
        forall|a: int| 0 <= a < old(reg)@.len() ==> {
            &&& (#[trigger] final(reg)@[a]).dependencies@ == deps_of(old(reg)@, a)
            &&& final(reg)@[a].dependents@ == dents_of(old(reg)@, a)
            &&& same_pkg_data(final(reg)@[a], old(reg)@[a])
        },
{
    let mut deps_rows = compute_dependency_rows(reg);
    let mut dents_rows = compute_dependent_rows(reg);
    let n = reg.len();
    let mut a = n;
    while a > 0
        invariant
            a <= n,
            n == old(reg)@.len(),
            reg@.len() == n,
            deps_rows@.len() == a,
            dents_rows@.len() == a,
            forall|k: int| 0 <= k < a ==> (#[trigger] deps_rows@[k])@ == deps_of(old(reg)@, k),
            forall|k: int| 0 <= k < a ==> (#[trigger] dents_rows@[k])@ == dents_of(old(reg)@, k),
            forall|k: int| 0 <= k < a ==> (#[trigger] reg@[k]) == old(reg)@[k],
            forall|k: int| a <= k < n ==> {
                &&& (#[trigger] reg@[k]).dependencies@ == deps_of(old(reg)@, k)
                &&& reg@[k].dependents@ == dents_of(old(reg)@, k)
                &&& same_pkg_data(reg@[k], old(reg)@[k])
            },
        decreases a,
    {
        a -= 1;
        let deps = deps_rows.pop().unwrap();
        let dents = dents_rows.pop().unwrap();
        reg.set_links_at(a, deps, dents);
    }
    proof {
        assert forall|i: int| 0 <= i < reg@.len() implies (#[trigger] reg@[i]).key.idx == i by {
            assert(same_pkg_data(reg@[i], old(reg)@[i]));
        }
    }
}

/// Every edge of `deps_upto(s, a, n)` is the edge toward some linked
/// neighbour `b < n`, and the edge toward each linked `b < n` is there.
proof fn lemma_deps_upto_elems(s: Seq<Pkg>, a: int, n: int)
    requires
        0 <= n <= s.len(),
    ensures
        forall|i: int| 0 <= i < deps_upto(s, a, n).len()
            ==> exists|b: int| 0 <= b < n && pair_linked(s, a, b)
                && #[trigger] deps_upto(s, a, n)[i] == link_for(s, a, b),
        forall|b: int| 0 <= b < n && pair_linked(s, a, b)
            ==> #[trigger] deps_upto(s, a, n).contains(link_for(s, a, b)),
    decreases n,
{
    if n > 0 {
        lemma_deps_upto_elems(s, a, n - 1);
        let prev = deps_upto(s, a, n - 1);
        let cur = deps_upto(s, a, n);
        assert forall|b: int| 0 <= b < n && pair_linked(s, a, b)
            implies #[trigger] cur.contains(link_for(s, a, b)) by {
            if b < n - 1 {
                assert(prev.contains(link_for(s, a, b)));
                let i = choose|i: int| 0 <= i < prev.len() && prev[i] == link_for(s, a, b);
                if pair_linked(s, a, n - 1) {
                    assert(cur[i] == link_for(s, a, b));
                } else {
                    assert(cur == prev);
                }
            } else {
                assert(cur[cur.len() - 1] == link_for(s, a, b));
            }
        }
    }
}

/// The neighbour positions along `deps_upto(s, a, n)` increase strictly,
/// so no two edges of the list share a target key.
proof fn lemma_deps_upto_keys_increase(s: Seq<Pkg>, a: int, n: int)
    requires
        keys_in_place(s),
        0 <= n <= s.len(),
    ensures
        forall|i: int| 0 <= i < deps_upto(s, a, n).len()
            ==> 0 <= (#[trigger] deps_upto(s, a, n)[i]).pkg_key.idx < n,
        forall|i: int, j: int| 0 <= i < j < deps_upto(s, a, n).len()
            ==> (#[trigger] deps_upto(s, a, n)[i]).pkg_key.idx
                < (#[trigger] deps_upto(s, a, n)[j]).pkg_key.idx,
    decreases n,
{
    if n > 0 {
        lemma_deps_upto_keys_increase(s, a, n - 1);
    }
}

/// Mirror of `lemma_deps_upto_elems` for the dependents lists.
proof fn lemma_dents_upto_elems(s: Seq<Pkg>, b: int, n: int)
    requires
        0 <= n <= s.len(),
    ensures
        forall|i: int| 0 <= i < dents_upto(s, b, n).len()
            ==> exists|a: int| 0 <= a < n && pair_linked(s, a, b)
                && #[trigger] dents_upto(s, b, n)[i] == mirror_link_for(s, a, b),
        forall|a: int| 0 <= a < n && pair_linked(s, a, b)
            ==> #[trigger] dents_upto(s, b, n).contains(mirror_link_for(s, a, b)),
    decreases n,
{
    if n > 0 {
        lemma_dents_upto_elems(s, b, n - 1);
        let prev = dents_upto(s, b, n - 1);
        let cur = dents_upto(s, b, n);
        assert forall|a: int| 0 <= a < n && pair_linked(s, a, b)
            implies #[trigger] cur.contains(mirror_link_for(s, a, b)) by {
            if a < n - 1 {
                assert(prev.contains(mirror_link_for(s, a, b)));
                let i = choose|i: int| 0 <= i < prev.len() && prev[i] == mirror_link_for(s, a, b);
                if pair_linked(s, n - 1, b) {
                    assert(cur[i] == mirror_link_for(s, a, b));
                } else {
                    assert(cur == prev);
                }
            } else {
                assert(cur[cur.len() - 1] == mirror_link_for(s, a, b));
            }
        }
    }
}

/// Mirror of `lemma_deps_upto_keys_increase` for the dependents lists.
proof fn lemma_dents_upto_keys_increase(s: Seq<Pkg>, b: int, n: int)
    requires
        keys_in_place(s),
        0 <= n <= s.len(),
    ensures
        forall|i: int| 0 <= i < dents_upto(s, b, n).len()
            ==> 0 <= (#[trigger] dents_upto(s, b, n)[i]).pkg_key.idx < n,
        forall|i: int, j: int| 0 <= i < j < dents_upto(s, b, n).len()
            ==> (#[trigger] dents_upto(s, b, n)[i]).pkg_key.idx
                < (#[trigger] dents_upto(s, b, n)[j]).pkg_key.idx,
    decreases n,
{
    if n > 0 {
        lemma_dents_upto_keys_increase(s, b, n - 1);
    }
}

/// An edge from `a` toward `b` stands in `a`'s dependencies exactly when
/// some requirement declared by `a` matches `b`; exactly then the mirrored
/// edge, with the same kind and the same platform filter, stands in `b`'s
/// dependents; and in each list that edge is the only one with that
/// neighbour key.
pub proof fn lemma_dep_link_mirrored(s: Seq<Pkg>, a: int, b: int)
    requires
        keys_in_place(s),
        0 <= a < s.len(),
        0 <= b < s.len(),
        a != b,
    ensures
        pair_linked(s, a, b) <==> has_match(s[a].requirements@, s[b]),
        link_for(s, a, b).pkg_key == s[b].key,
        mirror_link_for(s, a, b).pkg_key == s[a].key,
        link_for(s, a, b).kind == mirror_link_for(s, a, b).kind,
        link_for(s, a, b).target == mirror_link_for(s, a, b).target,
        pair_linked(s, a, b) ==> deps_of(s, a).contains(link_for(s, a, b)),
        pair_linked(s, a, b) ==> dents_of(s, b).contains(mirror_link_for(s, a, b)),
        forall|l: DepLink| #[trigger] deps_of(s, a).contains(l) && l.pkg_key == s[b].key
            ==> pair_linked(s, a, b) && l == link_for(s, a, b),
        forall|l: DepLink| #[trigger] dents_of(s, b).contains(l) && l.pkg_key == s[a].key
            ==> pair_linked(s, a, b) && l == mirror_link_for(s, a, b),
{
    let n = s.len() as int;
    lemma_deps_upto_elems(s, a, n);
    lemma_dents_upto_elems(s, b, n);
    assert forall|l: DepLink| #[trigger] deps_of(s, a).contains(l) && l.pkg_key == s[b].key
        implies pair_linked(s, a, b) && l == link_for(s, a, b) by {
        let i = choose|i: int| 0 <= i < deps_of(s, a).len() && deps_of(s, a)[i] == l;
        let b2 = choose|b2: int| 0 <= b2 < n && pair_linked(s, a, b2)
            && deps_of(s, a)[i] == link_for(s, a, b2);
        assert(s[b2].key.idx == b2 && s[b].key.idx == b);
    }
    assert forall|l: DepLink| #[trigger] dents_of(s, b).contains(l) && l.pkg_key == s[a].key
        implies pair_linked(s, a, b) && l == mirror_link_for(s, a, b) by {
        let i = choose|i: int| 0 <= i < dents_of(s, b).len() && dents_of(s, b)[i] == l;
        let a2 = choose|a2: int| 0 <= a2 < n && pair_linked(s, a2, b)
            && dents_of(s, b)[i] == mirror_link_for(s, a2, b);
        assert(s[a2].key.idx == a2 && s[a].key.idx == a);
    }
}

/// Deduplication: an adjacency list holds at most one edge per distinct
/// target key — any two positions of `a`'s dependencies, and any two of
/// its dependents, name different neighbours.
pub proof fn lemma_adjacency_deduplicated(s: Seq<Pkg>, a: int)
    requires
        keys_in_place(s),
        0 <= a < s.len(),
    ensures
        forall|i: int, j: int| 0 <= i < j < deps_of(s, a).len()
            ==> (#[trigger] deps_of(s, a)[i]).pkg_key != (#[trigger] deps_of(s, a)[j]).pkg_key,
        forall|i: int, j: int| 0 <= i < j < dents_of(s, a).len()
            ==> (#[trigger] dents_of(s, a)[i]).pkg_key != (#[trigger] dents_of(s, a)[j]).pkg_key,
{
    let n = s.len() as int;
    lemma_deps_upto_keys_increase(s, a, n);
    lemma_dents_upto_keys_increase(s, a, n);
}

/// The graph reads only the name, the version, the requirement list and
/// the key of each package.
pub open spec fn graph_inputs_eq(s1: Seq<Pkg>, s2: Seq<Pkg>) -> bool {
    &&& s1.len() == s2.len()
    &&& forall|i: int| 0 <= i < s1.len() ==> {
        &&& (#[trigger] s1[i]).name == s2[i].name
        &&& s1[i].version == s2[i].version
        &&& s1[i].requirements == s2[i].requirements
        &&& s1[i].key == s2[i].key
    }
}

proof fn lemma_deps_upto_congruent(s1: Seq<Pkg>, s2: Seq<Pkg>, a: int, b: int, n: int)
    requires
        graph_inputs_eq(s1, s2),
        0 <= a < s1.len(),
        0 <= b < s1.len(),
        0 <= n <= s1.len(),
    ensures
        deps_upto(s1, a, n) == deps_upto(s2, a, n),
        dents_upto(s1, b, n) == dents_upto(s2, b, n),
    decreases n,
{
    if n > 0 {
        lemma_deps_upto_congruent(s1, s2, a, b, n - 1);
        lemma_pair_congruent(s1, s2, a, n - 1);
        lemma_pair_congruent(s1, s2, n - 1, b);
        if pair_linked(s1, a, n - 1) {
            lemma_link_congruent(s1, s2, a, n - 1);
        }
        if pair_linked(s1, n - 1, b) {
            lemma_link_congruent(s1, s2, n - 1, b);
        }
    }
}

proof fn lemma_pair_congruent(s1: Seq<Pkg>, s2: Seq<Pkg>, a: int, b: int)
    requires
        graph_inputs_eq(s1, s2),
        0 <= a < s1.len(),
        0 <= b < s1.len(),
    ensures
        pair_linked(s1, a, b) == pair_linked(s2, a, b),
{
    assert(s1[a].requirements@ == s2[a].requirements@);
    assert forall|i: int| 0 <= i < s1[a].requirements@.len()
        implies #[trigger] spec_matches(s1[a].requirements@[i], s1[b])
            == spec_matches(s2[a].requirements@[i], s2[b]) by {
        assert(s1[b].name@ == s2[b].name@ && s1[b].version@ == s2[b].version@);
    }
}

proof fn lemma_link_congruent(s1: Seq<Pkg>, s2: Seq<Pkg>, a: int, b: int)
    requires
        graph_inputs_eq(s1, s2),
        0 <= a < s1.len(),
        0 <= b < s1.len(),
        pair_linked(s1, a, b),
        pair_linked(s2, a, b),
    ensures
        link_for(s1, a, b) == link_for(s2, a, b),
        mirror_link_for(s1, a, b) == mirror_link_for(s2, a, b),
{
    lemma_first_match_from_congruent(s1, s2, a, b, 0);
}

proof fn lemma_first_match_from_congruent(s1: Seq<Pkg>, s2: Seq<Pkg>, a: int, b: int, k: int)
    requires
        graph_inputs_eq(s1, s2),
        0 <= a < s1.len(),
        0 <= b < s1.len(),
        0 <= k,
    ensures
        first_match_from(s1[a].requirements@, s1[b], k)
            == first_match_from(s2[a].requirements@, s2[b], k),
    decreases s1[a].requirements@.len() - k,
{
    assert(s1[a].requirements@ == s2[a].requirements@);
    if k < s1[a].requirements@.len() {
        assert(s1[b].name@ == s2[b].name@ && s1[b].version@ == s2[b].version@);
        if !spec_matches(s1[a].requirements@[k], s1[b]) {
            lemma_first_match_from_congruent(s1, s2, a, b, k + 1);
        }
    }
}

/// Two registry states that agree on every package's name, version,
/// requirements and key induce the same graph.
pub proof fn lemma_graph_congruence(s1: Seq<Pkg>, s2: Seq<Pkg>)
    requires
        graph_inputs_eq(s1, s2),
    ensures
        forall|a: int| 0 <= a < s1.len() ==> #[trigger] deps_of(s1, a) == deps_of(s2, a),
        forall|a: int| 0 <= a < s1.len() ==> #[trigger] dents_of(s1, a) == dents_of(s2, a),
{
    assert forall|a: int| 0 <= a < s1.len() implies #[trigger] deps_of(s1, a) == deps_of(s2, a) by {
        lemma_deps_upto_congruent(s1, s2, a, a, s1.len() as int);
        assert(deps_of(s2, a) == deps_upto(s2, a, s1.len() as int));
    }
    assert forall|a: int| 0 <= a < s1.len() implies #[trigger] dents_of(s1, a) == dents_of(s2, a) by {
        lemma_deps_upto_congruent(s1, s2, a, a, s1.len() as int);
        assert(dents_of(s2, a) == dents_upto(s2, a, s1.len() as int));
    }
}

} // verus!
