//! The license index: groups every package of a registry by its declared
//! license string, for aggregate reporting.
//!
//! Packages without a license are grouped under a sentinel label.  Groups
//! appear in order of first occurrence, and within one group the keys keep
//! registry order.  The grouping is a pure function of the registry
//! contents, so recomputing it on the same packages yields the identical
//! grouping.

use vstd::prelude::*;
use crate::pkg::{Pkg, PkgKey};
use crate::registry::Registry;

verus! {

/// One group of the license index: a license string and the keys of every
/// package declaring it, in registry order.
pub struct LicenseGroup {
    pub license: String,
    pub pkgs: Vec<PkgKey>,
}

/// Mathematical image of one group.
pub struct GroupModel {
    pub license: Seq<char>,
    pub pkgs: Seq<PkgKey>,
}

impl View for LicenseGroup {
    type V = GroupModel;

    open spec fn view(&self) -> GroupModel {
        GroupModel { license: self.license@, pkgs: self.pkgs@ }
    }
}

/// The sentinel label that stands in for a missing license string.
pub fn no_license_label() -> (s: &'static str)
    ensures
        s@ == spec_no_license_label(),
{
    "<no license>"
}

pub open spec fn spec_no_license_label() -> Seq<char> {
    "<no license>"@
}

/// The license a package is grouped under: its declared license string, or
/// the sentinel when it declares none.
pub open spec fn license_of(p: Pkg) -> Seq<char> {
    match p.license {
        Some(l) => l@,
        None => spec_no_license_label(),
    }
}

/// Files key `k` under license `lic`: appended to the existing group with
/// that license, or to a fresh group at the end when none exists yet.
pub open spec fn group_insert(gs: Seq<GroupModel>, lic: Seq<char>, k: PkgKey) -> Seq<GroupModel>
    decreases gs.len(),
{
    if gs.len() == 0 {
        seq![GroupModel { license: lic, pkgs: seq![k] }]
    } else if gs[0].license == lic {
        seq![GroupModel { license: lic, pkgs: gs[0].pkgs.push(k) }] + gs.drop_first()
    } else {
        seq![gs[0]] + group_insert(gs.drop_first(), lic, k)
    }
}

/// The index over the first `n` packages of the registry.
pub open spec fn groups_upto(s: Seq<Pkg>, n: int) -> Seq<GroupModel>
    decreases n,
{
    if n <= 0 {
        Seq::empty()
    } else {
        group_insert(groups_upto(s, n - 1), license_of(s[n - 1]), s[n - 1].key)
    }
}

/// The full license index of a registry's packages.
pub open spec fn license_groups_of(s: Seq<Pkg>) -> Seq<GroupModel> {
    groups_upto(s, s.len() as int)
}

/// Inserting under a license already present extends that group in place.
proof fn lemma_group_insert_found(gs: Seq<GroupModel>, lic: Seq<char>, k: PkgKey, j: int)
    requires
        0 <= j < gs.len(),
        gs[j].license == lic,
        forall|jj: int| 0 <= jj < j ==> (#[trigger] gs[jj]).license != lic,
    ensures
        group_insert(gs, lic, k) == gs.update(
            j,
            GroupModel { license: gs[j].license, pkgs: gs[j].pkgs.push(k) },
        ),
    decreases gs.len(),
{
    if j == 0 {
        assert(group_insert(gs, lic, k) =~= gs.update(
            0,
            GroupModel { license: gs[0].license, pkgs: gs[0].pkgs.push(k) },
        ));
    } else {
        assert(forall|jj: int| 0 <= jj < j - 1
            ==> (#[trigger] gs.drop_first()[jj]).license == gs[jj + 1].license);
        lemma_group_insert_found(gs.drop_first(), lic, k, j - 1);
        assert(group_insert(gs, lic, k) =~= gs.update(
            j,
            GroupModel { license: gs[j].license, pkgs: gs[j].pkgs.push(k) },
        ));
    }
}

/// Inserting under a license not yet present appends a fresh group.
proof fn lemma_group_insert_absent(gs: Seq<GroupModel>, lic: Seq<char>, k: PkgKey)
    requires
        forall|jj: int| 0 <= jj < gs.len() ==> (#[trigger] gs[jj]).license != lic,
    ensures
        group_insert(gs, lic, k) == gs.push(GroupModel { license: lic, pkgs: seq![k] }),
    decreases gs.len(),
{
    if gs.len() > 0 {
        lemma_group_insert_absent(gs.drop_first(), lic, k);
    }
    assert(group_insert(gs, lic, k) =~= gs.push(GroupModel { license: lic, pkgs: seq![k] }));
}

/// Finds the first group already carrying license `lic`, if any.
fn find_group(groups: &Vec<LicenseGroup>, lic: &String) -> (r: Option<usize>)
    ensures
        r matches Some(j) ==> j < groups@.len() && groups@[j as int]@.license == lic@
            && (forall|x: int| 0 <= x < j ==> (#[trigger] groups@[x])@.license != lic@),
        r is None ==> forall|x: int| 0 <= x < groups@.len()
            ==> (#[trigger] groups@[x])@.license != lic@,
{
    let m = groups.len();
    let mut j: usize = 0;
    while j < m
        invariant
            j <= m,
            m == groups@.len(),
            forall|x: int| 0 <= x < j ==> (#[trigger] groups@[x])@.license != lic@,
        decreases m - j,
    {
        if groups[j].license == *lic {
            return Some(j);
        }
        j += 1;
    }
    None
}

/// Computes the license index of the registry: one group per distinct
/// license (absent licenses under the sentinel), groups in order of first
/// occurrence, keys in registry order.
pub fn compute_license_map(reg: &Registry) -> (groups: Vec<LicenseGroup>)
    ensures
        groups@.map_values(|g: LicenseGroup| g@) == license_groups_of(reg@),
{
    let n = reg.len();
    let mut groups: Vec<LicenseGroup> = Vec::new();
    let mut i: usize = 0;
    while i < n
        invariant
            i <= n,
            n == reg@.len(),
            groups@.map_values(|g: LicenseGroup| g@) == groups_upto(reg@, i as int),
        decreases n - i,
    {
        let p = reg.at(i);
        let lic: String = match &p.license {
            Some(l) => l.clone(),
            None => no_license_label().to_owned(),
        };
        let found = find_group(&groups, &lic);
        proof {
            assert(groups@.map_values(|g: LicenseGroup| g@).len() == groups@.len());
        }
        match found {
            Some(jj) => {
                proof {
                    lemma_group_insert_found(
                        groups@.map_values(|g: LicenseGroup| g@),
                        lic@,
                        p.key,
                        jj as int,
                    );
                }
                groups[jj].pkgs.push(p.key);
                assert(groups@.map_values(|g: LicenseGroup| g@) =~= groups_upto(reg@, i + 1));
            },
            None => {
                proof {
                    lemma_group_insert_absent(
                        groups@.map_values(|g: LicenseGroup| g@),
                        lic@,
                        p.key,
                    );
                }
                let mut fresh: Vec<PkgKey> = Vec::new();
                fresh.push(p.key);
                groups.push(LicenseGroup { license: lic, pkgs: fresh });
                assert(groups@.map_values(|g: LicenseGroup| g@) =~= groups_upto(reg@, i + 1));
            },
        }
        i += 1;
    }
    groups
}

/// No two groups of the index carry the same license string.
pub proof fn lemma_license_groups_distinct(s: Seq<Pkg>)
    ensures
        forall|i: int, j: int| 0 <= i < j < license_groups_of(s).len()
            ==> (#[trigger] license_groups_of(s)[i]).license
                != (#[trigger] license_groups_of(s)[j]).license,
{
    lemma_groups_upto_distinct(s, s.len() as int);
}

proof fn lemma_groups_upto_distinct(s: Seq<Pkg>, n: int)
    ensures
        forall|i: int, j: int| 0 <= i < j < groups_upto(s, n).len()
            ==> (#[trigger] groups_upto(s, n)[i]).license != (#[trigger] groups_upto(s, n)[j]).license,
    decreases n,
{
    if n > 0 {
        lemma_groups_upto_distinct(s, n - 1);
        lemma_group_insert_distinct(groups_upto(s, n - 1), license_of(s[n - 1]), s[n - 1].key);
    }
}


/// `group_insert` keeps the licenses of a grouping pairwise distinct, and
/// never changes which licenses are present beyond possibly adding `lic`.
proof fn lemma_group_insert_distinct(gs: Seq<GroupModel>, lic: Seq<char>, k: PkgKey)
    requires
        forall|i: int, j: int| 0 <= i < j < gs.len()
            ==> (#[trigger] gs[i]).license != (#[trigger] gs[j]).license,
    ensures
        gs.len() <= group_insert(gs, lic, k).len() <= gs.len() + 1,
        forall|i: int| 0 <= i < gs.len()
            ==> (#[trigger] group_insert(gs, lic, k)[i]).license == gs[i].license,
        group_insert(gs, lic, k).len() == gs.len() + 1
            ==> group_insert(gs, lic, k).last().license == lic,
        forall|i: int, j: int| 0 <= i < j < group_insert(gs, lic, k).len()
            ==> (#[trigger] group_insert(gs, lic, k)[i]).license
                != (#[trigger] group_insert(gs, lic, k)[j]).license,
    decreases gs.len(),
{
    let out = group_insert(gs, lic, k);
    if gs.len() == 0 {
        assert(out.len() == 1 && out.last().license == lic);
    } else if gs[0].license == lic {
        assert forall|i: int| 0 <= i < gs.len() implies (#[trigger] out[i]).license == gs[i].license by {
            if i > 0 {
                assert(out[i] == gs.drop_first()[i - 1]);
            }
        }
    } else {
        lemma_group_insert_distinct(gs.drop_first(), lic, k);
        let inner = group_insert(gs.drop_first(), lic, k);
        assert forall|i: int| 0 <= i < gs.len() implies (#[trigger] out[i]).license == gs[i].license by {
            if i > 0 {
                assert(out[i] == inner[i - 1]);
                assert(inner[i - 1].license == gs.drop_first()[i - 1].license);
                assert(gs.drop_first()[i - 1] == gs[i]);
            }
        }
        if inner.len() == gs.drop_first().len() + 1 {
            assert(out.last() == inner.last());
        }
        assert forall|i: int, j: int| 0 <= i < j < out.len()
            implies (#[trigger] out[i]).license != (#[trigger] out[j]).license by {
            assert(out[j] == inner[j - 1]);
            if j - 1 < gs.drop_first().len() {
                assert(inner[j - 1].license == gs.drop_first()[j - 1].license);
                assert(gs.drop_first()[j - 1] == gs[j]);
            } else {
                assert(inner[j - 1] == inner.last());
            }
            if i > 0 {
                assert(out[i] == inner[i - 1]);
            }
        }
    }
}

/// The keys of the packages carrying license `lic`, among the first `n`
/// packages, in registry order.
pub open spec fn keys_with_license(s: Seq<Pkg>, lic: Seq<char>, n: int) -> Seq<PkgKey>
    decreases n,
{
    if n <= 0 {
        Seq::empty()
    } else if license_of(s[n - 1]) == lic {
        keys_with_license(s, lic, n - 1).push(s[n - 1].key)
    } else {
        keys_with_license(s, lic, n - 1)
    }
}

/// Each group holds exactly the keys of the packages carrying its
/// license, in registry order.
pub proof fn lemma_license_groups_characterized(s: Seq<Pkg>)
    ensures
        forall|j: int| 0 <= j < license_groups_of(s).len()
            ==> (#[trigger] license_groups_of(s)[j]).pkgs
                == keys_with_license(s, license_groups_of(s)[j].license, s.len() as int),
{
    lemma_groups_upto_char(s, s.len() as int);
}

proof fn lemma_groups_upto_char(s: Seq<Pkg>, n: int)
    requires
        0 <= n <= s.len(),
    ensures
        forall|j: int| 0 <= j < groups_upto(s, n).len()
            ==> (#[trigger] groups_upto(s, n)[j]).pkgs
                == keys_with_license(s, groups_upto(s, n)[j].license, n),
        forall|lic: Seq<char>| #[trigger] keys_with_license(s, lic, n).len() > 0
            ==> exists|j: int| 0 <= j < groups_upto(s, n).len()
                && (#[trigger] groups_upto(s, n)[j]).license == lic,
    decreases n,
{
    if n <= 0 {
        return;
    }
    lemma_groups_upto_char(s, n - 1);
    lemma_groups_upto_distinct(s, n - 1);
    let prev = groups_upto(s, n - 1);
    let out = groups_upto(s, n);
    let lic_n = license_of(s[n - 1]);
    let k = s[n - 1].key;
    if exists|j: int| 0 <= j < prev.len() && (#[trigger] prev[j]).license == lic_n {
        let j0 = choose|j0: int| 0 <= j0 < prev.len() && (#[trigger] prev[j0]).license == lic_n;
        assert forall|jj: int| 0 <= jj < j0 implies (#[trigger] prev[jj]).license != lic_n by {}
        lemma_group_insert_found(prev, lic_n, k, j0);
        assert forall|j: int| 0 <= j < out.len()
            implies (#[trigger] out[j]).pkgs == keys_with_license(s, out[j].license, n) by {
            if j == j0 {
                assert(out[j0].pkgs == prev[j0].pkgs.push(k));
            } else {
                assert(out[j] == prev[j]);
                assert(prev[j].license != lic_n);
            }
        }
        assert forall|lic: Seq<char>| #[trigger] keys_with_license(s, lic, n).len() > 0
            implies exists|j: int| 0 <= j < out.len() && (#[trigger] out[j]).license == lic by {
            if lic == lic_n {
                assert(out[j0].license == lic);
            } else {
                assert(keys_with_license(s, lic, n) == keys_with_license(s, lic, n - 1));
                let j = choose|j: int| 0 <= j < prev.len() && (#[trigger] prev[j]).license == lic;
                assert(out[j].license == lic);
            }
        }
    } else {
        lemma_group_insert_absent(prev, lic_n, k);
        assert(out == prev.push(GroupModel { license: lic_n, pkgs: seq![k] }));
        assert(keys_with_license(s, lic_n, n - 1).len() == 0) by {
            if keys_with_license(s, lic_n, n - 1).len() > 0 {
                let j = choose|j: int| 0 <= j < prev.len() && (#[trigger] prev[j]).license == lic_n;
            }
        }
        assert forall|j: int| 0 <= j < out.len()
            implies (#[trigger] out[j]).pkgs == keys_with_license(s, out[j].license, n) by {
            if j < prev.len() {
                assert(out[j] == prev[j]);
                assert(prev[j].license != lic_n);
            } else {
                assert(out[j].license == lic_n && out[j].pkgs == seq![k]);
                assert(keys_with_license(s, lic_n, n)
                    =~= keys_with_license(s, lic_n, n - 1).push(k));
                assert(keys_with_license(s, lic_n, n) =~= seq![k]);
            }
        }
        assert forall|lic: Seq<char>| #[trigger] keys_with_license(s, lic, n).len() > 0
            implies exists|j: int| 0 <= j < out.len() && (#[trigger] out[j]).license == lic by {
            if lic == lic_n {
                assert(out[out.len() - 1].license == lic);
            } else {
                assert(keys_with_license(s, lic, n) == keys_with_license(s, lic, n - 1));
                let j = choose|j: int| 0 <= j < prev.len() && (#[trigger] prev[j]).license == lic;
                assert(out[j].license == lic);
            }
        }
    }
}

/// Every package is filed in the index: its key stands in a group carrying
/// its license.
pub proof fn lemma_license_groups_complete(s: Seq<Pkg>, i: int)
    requires
        0 <= i < s.len(),
    ensures
        exists|j: int| 0 <= j < license_groups_of(s).len()
            && (#[trigger] license_groups_of(s)[j]).license == license_of(s[i])
            && license_groups_of(s)[j].pkgs.contains(s[i].key),
{
    let j = lemma_groups_upto_complete(s, i, s.len() as int);
    assert(0 <= j < license_groups_of(s).len()
        && (#[trigger] license_groups_of(s)[j]).license == license_of(s[i])
        && license_groups_of(s)[j].pkgs.contains(s[i].key));
}

/// Position of the group that files package `i`, looking at the first `n`
/// packages only.
proof fn lemma_groups_upto_complete(s: Seq<Pkg>, i: int, n: int) -> (j: int)
    requires
        0 <= i < n,
    ensures
        0 <= j < groups_upto(s, n).len(),
        groups_upto(s, n)[j].license == license_of(s[i]),
        groups_upto(s, n)[j].pkgs.contains(s[i].key),
    decreases n,
{
    let prev = groups_upto(s, n - 1);
    let lic = license_of(s[n - 1]);
    let k = s[n - 1].key;
    if i == n - 1 {
        lemma_group_insert_files(prev, lic, k)
    } else {
        let j0 = lemma_groups_upto_complete(s, i, n - 1);
        lemma_group_insert_extends(prev, lic, k, j0)
    }
}

/// Position, after an insertion, of a group that carries the inserted
/// key under its license.
proof fn lemma_group_insert_files(gs: Seq<GroupModel>, lic: Seq<char>, k: PkgKey) -> (j: int)
    ensures
        0 <= j < group_insert(gs, lic, k).len(),
        group_insert(gs, lic, k)[j].license == lic,
        group_insert(gs, lic, k)[j].pkgs.contains(k),
    decreases gs.len(),
{
    let out = group_insert(gs, lic, k);
    if gs.len() == 0 {
        assert(out[0].pkgs[0] == k);
        assert(out[0].pkgs.contains(k));
        0
    } else if gs[0].license == lic {
        assert(out[0].pkgs == gs[0].pkgs.push(k));
        assert(out[0].pkgs[out[0].pkgs.len() - 1] == k);
        assert(out[0].pkgs.contains(k));
        0
    } else {
        let j0 = lemma_group_insert_files(gs.drop_first(), lic, k);
        let inner = group_insert(gs.drop_first(), lic, k);
        assert(out[j0 + 1] == inner[j0]);
        j0 + 1
    }
}

/// Position, after an insertion, of the group that still carries
/// everything group `j` carried before it.
proof fn lemma_group_insert_extends(gs: Seq<GroupModel>, lic: Seq<char>, k: PkgKey, j: int) -> (j2: int)
    requires
        0 <= j < gs.len(),
    ensures
        0 <= j2 < group_insert(gs, lic, k).len(),
        group_insert(gs, lic, k)[j2].license == gs[j].license,
        forall|x: PkgKey| gs[j].pkgs.contains(x)
            ==> #[trigger] group_insert(gs, lic, k)[j2].pkgs.contains(x),
    decreases gs.len(),
{
    let out = group_insert(gs, lic, k);
    if gs[0].license == lic {
        if j == 0 {
            assert(out[0].pkgs == gs[0].pkgs.push(k));
            assert forall|x: PkgKey| gs[0].pkgs.contains(x)
                implies #[trigger] out[0].pkgs.contains(x) by {
                let ix = choose|ix: int| 0 <= ix < gs[0].pkgs.len() && gs[0].pkgs[ix] == x;
                assert(out[0].pkgs[ix] == x);
            }
            0
        } else {
            assert(out[j] == gs.drop_first()[j - 1]);
            assert(out[j] == gs[j]);
            j
        }
    } else if j == 0 {
        assert(out[0] == gs[0]);
        0
    } else {
        let j0 = lemma_group_insert_extends(gs.drop_first(), lic, k, j - 1);
        let inner = group_insert(gs.drop_first(), lic, k);
        assert(out[j0 + 1] == inner[j0]);
        assert(gs.drop_first()[j - 1] == gs[j]);
        assert forall|x: PkgKey| gs[j].pkgs.contains(x)
            implies #[trigger] out[j0 + 1].pkgs.contains(x) by {
            assert(gs.drop_first()[j - 1].pkgs.contains(x));
            assert(inner[j0].pkgs.contains(x));
        }
        j0 + 1
    }
}

} // verus!
