//! Package-list filtering: a compiled filter that selects packages by a
//! substring of their name, re-applied as the package list is navigated.

use vstd::prelude::*;
use vstd::utf8::encode_utf8;
use crate::pkg::{Pkg, PkgKey};
use crate::registry::Registry;

verus! {

/// `needle` occurs contiguously somewhere in `hay`.
pub open spec fn contains_bytes(hay: Seq<u8>, needle: Seq<u8>) -> bool {
    exists|k: int| 0 <= k <= hay.len() - needle.len()
        && #[trigger] hay.subrange(k, k + needle.len()) == needle
}

/// A compiled package-list filter: the byte string looked for.
pub struct PkgFilter {
    pub needle: String,
}

impl PkgFilter {
    /// The filter accepts a package when the filter text occurs in the
    /// package's name; the empty filter accepts everything.
    pub open spec fn accepts(self, p: Pkg) -> bool {
        contains_bytes(encode_utf8(p.name@), encode_utf8(self.needle@))
    }

    /// Compiles filter text into a filter.
    pub fn from_str(s: &str) -> (f: PkgFilter)
        ensures
            f.needle@ == s@,
    {
        PkgFilter { needle: s.to_owned() }
    }

    /// Whether the filter accepts `pkg`.
    pub fn matches(&self, pkg: &Pkg) -> (b: bool)
        ensures
            b == self.accepts(*pkg),
    {
        bytes_contain(pkg.name.as_str().as_bytes(), self.needle.as_str().as_bytes())
    }
}

/// Naive substring search over byte slices.
fn bytes_contain(hay: &[u8], needle: &[u8]) -> (b: bool)
    ensures
        b == contains_bytes(hay@, needle@),
{
    let nh = hay.len();
    let nn = needle.len();
    if nn > nh {
        return false;
    }
    if nn == 0 {
        proof {
            assert(contains_bytes(hay@, needle@)) by {
                assert(hay@.subrange(0, 0 + needle@.len() as int) =~= needle@);
            }
        }
        return true;
    }
    let limit = nh - nn;
    let mut k: usize = 0;
    while k <= limit
        invariant
            nh == hay@.len(),
            nn == needle@.len(),
            1 <= nn <= nh,
            limit == nh - nn,
            k <= limit + 1,
            forall|x: int| 0 <= x < k ==> #[trigger] hay@.subrange(x, x + nn) != needle@,
        decreases limit + 1 - k,
    {
        let mut j: usize = 0;
        let mut hit = true;
        while j < nn
            invariant
                j <= nn,
                nh == hay@.len(),
                nn == needle@.len(),
                k + nn <= nh,
                hit ==> forall|y: int| 0 <= y < j ==> hay@[k + y] == #[trigger] needle@[y],
                !hit ==> hay@.subrange(k as int, k + nn) != needle@,
            decreases nn - j,
        {
            if hay[k + j] != needle[j] {
                proof {
                    assert(hay@.subrange(k as int, k + nn)[j as int] == hay@[k + j]);
                }
                hit = false;
                j = nn;
            } else {
                j += 1;
            }
        }
        if hit {
            proof {
                assert(hay@.subrange(k as int, k + nn) =~= needle@);
            }
            return true;
        }
        k += 1;
    }
    proof {
        assert forall|x: int| 0 <= x <= hay@.len() - needle@.len()
            implies #[trigger] hay@.subrange(x, x + needle@.len()) != needle@ by {
            assert(0 <= x < k);
        }
    }
    false
}

/// Keys selected by `f`, looking at the first `n` packages only.
pub open spec fn filtered_upto(s: Seq<Pkg>, f: PkgFilter, n: int) -> Seq<PkgKey>
    decreases n,
{
    if n <= 0 {
        Seq::empty()
    } else if f.accepts(s[n - 1]) {
        filtered_upto(s, f, n - 1).push(s[n - 1].key)
    } else {
        filtered_upto(s, f, n - 1)
    }
}

/// The keys of every package the filter accepts, in registry order.
pub open spec fn filtered_keys(s: Seq<Pkg>, f: PkgFilter) -> Seq<PkgKey> {
    filtered_upto(s, f, s.len() as int)
}

/// Applies the filter to the whole registry: the keys of the accepted
/// packages, in registry order.
pub fn filter_pkgs(reg: &Registry, f: &PkgFilter) -> (r: Vec<PkgKey>)
    ensures
        r@ == filtered_keys(reg@, *f),
{
    let n = reg.len();
    let mut r: Vec<PkgKey> = Vec::new();
    let mut i: usize = 0;
    while i < n
        invariant
            i <= n,
            n == reg@.len(),
            r@ == filtered_upto(reg@, *f, i as int),
        decreases n - i,
    {
        if f.matches(reg.at(i)) {
            r.push(reg.at(i).key);
        }
        i += 1;
    }
    r
}

} // verus!
