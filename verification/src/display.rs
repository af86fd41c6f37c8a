//! What the command line shows of an analysis: the packages by size and
//! the stored packages flagged as risky.
use vstd::prelude::*;
use crate::models::{DbPackage, Package};
use crate::text::{chars_eq, chars_of};

verus! {

/// The size of a package, 0 when unknown.
pub open spec fn size_key(p: Package) -> u64 {
    match p.installed_size {
        Some(s) => s,
        None => 0,
    }
}

/// Package `a` comes before package `b` (both by index) in the size
/// ranking: it is larger, or as large and listed earlier.
pub open spec fn ranks_before(ps: Seq<Package>, a: int, b: int) -> bool {
    size_key(ps[a]) > size_key(ps[b]) || (size_key(ps[a]) == size_key(ps[b]) && a < b)
}

/// `r` ranks the packages of known size by size: it holds each index of a
/// package with a known size once, largest first, packages of equal size in
/// their listed order.
pub open spec fn size_ranking(ps: Seq<Package>, r: Seq<usize>) -> bool {
    &&& forall|k: int| 0 <= k < r.len() ==> (#[trigger] r[k]) < ps.len() && ps[r[k] as int].installed_size is Some
    &&& forall|i: int| 0 <= i < ps.len() && (#[trigger] ps[i]).installed_size is Some ==> r.contains(i as usize)
    &&& forall|a: int, b: int| 0 <= a < b < r.len() ==> ranks_before(ps, r[a] as int, r[b] as int)
}

/// The size of a package, 0 when unknown.
fn size_or_zero(p: &Package) -> (r: u64)
    ensures
        r == size_key(*p),
{
    match p.installed_size {
        Some(x) => x,
        None => 0,
    }
}

/// The indices of the packages of known size, largest first; packages of
/// equal size keep their order.
pub fn packages_by_size(ps: &Vec<Package>) -> (r: Vec<usize>)
    ensures
        size_ranking(ps@, r@),
{
    let mut r: Vec<usize> = Vec::new();
    let mut i: usize = 0;
    while i < ps.len()
        invariant
            i <= ps.len(),
            forall|k: int| 0 <= k < r@.len() ==> (#[trigger] r@[k]) < i && ps@[r@[k] as int].installed_size is Some,
            forall|j: int| 0 <= j < i && (#[trigger] ps@[j]).installed_size is Some ==> r@.contains(j as usize),
            forall|a: int, b: int| 0 <= a < b < r@.len() ==> ranks_before(ps@, r@[a] as int, r@[b] as int),
        decreases ps.len() - i,
    {
        match ps[i].installed_size {
            Some(s) => {
                let mut p: usize = 0;
                while p < r.len() && size_or_zero(&ps[r[p]]) >= s
                    invariant
                        p <= r@.len(),
                        forall|k: int| 0 <= k < r@.len() ==> (#[trigger] r@[k]) < i && ps@[r@[k] as int].installed_size is Some,
                        i < ps@.len(),
                        size_key(ps@[i as int]) == s,
                        forall|k: int| 0 <= k < p ==> size_key(ps@[(#[trigger] r@[k]) as int]) >= s,
                    decreases r@.len() - p,
                {
                    p += 1;
                }
                let ghost old_r = r@;
                r.insert(p, i);
                proof {
                    assert forall|a: int, b: int| 0 <= a < b < r@.len() implies ranks_before(
                        ps@,
                        r@[a] as int,
                        r@[b] as int,
                    ) by {
                        if b < p {
                            assert(r@[a] == old_r[a] && r@[b] == old_r[b]);
                        } else if b == p {
                            assert(r@[a] == old_r[a]);
                            assert(r@[b] == i);
                            assert(size_key(ps@[old_r[a] as int]) >= s);
                        } else if a == p {
                            assert(r@[b] == old_r[b - 1]);
                            assert(r@[a] == i);
                            assert(size_key(ps@[old_r[p as int] as int]) < s);
                            if b - 1 > p {
                                assert(ranks_before(ps@, old_r[p as int] as int, old_r[b - 1] as int));
                            }
                        } else if a < p {
                            assert(r@[a] == old_r[a] && r@[b] == old_r[b - 1]);
                        } else {
                            assert(r@[a] == old_r[a - 1] && r@[b] == old_r[b - 1]);
                        }
                    }
                    assert forall|j: int| 0 <= j < i + 1 && (#[trigger] ps@[j]).installed_size is Some implies r@.contains(j as usize) by {
                        if j < i {
                            let k = choose|k: int| 0 <= k < old_r.len() && old_r[k] == j as usize;
                            if k < p {
                                assert(r@[k] == j as usize);
                            } else {
                                assert(r@[k + 1] == j as usize);
                            }
                        } else {
                            assert(r@[p as int] == i);
                        }
                    }
                }
            },
            None => {},
        }
        i += 1;
    }
    r
}

/// A stored package is flagged when its risk level reads `High` or
/// `Critical`.
pub open spec fn flagged(p: DbPackage) -> bool {
    match p.risk_level {
        Some(l) => l@ == "High"@ || l@ == "Critical"@,
        None => false,
    }
}

/// The indices, in order, of the stored packages that are flagged.
pub open spec fn flagged_from(ps: Seq<DbPackage>, n: int) -> Seq<usize>
    decreases n,
{
    if n <= 0 {
        seq![]
    } else if flagged(ps[n - 1]) {
        flagged_from(ps, n - 1).push((n - 1) as usize)
    } else {
        flagged_from(ps, n - 1)
    }
}

/// The stored packages whose risk level reads `High` or `Critical`, by
/// index.
pub fn flagged_packages(ps: &Vec<DbPackage>) -> (r: Vec<usize>)
    ensures
        r@ == flagged_from(ps@, ps@.len() as int),
{
    let high = chars_of("High");
    let critical = chars_of("Critical");
    let mut r: Vec<usize> = Vec::new();
    let mut i: usize = 0;
    while i < ps.len()
        invariant
            i <= ps.len(),
            high@ == "High"@,
            critical@ == "Critical"@,
            r@ == flagged_from(ps@, i as int),
        decreases ps.len() - i,
    {
        let hit = match &ps[i].risk_level {
            Some(l) => {
                let c = chars_of(l.as_str());
                chars_eq(c.as_slice(), high.as_slice()) || chars_eq(c.as_slice(), critical.as_slice())
            },
            None => false,
        };
        if hit {
            r.push(i);
        }
        i += 1;
    }
    r
}

} // verus!
