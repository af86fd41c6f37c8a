//! The health score of a package: security, maintenance, bus factor and
//! stability points, 0 to 100 in all.
use vstd::prelude::*;
use crate::models::{Package, Severity, Vulnerability};
use crate::text::{chars_of, contains, contains_chars, starts_with, starts_with_chars};

verus! {

/// Security points that a vulnerability of each severity costs.
pub open spec fn vuln_penalty(s: Severity) -> int {
    match s {
        Severity::Critical => 15,
        Severity::High => 10,
        Severity::Medium => 5,
        Severity::Low => 2,
        Severity::Unrated => 0,
    }
}

/// The security points that a list of vulnerabilities costs.
pub open spec fn penalty_sum(v: Seq<Vulnerability>) -> int
    decreases v.len(),
{
    if v.len() == 0 {
        0
    } else {
        penalty_sum(v.drop_last()) + vuln_penalty(v.last().severity)
    }
}

/// Security points: 35, less the cost of each vulnerability, not below 0.
pub open spec fn security_points(v: Seq<Vulnerability>) -> int {
    if 35 - penalty_sum(v) < 0 {
        0
    } else {
        35 - penalty_sum(v)
    }
}

/// Points lost for the time since the last release.
pub open spec fn staleness_penalty(days: Option<u64>) -> int {
    match days {
        Some(d) => if d > 365 {
            15
        } else if d > 180 {
            8
        } else if d > 90 {
            3
        } else {
            0
        },
        None => 0,
    }
}

/// Maintenance points: 25, less the staleness penalty, 5 less without
/// maintainers and 5 more with three or more, kept within 0 to 30.
pub open spec fn maintenance_points(days: Option<u64>, maintainers: nat) -> int {
    let m = 25 - staleness_penalty(days) + if maintainers == 0 {
        -5int
    } else if maintainers >= 3 {
        5int
    } else {
        0int
    };
    if m > 30 {
        30
    } else if m < 0 {
        0
    } else {
        m
    }
}

/// Bus factor points.
pub open spec fn bus_points(bus_factor: Option<u32>) -> int {
    match bus_factor {
        Some(bf) => if bf <= 1 {
            5
        } else if bf == 2 {
            12
        } else if bf <= 5 {
            17
        } else {
            20
        },
        None => 10,
    }
}

/// A pre-1.0 version (`0.` prefix).
pub open spec fn is_zero_major(v: Seq<char>) -> bool {
    starts_with(v, "0."@)
}

/// Stability points: 20, 8 less for a `0.` version, 10 less for an alpha,
/// beta or release candidate, 15 less for a dev or nightly build, not below 0.
pub open spec fn stability_points(v: Seq<char>) -> int {
    let s = 20 - (if is_zero_major(v) {
        8int
    } else {
        0int
    }) - (if contains(v, "-alpha"@) || contains(v, "-beta"@) || contains(v, "-rc"@) {
        10int
    } else {
        0int
    }) - (if contains(v, "-dev"@) || contains(v, "-nightly"@) {
        15int
    } else {
        0int
    });
    if s < 0 {
        0
    } else {
        s
    }
}

/// The sum of the four parts of the health score.
pub open spec fn health_total(p: Package) -> int {
    security_points(p.vulnerabilities@) + maintenance_points(
        p.last_release_days,
        p.maintainers@.len(),
    ) + bus_points(p.bus_factor) + stability_points(p.version@)
}

/// The health score: the four parts added up, at most 100.
pub open spec fn health_points(p: Package) -> int {
    if health_total(p) > 100 {
        100
    } else {
        health_total(p)
    }
}

/// The security points of a package.
fn security(v: &Vec<Vulnerability>) -> (r: u32)
    ensures
        r == security_points(v@),
        r <= 35,
{
    let mut cost: u32 = 0;
    let mut i: usize = 0;
    while i < v.len()
        invariant
            i <= v.len(),
            cost == if penalty_sum(v@.take(i as int)) > 35 {
                35
            } else {
                penalty_sum(v@.take(i as int))
            },
            penalty_sum(v@.take(i as int)) >= 0,
        decreases v.len() - i,
    {
        let p: u32 = match v[i].severity {
            Severity::Critical => 15,
            Severity::High => 10,
            Severity::Medium => 5,
            Severity::Low => 2,
            Severity::Unrated => 0,
        };
        assert(v@.take(i + 1).drop_last() =~= v@.take(i as int));
        cost = if cost + p > 35 {
            35
        } else {
            cost + p
        };
        i += 1;
    }
    assert(v@.take(v.len() as int) =~= v@);
    35 - cost
}

/// The stability points of a version.
fn stability(version: &String) -> (r: u32)
    ensures
        r == stability_points(version@),
        r <= 20,
{
    let v = chars_of(version.as_str());
    let mut s: i32 = 20;
    if starts_with_chars(v.as_slice(), chars_of("0.").as_slice()) {
        s -= 8;
    }
    if contains_chars(v.as_slice(), chars_of("-alpha").as_slice()) || contains_chars(
        v.as_slice(),
        chars_of("-beta").as_slice(),
    ) || contains_chars(v.as_slice(), chars_of("-rc").as_slice()) {
        s -= 10;
    }
    if contains_chars(v.as_slice(), chars_of("-dev").as_slice()) || contains_chars(
        v.as_slice(),
        chars_of("-nightly").as_slice(),
    ) {
        s -= 15;
    }
    if s < 0 {
        0
    } else {
        s as u32
    }
}

/// The health score of a package, in whole points from 0 to 100.
pub fn calculate(pkg: &Package) -> (r: u32)
    ensures
        r == health_points(*pkg),
        r <= 100,
{
    let security = security(&pkg.vulnerabilities);
    let mut maintenance: i32 = 25;
    match pkg.last_release_days {
        Some(days) => {
            if days > 365 {
                maintenance -= 15;
            } else if days > 180 {
                maintenance -= 8;
            } else if days > 90 {
                maintenance -= 3;
            }
        },
        None => {},
    }
    let maintainer_count = pkg.maintainers.len();
    if maintainer_count == 0 {
        maintenance -= 5;
    } else if maintainer_count >= 3 {
        maintenance += 5;
    }
    let maintenance: u32 = if maintenance > 30 {
        30
    } else if maintenance < 0 {
        0
    } else {
        maintenance as u32
    };
    let bus: u32 = match pkg.bus_factor {
        Some(bf) => if bf <= 1 {
            5
        } else if bf == 2 {
            12
        } else if bf <= 5 {
            17
        } else {
            20
        },
        None => 10,
    };
    let stability = stability(&pkg.version);
    let total = security + maintenance + bus + stability;
    if total > 100 {
        100
    } else {
        total
    }
}

/// Adding a vulnerability to a package never raises its security points.
pub proof fn lemma_vulnerability_never_helps(v: Seq<Vulnerability>, extra: Vulnerability)
    ensures
        security_points(v.push(extra)) <= security_points(v),
{
    assert(v.push(extra).drop_last() =~= v);
}


/// Adding a vulnerability to a package never raises its health score.
pub proof fn lemma_vulnerability_never_raises_health(p: Package, q: Package, extra: Vulnerability)
    requires
        q.vulnerabilities@ == p.vulnerabilities@.push(extra),
        q.maintainers@.len() == p.maintainers@.len(),
        q.bus_factor == p.bus_factor,
        q.last_release_days == p.last_release_days,
        q.version@ == p.version@,
    ensures
        health_points(q) <= health_points(p),
{
    lemma_vulnerability_never_helps(p.vulnerabilities@, extra);
}

/// The health score is never negative.
pub proof fn lemma_health_in_range(p: Package)
    ensures
        0 <= health_points(p) <= 100,
{
    lemma_penalty_nonneg(p.vulnerabilities@);
}

proof fn lemma_penalty_nonneg(v: Seq<Vulnerability>)
    ensures
        penalty_sum(v) >= 0,
    decreases v.len(),
{
    if v.len() > 0 {
        lemma_penalty_nonneg(v.drop_last());
    }
}

} // verus!
