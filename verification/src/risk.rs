//! The risk level of a package.
use vstd::prelude::*;
use crate::models::{Package, RiskLevel, Severity, Vulnerability};
use crate::text::{chars_of, contains, contains_chars, starts_with, starts_with_chars};

verus! {

/// Some vulnerability in the list has this severity.
pub open spec fn has_severity(v: Seq<Vulnerability>, s: Severity) -> bool {
    exists|i: int| 0 <= i < v.len() && v[i].severity == s
}

/// Risk points from known vulnerabilities.
pub open spec fn cve_risk(v: Seq<Vulnerability>) -> int {
    (if has_severity(v, Severity::Critical) {
        40int
    } else {
        0int
    }) + (if has_severity(v, Severity::High) {
        25int
    } else {
        0int
    }) + (if v.len() > 2 {
        15int
    } else {
        0int
    })
}

/// Risk points from a small or unknown number of maintainers.
pub open spec fn bus_risk(bus_factor: Option<u32>) -> int {
    match bus_factor {
        Some(bf) => if bf <= 1 {
            20
        } else if bf <= 2 {
            10
        } else {
            0
        },
        None => 15,
    }
}

/// Risk points from abandonment.
pub open spec fn abandonment_risk(days: Option<u64>) -> int {
    match days {
        Some(d) => if d > 365 {
            20
        } else if d > 180 {
            10
        } else if d > 90 {
            5
        } else {
            0
        },
        None => 10,
    }
}

/// Risk points from a pre-release version.
pub open spec fn prerelease_risk(v: Seq<char>) -> int {
    (if starts_with(v, "0."@) {
        5int
    } else {
        0int
    }) + (if contains(v, "-alpha"@) || contains(v, "-beta"@) {
        10int
    } else {
        0int
    })
}

/// All risk points of a package.
pub open spec fn risk_points(p: Package) -> int {
    cve_risk(p.vulnerabilities@) + bus_risk(p.bus_factor) + abandonment_risk(p.last_release_days)
        + prerelease_risk(p.version@)
}

/// The level for a number of risk points: up to 20 low, up to 40 medium,
/// up to 60 high, above that critical.
pub open spec fn level_for(points: int) -> RiskLevel {
    if points <= 20 {
        RiskLevel::Low
    } else if points <= 40 {
        RiskLevel::Medium
    } else if points <= 60 {
        RiskLevel::High
    } else {
        RiskLevel::Critical
    }
}

/// The rank of a risk level, from `Low` (0) to `Critical` (3).
pub open spec fn risk_rank(r: RiskLevel) -> int {
    match r {
        RiskLevel::Low => 0,
        RiskLevel::Medium => 1,
        RiskLevel::High => 2,
        RiskLevel::Critical => 3,
    }
}

fn has(v: &Vec<Vulnerability>, s: Severity) -> (r: bool)
    ensures
        r == has_severity(v@, s),
{
    let mut i: usize = 0;
    while i < v.len()
        invariant
            i <= v.len(),
            forall|k: int| 0 <= k < i ==> v@[k].severity != s,
        decreases v.len() - i,
    {
        if v[i].severity == s {
            return true;
        }
        i += 1;
    }
    false
}

/// The risk level of a package.
pub fn assess(pkg: &Package) -> (r: RiskLevel)
    ensures
        r == level_for(risk_points(*pkg)),
{
    let mut score: u32 = 0;
    if has(&pkg.vulnerabilities, Severity::Critical) {
        score += 40;
    }
    if has(&pkg.vulnerabilities, Severity::High) {
        score += 25;
    }
    if pkg.vulnerabilities.len() > 2 {
        score += 15;
    }
    match pkg.bus_factor {
        Some(bf) => {
            if bf <= 1 {
                score += 20;
            } else if bf <= 2 {
                score += 10;
            }
        },
        None => {
            score += 15;
        },
    }
    match pkg.last_release_days {
        Some(days) => {
            if days > 365 {
                score += 20;
            } else if days > 180 {
                score += 10;
            } else if days > 90 {
                score += 5;
            }
        },
        None => {
            score += 10;
        },
    }
    let v = chars_of(pkg.version.as_str());
    if starts_with_chars(v.as_slice(), chars_of("0.").as_slice()) {
        score += 5;
    }
    if contains_chars(v.as_slice(), chars_of("-alpha").as_slice()) || contains_chars(
        v.as_slice(),
        chars_of("-beta").as_slice(),
    ) {
        score += 10;
    }
    if score <= 20 {
        RiskLevel::Low
    } else if score <= 40 {
        RiskLevel::Medium
    } else if score <= 60 {
        RiskLevel::High
    } else {
        RiskLevel::Critical
    }
}

/// More risk points never give a lower risk level.
pub proof fn lemma_level_monotone(a: int, b: int)
    requires
        a <= b,
    ensures
        risk_rank(level_for(a)) <= risk_rank(level_for(b)),
{
}

/// Adding a vulnerability to a package never lowers its risk level.
pub proof fn lemma_vulnerability_never_lowers_risk(p: Package, q: Package, extra: Vulnerability)
    requires
        q.vulnerabilities@ == p.vulnerabilities@.push(extra),
        q.bus_factor == p.bus_factor,
        q.last_release_days == p.last_release_days,
        q.version@ == p.version@,
    ensures
        risk_rank(level_for(risk_points(p))) <= risk_rank(level_for(risk_points(q))),
{
    let v = p.vulnerabilities@;
    let w = q.vulnerabilities@;
    if has_severity(v, Severity::Critical) {
        let i = choose|i: int| 0 <= i < v.len() && v[i].severity == Severity::Critical;
        assert(w[i] == v[i]);
    }
    if has_severity(v, Severity::High) {
        let i = choose|i: int| 0 <= i < v.len() && v[i].severity == Severity::High;
        assert(w[i] == v[i]);
    }
    lemma_level_monotone(risk_points(p), risk_points(q));
}


/// `q` is `p` with the same maintainers count, release age and version.
pub open spec fn same_but_vulns(p: Package, q: Package) -> bool {
    &&& q.bus_factor == p.bus_factor
    &&& q.last_release_days == p.last_release_days
    &&& q.version@ == p.version@
}

proof fn lemma_has_push(v: Seq<Vulnerability>, extra: Vulnerability, s: Severity)
    ensures
        has_severity(v.push(extra), s) == (has_severity(v, s) || extra.severity == s),
{
    if has_severity(v, s) {
        let i = choose|i: int| 0 <= i < v.len() && v[i].severity == s;
        assert(v.push(extra)[i] == v[i]);
    }
    if extra.severity == s {
        assert(v.push(extra)[v.len() as int] == extra);
    }
    if has_severity(v.push(extra), s) {
        let i = choose|i: int| 0 <= i < v.push(extra).len() && v.push(extra)[i].severity == s;
        if i < v.len() {
            assert(v.push(extra)[i] == v[i]);
        }
    }
}

/// A third known vulnerability, of a severity the package already has, adds
/// exactly 15 risk points.
pub proof fn lemma_third_vulnerability_adds_15(p: Package, q: Package, extra: Vulnerability)
    requires
        same_but_vulns(p, q),
        p.vulnerabilities@.len() == 2,
        q.vulnerabilities@ == p.vulnerabilities@.push(extra),
        p.vulnerabilities@[0].severity == extra.severity || p.vulnerabilities@[1].severity == extra.severity,
    ensures
        risk_points(q) == risk_points(p) + 15,
{
    let v = p.vulnerabilities@;
    lemma_has_push(v, extra, Severity::Critical);
    lemma_has_push(v, extra, Severity::High);
    if extra.severity == Severity::Critical || extra.severity == Severity::High {
        if v[0].severity == extra.severity {
            assert(has_severity(v, extra.severity));
        } else {
            assert(v[1].severity == extra.severity);
            assert(has_severity(v, extra.severity));
        }
    }
}

/// Once a package has three known vulnerabilities, one more of a severity it
/// already has adds no risk points.
pub proof fn lemma_more_vulnerabilities_of_known_severity(p: Package, q: Package, extra: Vulnerability, i: int)
    requires
        same_but_vulns(p, q),
        p.vulnerabilities@.len() >= 3,
        q.vulnerabilities@ == p.vulnerabilities@.push(extra),
        0 <= i < p.vulnerabilities@.len(),
        p.vulnerabilities@[i].severity == extra.severity,
    ensures
        risk_points(q) == risk_points(p),
{
    let v = p.vulnerabilities@;
    lemma_has_push(v, extra, Severity::Critical);
    lemma_has_push(v, extra, Severity::High);
    assert(has_severity(v, v[i].severity));
}

/// The first critical vulnerability adds 40 risk points, the first high one
/// 25, and one of lower severity none, as long as the count of
/// vulnerabilities does not pass two with it.
pub proof fn lemma_first_of_a_severity(p: Package, q: Package, extra: Vulnerability)
    requires
        same_but_vulns(p, q),
        p.vulnerabilities@.len() != 2,
        q.vulnerabilities@ == p.vulnerabilities@.push(extra),
        !has_severity(p.vulnerabilities@, extra.severity),
    ensures
        extra.severity == Severity::Critical ==> risk_points(q) == risk_points(p) + 40,
        extra.severity == Severity::High ==> risk_points(q) == risk_points(p) + 25,
        extra.severity != Severity::Critical && extra.severity != Severity::High ==> risk_points(q)
            == risk_points(p),
{
    let v = p.vulnerabilities@;
    lemma_has_push(v, extra, Severity::Critical);
    lemma_has_push(v, extra, Severity::High);
}

/// `q` is `p` with only the bus factor possibly different.
pub open spec fn same_but_bus(p: Package, q: Package) -> bool {
    &&& q.vulnerabilities@ == p.vulnerabilities@
    &&& q.last_release_days == p.last_release_days
    &&& q.version@ == p.version@
}

/// Against three or more maintainers, one maintainer adds 20 risk points,
/// two add 10, and an unknown number 15.
pub proof fn lemma_bus_factor_risk(p: Package, q: Package)
    requires
        same_but_bus(p, q),
        p.bus_factor matches Some(b) && b >= 3,
    ensures
        q.bus_factor matches Some(b) && b <= 1 ==> risk_points(q) == risk_points(p) + 20,
        q.bus_factor == Some(2u32) ==> risk_points(q) == risk_points(p) + 10,
        q.bus_factor is None ==> risk_points(q) == risk_points(p) + 15,
        q.bus_factor matches Some(b) && b >= 3 ==> risk_points(q) == risk_points(p),
{
}

/// `q` is `p` with only the days since the last release possibly different.
pub open spec fn same_but_release(p: Package, q: Package) -> bool {
    &&& q.vulnerabilities@ == p.vulnerabilities@
    &&& q.bus_factor == p.bus_factor
    &&& q.version@ == p.version@
}

/// Against a release at most 90 days old, one over a year old adds 20
/// risk points, over half a year 10, over 90 days 5, and an unknown age 10.
pub proof fn lemma_release_age_risk(p: Package, q: Package)
    requires
        same_but_release(p, q),
        p.last_release_days matches Some(d) && d <= 90,
    ensures
        q.last_release_days matches Some(d) && d > 365 ==> risk_points(q) == risk_points(p) + 20,
        q.last_release_days matches Some(d) && 180 < d <= 365 ==> risk_points(q) == risk_points(p) + 10,
        q.last_release_days matches Some(d) && 90 < d <= 180 ==> risk_points(q) == risk_points(p) + 5,
        q.last_release_days matches Some(d) && d <= 90 ==> risk_points(q) == risk_points(p),
        q.last_release_days is None ==> risk_points(q) == risk_points(p) + 10,
{
}

/// A package with both a critical and a high vulnerability is rated
/// critical; one with a critical vulnerability is rated at least medium.
pub proof fn lemma_critical_vulnerabilities_rate_high(p: Package)
    requires
        has_severity(p.vulnerabilities@, Severity::Critical),
    ensures
        risk_rank(level_for(risk_points(p))) >= 1,
        has_severity(p.vulnerabilities@, Severity::High) ==> level_for(risk_points(p)) == RiskLevel::Critical,
{
}

/// A package with no known vulnerability, at least three maintainers, a
/// release at most 90 days old and a version that is neither `0.`, alpha
/// nor beta is rated low.
pub proof fn lemma_healthy_package_is_low_risk(p: Package)
    requires
        p.vulnerabilities@.len() == 0,
        p.bus_factor matches Some(b) && b >= 3,
        p.last_release_days matches Some(d) && d <= 90,
        !starts_with(p.version@, "0."@),
        !contains(p.version@, "-alpha"@),
        !contains(p.version@, "-beta"@),
    ensures
        level_for(risk_points(p)) == RiskLevel::Low,
{
    assert(!has_severity(p.vulnerabilities@, Severity::Critical));
    assert(!has_severity(p.vulnerabilities@, Severity::High));
}

/// More than two vulnerabilities, none critical or high, with two
/// maintainers, a release 91 to 180 days old and a version that is neither
/// `0.`, alpha nor beta, rate medium (15 + 10 + 5 risk points).
pub proof fn lemma_many_minor_vulnerabilities_rate_medium(p: Package)
    requires
        p.vulnerabilities@.len() > 2,
        !has_severity(p.vulnerabilities@, Severity::Critical),
        !has_severity(p.vulnerabilities@, Severity::High),
        p.bus_factor == Some(2u32),
        p.last_release_days matches Some(d) && 90 < d <= 180,
        !starts_with(p.version@, "0."@),
        !contains(p.version@, "-alpha"@),
        !contains(p.version@, "-beta"@),
    ensures
        risk_points(p) == 30,
        level_for(risk_points(p)) == RiskLevel::Medium,
{
}

} // verus!
