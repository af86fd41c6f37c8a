//! Putting an analysis together: weighing and scoring each package, then
//! adding up the whole project.
use vstd::prelude::*;
use crate::health::{calculate, health_points};
use crate::models::{AnalysisResult, Ecosystem, LicenseSummary, Package, RiskLevel, Vulnerability};
use crate::resolver::{first_indices, lemma_first_indices_cover, lemma_first_indices_props};
use crate::risk::{assess, level_for, risk_points};
use crate::text::{chars_eq, chars_of, string_of, views};
use crate::weight::WeightInfo;

verus! {

/// `q` is `p` with only the weight facts, the license, the maintainers, the
/// days since the last release and the bus factor possibly changed.
pub open spec fn same_identity(p: Package, q: Package) -> bool {
    &&& q.name == p.name
    &&& q.version == p.version
    &&& q.ecosystem == p.ecosystem
    &&& q.direct == p.direct
    &&& q.depth == p.depth
    &&& q.dependencies == p.dependencies
    &&& q.used_apis == p.used_apis
    &&& q.total_apis == p.total_apis
}

/// Takes the weight facts of a package: its size facts, license,
/// maintainers and last release, and as many maintainers as bus factor.
pub fn apply_weight(pkg: &mut Package, info: WeightInfo)
    ensures
        same_identity(*old(pkg), *final(pkg)),
        final(pkg).vulnerabilities == old(pkg).vulnerabilities,
        final(pkg).health_score == old(pkg).health_score,
        final(pkg).risk_level == old(pkg).risk_level,
        final(pkg).loc == info.loc,
        final(pkg).file_count == info.file_count,
        final(pkg).installed_size == info.installed_size,
        final(pkg).license == info.license,
        final(pkg).maintainers == info.maintainers,
        final(pkg).last_release_days == info.last_release_days,
        final(pkg).bus_factor == Some(info.maintainers@.len() as u32),
{
    let count = info.maintainers.len() as u32;
    pkg.loc = info.loc;
    pkg.file_count = info.file_count;
    pkg.installed_size = info.installed_size;
    pkg.license = info.license;
    pkg.maintainers = info.maintainers;
    pkg.last_release_days = info.last_release_days;
    pkg.bus_factor = Some(count);
}

/// Takes the known vulnerabilities of a package, then scores it: its
/// health and its risk, both read from the package with those
/// vulnerabilities.
pub fn score_package(pkg: &mut Package, vulns: Vec<Vulnerability>)
    ensures
        same_identity(*old(pkg), *final(pkg)),
        final(pkg).loc == old(pkg).loc,
        final(pkg).file_count == old(pkg).file_count,
        final(pkg).installed_size == old(pkg).installed_size,
        final(pkg).license == old(pkg).license,
        final(pkg).maintainers == old(pkg).maintainers,
        final(pkg).last_release_days == old(pkg).last_release_days,
        final(pkg).bus_factor == old(pkg).bus_factor,
        final(pkg).vulnerabilities@ == vulns@,
        final(pkg).health_score == Some(health_points(*final(pkg)) as u32),
        final(pkg).risk_level == Some(level_for(risk_points(*final(pkg)))),
{
    pkg.vulnerabilities = vulns;
    let h = calculate(pkg);
    let r = assess(pkg);
    pkg.health_score = Some(h);
    pkg.risk_level = Some(r);
    assert(health_points(*pkg) == h);
    assert(risk_points(*pkg) == risk_points(*pkg));
}

/// The sum of a measure over some packages.
pub open spec fn sum_of(ps: Seq<Package>, f: spec_fn(Package) -> int) -> int
    decreases ps.len(),
{
    if ps.len() == 0 {
        0
    } else {
        sum_of(ps.drop_last(), f) + f(ps.last())
    }
}

/// A measure that may be missing, 0 when it is.
pub open spec fn or_zero(o: Option<u64>) -> int {
    match o {
        Some(v) => v as int,
        None => 0,
    }
}

/// Lines of code of a package, as far as known.
pub open spec fn loc_of(p: Package) -> int {
    or_zero(p.loc)
}

/// Files of a package, as far as known.
pub open spec fn files_of(p: Package) -> int {
    or_zero(p.file_count)
}

/// Bytes of a package, as far as known.
pub open spec fn size_of_pkg(p: Package) -> int {
    or_zero(p.installed_size)
}

/// Known vulnerabilities of a package.
pub open spec fn cves_of(p: Package) -> int {
    (p.vulnerabilities@.len() as u32) as int
}

/// A package rated high or critical risk counts 1.
pub open spec fn high_risk_of(p: Package) -> int {
    match p.risk_level {
        Some(RiskLevel::High) | Some(RiskLevel::Critical) => 1,
        _ => 0,
    }
}

/// The greatest depth of some packages, 0 for none.
pub open spec fn max_depth_of(ps: Seq<Package>) -> u32
    decreases ps.len(),
{
    if ps.len() == 0 {
        0
    } else {
        let m = max_depth_of(ps.drop_last());
        if ps.last().depth > m {
            ps.last().depth
        } else {
            m
        }
    }
}

/// The licenses of some packages, in order, for those that have one.
pub open spec fn license_names(ps: Seq<Package>) -> Seq<Seq<char>>
    decreases ps.len(),
{
    if ps.len() == 0 {
        seq![]
    } else {
        let rest = license_names(ps.drop_last());
        match ps.last().license {
            Some(l) => rest.push(l@),
            None => rest,
        }
    }
}

/// How often a text occurs among some texts.
pub open spec fn count_of(ns: Seq<Seq<char>>, x: Seq<char>) -> nat
    decreases ns.len(),
{
    if ns.len() == 0 {
        0
    } else {
        count_of(ns.drop_last(), x) + if ns.last() == x {
            1nat
        } else {
            0nat
        }
    }
}

/// `ls` tallies the license names `ns`: one entry per license, in the
/// order of first appearance, with how many times it appears.
pub open spec fn license_tally(ns: Seq<Seq<char>>, ls: Seq<LicenseSummary>) -> bool {
    let fi = first_indices(ns, ns.len() as int);
    &&& ls.len() == fi.len()
    &&& forall|m: int|
        0 <= m < ls.len() ==> (#[trigger] ls[m]).name@ == ns[fi[m]] && ls[m].count == count_of(
            ns,
            ns[fi[m]],
        )
}

/// The figures of an analysis that are added up from its packages.
pub open spec fn summary_of(r: AnalysisResult, direct_count: nat, ps: Seq<Package>) -> bool {
    &&& r.packages@ == ps
    &&& r.direct_deps == direct_count as u32
    &&& r.total_deps == ps.len() as u32
    &&& r.max_depth == max_depth_of(ps)
    &&& r.total_loc == sum_of(ps, |p: Package| loc_of(p))
    &&& r.total_files == sum_of(ps, |p: Package| files_of(p))
    &&& r.total_size == sum_of(ps, |p: Package| size_of_pkg(p))
    &&& r.cve_count == sum_of(ps, |p: Package| cves_of(p))
    &&& r.high_risk_packages == sum_of(ps, |p: Package| high_risk_of(p))
    &&& r.unused_code_percentage == 96
    &&& license_tally(license_names(ps), r.licenses@)
}

proof fn lemma_sum_prefix(ps: Seq<Package>, f: spec_fn(Package) -> int, i: int)
    requires
        0 <= i <= ps.len(),
        forall|p: Package| #[trigger] f(p) >= 0,
    ensures
        sum_of(ps.take(i), f) <= sum_of(ps, f),
    decreases ps.len() - i,
{
    if i < ps.len() {
        lemma_sum_prefix(ps, f, i + 1);
        assert(ps.take(i + 1).drop_last() =~= ps.take(i));
    } else {
        assert(ps.take(i) =~= ps);
    }
}

proof fn lemma_count_bound(ps: Seq<Package>)
    ensures
        0 <= sum_of(ps, |p: Package| high_risk_of(p)) <= ps.len(),
    decreases ps.len(),
{
    if ps.len() > 0 {
        lemma_count_bound(ps.drop_last());
    }
}

/// The running totals of the packages before the `i`th.
struct Totals {
    loc: u64,
    files: u64,
    size: u64,
    cves: u32,
    high: u32,
    depth: u32,
}

spec fn totals_ok(t: Totals, ps: Seq<Package>, i: int) -> bool {
    let pre = ps.take(i);
    &&& t.loc == sum_of(pre, |p: Package| loc_of(p))
    &&& t.files == sum_of(pre, |p: Package| files_of(p))
    &&& t.size == sum_of(pre, |p: Package| size_of_pkg(p))
    &&& t.cves == sum_of(pre, |p: Package| cves_of(p))
    &&& t.high == sum_of(pre, |p: Package| high_risk_of(p))
    &&& t.depth == max_depth_of(pre)
}

/// The sums fit the fields that hold them.
pub open spec fn totals_fit(ps: Seq<Package>) -> bool {
    &&& sum_of(ps, |p: Package| loc_of(p)) <= u64::MAX
    &&& sum_of(ps, |p: Package| files_of(p)) <= u64::MAX
    &&& sum_of(ps, |p: Package| size_of_pkg(p)) <= u64::MAX
    &&& sum_of(ps, |p: Package| cves_of(p)) <= u32::MAX
    &&& ps.len() <= u32::MAX
}

fn add_up(ps: &Vec<Package>) -> (t: Totals)
    requires
        totals_fit(ps@),
    ensures
        totals_ok(t, ps@, ps@.len() as int),
{
    let mut t = Totals { loc: 0, files: 0, size: 0, cves: 0, high: 0, depth: 0 };
    assert(ps@.take(0) =~= Seq::<Package>::empty());
    let mut i: usize = 0;
    while i < ps.len()
        invariant
            i <= ps.len(),
            totals_fit(ps@),
            totals_ok(t, ps@, i as int),
        decreases ps.len() - i,
    {
        let ghost pre1 = ps@.take(i + 1);
        assert(pre1.drop_last() =~= ps@.take(i as int));
        assert(pre1.last() == ps@[i as int]);
        proof {
            lemma_sum_prefix(ps@, |p: Package| loc_of(p), i + 1);
            lemma_sum_prefix(ps@, |p: Package| files_of(p), i + 1);
            lemma_sum_prefix(ps@, |p: Package| size_of_pkg(p), i + 1);
            lemma_sum_prefix(ps@, |p: Package| cves_of(p), i + 1);
            lemma_count_bound(pre1);
        }
        let p = &ps[i];
        match p.loc {
            Some(v) => {
                t.loc = t.loc + v;
            },
            None => {},
        }
        match p.file_count {
            Some(v) => {
                t.files = t.files + v;
            },
            None => {},
        }
        match p.installed_size {
            Some(v) => {
                t.size = t.size + v;
            },
            None => {},
        }
        t.cves = t.cves + p.vulnerabilities.len() as u32;
        match p.risk_level {
            Some(RiskLevel::High) | Some(RiskLevel::Critical) => {
                t.high = t.high + 1;
            },
            _ => {},
        }
        if p.depth > t.depth {
            t.depth = p.depth;
        }
        i += 1;
    }
    assert(ps@.take(ps@.len() as int) =~= ps@);
    t
}

proof fn lemma_count_step(ns: Seq<Seq<char>>, i: int, y: Seq<char>)
    requires
        0 <= i < ns.len(),
    ensures
        count_of(ns.take(i + 1), y) == count_of(ns.take(i), y) + if ns[i] == y {
            1nat
        } else {
            0nat
        },
{
    assert(ns.take(i + 1).drop_last() =~= ns.take(i));
}

proof fn lemma_count_absent(ns: Seq<Seq<char>>, x: Seq<char>)
    requires
        !ns.contains(x),
    ensures
        count_of(ns, x) == 0,
    decreases ns.len(),
{
    if ns.len() > 0 {
        assert(!ns.drop_last().contains(x)) by {
            if ns.drop_last().contains(x) {
                let j = choose|j: int| 0 <= j < ns.drop_last().len() && ns.drop_last()[j] == x;
                assert(ns[j] == x);
            }
        }
        assert(ns.last() != x) by {
            assert(ns[ns.len() - 1] == ns.last());
        }
        lemma_count_absent(ns.drop_last(), x);
    }
}

/// Where a text stands among some texts, if it does.
fn position_of(names: &Vec<Vec<char>>, x: &[char]) -> (r: Option<usize>)
    ensures
        match r {
            Some(m) => m < names@.len() && views(names@)[m as int] == x@,
            None => !views(names@).contains(x@),
        },
{
    let mut m: usize = 0;
    while m < names.len()
        invariant
            m <= names@.len(),
            forall|q: int| 0 <= q < m ==> views(names@)[q] != x@,
        decreases names.len() - m,
    {
        if chars_eq(names[m].as_slice(), x) {
            return Some(m);
        }
        m += 1;
    }
    None
}

/// The license names of the packages, in order.
fn licenses_in(ps: &Vec<Package>) -> (r: Vec<Vec<char>>)
    ensures
        views(r@) == license_names(ps@),
        r@.len() <= ps@.len(),
{
    let mut all: Vec<Vec<char>> = Vec::new();
    let mut i: usize = 0;
    while i < ps.len()
        invariant
            i <= ps.len(),
            views(all@) == license_names(ps@.take(i as int)),
        decreases ps.len() - i,
    {
        assert(ps@.take(i + 1).drop_last() =~= ps@.take(i as int));
        let ghost prev = views(all@);
        match &ps[i].license {
            Some(l) => {
                all.push(chars_of(l.as_str()));
                assert(views(all@) =~= prev.push(l@));
            },
            None => {},
        }
        i += 1;
    }
    assert(ps@.take(ps@.len() as int) =~= ps@);
    proof {
        lemma_license_count(ps@);
    }
    all
}

/// The licenses of the packages, by name and count, in the order in which
/// they first appear.
fn tally_licenses(ps: &Vec<Package>) -> (r: Vec<LicenseSummary>)
    requires
        ps@.len() <= u32::MAX,
    ensures
        license_tally(license_names(ps@), r@),
{
    let all = licenses_in(ps);
    let ghost ns = views(all@);
    let mut names: Vec<Vec<char>> = Vec::new();
    let mut counts: Vec<u32> = Vec::new();
    let mut k: usize = 0;
    while k < all.len()
        invariant
            k <= all@.len() == ns.len(),
            ns.len() <= u32::MAX,
            ns == views(all@),
            names@.len() == counts@.len(),
            views(names@) == first_indices(ns, k as int).map_values(|m: int| ns[m]),
            forall|m: int|
                0 <= m < first_indices(ns, k as int).len() ==> 0 <= #[trigger] first_indices(
                    ns,
                    k as int,
                )[m] < k,
            forall|j: int| 0 <= j < k ==> views(names@).contains(#[trigger] ns[j]),
            forall|m1: int, m2: int|
                0 <= m1 < m2 < names@.len() ==> views(names@)[m1] != views(names@)[m2],
            forall|m: int|
                0 <= m < counts@.len() ==> counts@[m] == count_of(
                    ns.take(k as int),
                    #[trigger] views(names@)[m],
                ),
            forall|m: int| 0 <= m < counts@.len() ==> counts@[m] <= k,
        decreases all@.len() - k,
    {
        let ghost fi = first_indices(ns, k as int);
        let ghost before = views(names@);
        assert(all@[k as int]@ == ns[k as int]);
        proof {
            assert forall|y: Seq<char>|
                #![trigger count_of(ns.take(k + 1), y)]
                count_of(ns.take(k + 1), y) == count_of(ns.take(k as int), y) + if ns[k as int] == y {
                    1nat
                } else {
                    0nat
                } by {
                lemma_count_step(ns, k as int, y);
            }
        }
        match position_of(&names, all[k].as_slice()) {
            Some(m) => {
                proof {
                    let q = fi[m as int];
                    assert(before[m as int] == ns[q]);
                    assert(ns.take(k as int)[q] == ns[k as int]);
                    assert(ns.take(k as int).contains(ns[k as int]));
                    assert(first_indices(ns, k + 1) == fi);
                }
                let c = counts[m] + 1;
                counts.set(m, c);
                proof {
                    assert forall|q: int| 0 <= q < counts@.len() implies counts@[q] == count_of(
                        ns.take(k + 1),
                        #[trigger] views(names@)[q],
                    ) by {
                        if q != m as int {
                            assert(views(names@)[q] != ns[k as int]);
                        }
                    }
                }
            },
            None => {
                proof {
                    assert(!ns.take(k as int).contains(ns[k as int])) by {
                        if ns.take(k as int).contains(ns[k as int]) {
                            let j = choose|j: int| 0 <= j < k && ns.take(k as int)[j] == ns[k as int];
                            assert(before.contains(ns[j]));
                        }
                    }
                    assert(first_indices(ns, k + 1) == fi.push(k as int));
                    lemma_count_absent(ns.take(k as int), ns[k as int]);
                }
                names.push(chars_of(string_of(all[k].as_slice()).as_str()));
                counts.push(1);
                proof {
                    assert(views(names@) =~= before.push(ns[k as int]));
                    assert(views(names@) =~= first_indices(ns, k + 1).map_values(|m: int| ns[m]));
                    assert forall|q: int| 0 <= q < counts@.len() implies counts@[q] == count_of(
                        ns.take(k + 1),
                        #[trigger] views(names@)[q],
                    ) by {
                        if q < before.len() {
                            assert(views(names@)[q] == before[q]);
                            assert(before[q] != ns[k as int]) by {
                                assert(before.contains(before[q]));
                            }
                        }
                    }
                    assert forall|j: int| 0 <= j < k + 1 implies views(names@).contains(#[trigger] ns[j]) by {
                        if j < k {
                            let q = choose|q: int| 0 <= q < before.len() && before[q] == ns[j];
                            assert(views(names@)[q] == ns[j]);
                        } else {
                            assert(views(names@)[before.len() as int] == ns[j]);
                        }
                    }
                }
            },
        }
        k += 1;
    }
    let ghost fi = first_indices(ns, ns.len() as int);
    assert(ns.take(ns.len() as int) =~= ns);
    let mut r: Vec<LicenseSummary> = Vec::new();
    let mut m: usize = 0;
    while m < names.len()
        invariant
            m <= names@.len() == counts@.len() == fi.len(),
            views(names@) == fi.map_values(|q: int| ns[q]),
            forall|q: int| 0 <= q < counts@.len() ==> counts@[q] == count_of(ns, #[trigger] views(names@)[q]),
            r@.len() == m,
            forall|q: int|
                0 <= q < m ==> (#[trigger] r@[q]).name@ == ns[fi[q]] && r@[q].count == count_of(
                    ns,
                    ns[fi[q]],
                ),
        decreases names@.len() - m,
    {
        assert(views(names@)[m as int] == ns[fi[m as int]]);
        r.push(LicenseSummary { name: string_of(names[m].as_slice()), count: counts[m] });
        m += 1;
    }
    r
}

proof fn lemma_license_count(ps: Seq<Package>)
    ensures
        license_names(ps).len() <= ps.len(),
    decreases ps.len(),
{
    if ps.len() > 0 {
        lemma_license_count(ps.drop_last());
    }
}


/// The analysis of a project from its packages: how many were declared and
/// installed, the greatest depth, the lines, files and bytes known, the
/// known vulnerabilities, the packages at high or critical risk, the
/// licenses and the fixed unused-code estimate of 96 percent.
pub fn summarize(
    id: String,
    project_name: String,
    project_path: String,
    ecosystem: Ecosystem,
    timestamp: String,
    direct_deps: &Vec<(String, String)>,
    packages: Vec<Package>,
) -> (r: AnalysisResult)
    requires
        totals_fit(packages@),
    ensures
        summary_of(r, direct_deps@.len(), packages@),
        r.id == id,
        r.project_name == project_name,
        r.project_path == project_path,
        r.ecosystem == ecosystem,
        r.timestamp == timestamp,
{
    let t = add_up(&packages);
    assert(packages@.take(packages@.len() as int) =~= packages@);
    let licenses = tally_licenses(&packages);
    let total = packages.len() as u32;
    AnalysisResult {
        id,
        project_name,
        project_path,
        ecosystem,
        timestamp,
        direct_deps: direct_deps.len() as u32,
        total_deps: total,
        max_depth: t.depth,
        total_loc: t.loc,
        total_files: t.files,
        total_size: t.size,
        packages,
        cve_count: t.cves,
        high_risk_packages: t.high,
        unused_code_percentage: 96,
        licenses,
    }
}


// ── laws ───────────────────────────────────────────────────────────────────
/// The counts of some license summaries, added up.
pub open spec fn counts_total(ls: Seq<LicenseSummary>) -> int
    decreases ls.len(),
{
    if ls.len() == 0 {
        0
    } else {
        counts_total(ls.drop_last()) + ls.last().count
    }
}

/// How often the texts at the given indices occur in `t`, added up.
spec fn fsum(ns: Seq<Seq<char>>, fi: Seq<int>, t: Seq<Seq<char>>) -> int
    decreases fi.len(),
{
    if fi.len() == 0 {
        0
    } else {
        fsum(ns, fi.drop_last(), t) + count_of(t, ns[fi.last()])
    }
}

/// How many of the given indices hold `x`.
spec fn occ(ns: Seq<Seq<char>>, fi: Seq<int>, x: Seq<char>) -> int
    decreases fi.len(),
{
    if fi.len() == 0 {
        0
    } else {
        occ(ns, fi.drop_last(), x) + if ns[fi.last()] == x {
            1int
        } else {
            0int
        }
    }
}

proof fn lemma_fsum_grow_text(ns: Seq<Seq<char>>, fi: Seq<int>, t: Seq<Seq<char>>, x: Seq<char>)
    ensures
        fsum(ns, fi, t.push(x)) == fsum(ns, fi, t) + occ(ns, fi, x),
    decreases fi.len(),
{
    assert(t.push(x).drop_last() =~= t);
    if fi.len() > 0 {
        lemma_fsum_grow_text(ns, fi.drop_last(), t, x);
    }
}

proof fn lemma_occ(ns: Seq<Seq<char>>, fi: Seq<int>, x: Seq<char>)
    requires
        forall|m1: int, m2: int| 0 <= m1 < m2 < fi.len() ==> ns[fi[m1]] != ns[fi[m2]],
    ensures
        (exists|m: int| 0 <= m < fi.len() && ns[fi[m]] == x) ==> occ(ns, fi, x) == 1,
        (forall|m: int| 0 <= m < fi.len() ==> ns[fi[m]] != x) ==> occ(ns, fi, x) == 0,
    decreases fi.len(),
{
    if fi.len() > 0 {
        let f0 = fi.drop_last();
        lemma_occ(ns, f0, x);
        if ns[fi.last()] == x {
            assert forall|m: int| 0 <= m < f0.len() implies ns[f0[m]] != x by {
                assert(f0[m] == fi[m]);
            }
        } else {
            if exists|m: int| 0 <= m < fi.len() && ns[fi[m]] == x {
                let m = choose|m: int| 0 <= m < fi.len() && ns[fi[m]] == x;
                assert(m < f0.len());
                assert(f0[m] == fi[m]);
            }
            assert forall|m: int| 0 <= m < f0.len() && (forall|q: int| 0 <= q < fi.len() ==> ns[fi[q]] != x) implies ns[f0[m]] != x by {
                assert(f0[m] == fi[m]);
            }
        }
    }
}

proof fn lemma_tally_total(ns: Seq<Seq<char>>, n: int)
    requires
        0 <= n <= ns.len(),
    ensures
        fsum(ns, first_indices(ns, n), ns.take(n)) == n,
    decreases n,
{
    if n > 0 {
        lemma_tally_total(ns, n - 1);
        let fi0 = first_indices(ns, n - 1);
        let t = ns.take(n - 1);
        let x = ns[n - 1];
        assert(t.push(x) =~= ns.take(n));
        lemma_first_indices_props(ns, n - 1);
        lemma_fsum_grow_text(ns, fi0, t, x);
        lemma_occ(ns, fi0, x);
        if t.contains(x) {
            let q = choose|q: int| 0 <= q < t.len() && #[trigger] t[q] == x;
            assert(t[q] == ns[q]);
            lemma_first_indices_cover(ns, n - 1, q);
        } else {
            let fi = first_indices(ns, n);
            assert(fi == fi0.push(n - 1));
            assert(fi.drop_last() =~= fi0);
            assert forall|m: int| 0 <= m < fi0.len() implies ns[fi0[m]] != x by {
                let q = fi0[m];
                assert(t[q] == ns[q]);
            }
            lemma_count_absent(t, x);
            lemma_count_step(ns, n - 1, x);
        }
    }
}

proof fn lemma_counts_match(ns: Seq<Seq<char>>, fi: Seq<int>, ls: Seq<LicenseSummary>, k: int)
    requires
        ls.len() == fi.len(),
        0 <= k <= ls.len(),
        forall|m: int| 0 <= m < ls.len() ==> (#[trigger] ls[m]).count == count_of(ns, ns[fi[m]]),
    ensures
        counts_total(ls.take(k)) == fsum(ns, fi.take(k), ns),
    decreases k,
{
    if k > 0 {
        lemma_counts_match(ns, fi, ls, k - 1);
        assert(ls.take(k).drop_last() =~= ls.take(k - 1));
        assert(fi.take(k).drop_last() =~= fi.take(k - 1));
    }
}

/// The license counts of an analysis add up to the number of its packages
/// that name a license: each such package is counted once.
pub proof fn lemma_licenses_count_every_package(ps: Seq<Package>, ls: Seq<LicenseSummary>)
    requires
        license_tally(license_names(ps), ls),
    ensures
        counts_total(ls) == license_names(ps).len(),
{
    let ns = license_names(ps);
    let fi = first_indices(ns, ns.len() as int);
    lemma_counts_match(ns, fi, ls, ls.len() as int);
    assert(ls.take(ls.len() as int) =~= ls);
    assert(fi.take(fi.len() as int) =~= fi);
    assert(ns.take(ns.len() as int) =~= ns);
    lemma_tally_total(ns, ns.len() as int);
}

/// No license is listed twice in an analysis.
pub proof fn lemma_licenses_distinct(ps: Seq<Package>, ls: Seq<LicenseSummary>)
    requires
        license_tally(license_names(ps), ls),
    ensures
        forall|i: int, j: int| 0 <= i < j < ls.len() ==> ls[i].name@ != ls[j].name@,
{
    let ns = license_names(ps);
    lemma_first_indices_props(ns, ns.len() as int);
}

/// An analysis never counts more high-risk packages than packages.
pub proof fn lemma_high_risk_within_total(r: AnalysisResult, direct_count: nat, ps: Seq<Package>)
    requires
        summary_of(r, direct_count, ps),
        ps.len() <= u32::MAX,
    ensures
        r.high_risk_packages <= r.total_deps,
{
    lemma_count_bound(ps);
}

} // verus!
