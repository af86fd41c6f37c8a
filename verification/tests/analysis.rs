use deepdeps::analyzer::{apply_weight, score_package, summarize};
use deepdeps::models::{Ecosystem, Package, RiskLevel, Severity, Vulnerability};
use deepdeps::resolver::make_pkg;
use deepdeps::weight::WeightInfo;

fn s(a: &str) -> String {
    a.to_string()
}

fn pkg(name: &str, depth: u32) -> Package {
    make_pkg(s(name), s("1.0.0"), Ecosystem::Rust, depth == 0, depth, vec![])
}

fn vuln(sev: Severity) -> Vulnerability {
    Vulnerability {
        id: s("V"),
        severity: sev,
        summary: s(""),
        affected_versions: s(""),
        patched_versions: s(""),
    }
}

#[test]
fn weighing_a_package() {
    let mut p = pkg("a", 0);
    apply_weight(
        &mut p,
        WeightInfo {
            loc: Some(100),
            file_count: Some(3),
            installed_size: Some(2048),
            license: Some(s("MIT")),
            maintainers: vec![s("x"), s("y")],
            last_release_days: None,
        },
    );
    assert_eq!(p.loc, Some(100));
    assert_eq!(p.file_count, Some(3));
    assert_eq!(p.installed_size, Some(2048));
    assert_eq!(p.license, Some(s("MIT")));
    assert_eq!(p.bus_factor, Some(2));
    assert_eq!(p.name, "a");
}

#[test]
fn scoring_a_package() {
    let mut p = pkg("a", 0);
    score_package(&mut p, vec![vuln(Severity::Critical)]);
    assert_eq!(p.vulnerabilities.len(), 1);
    // 20 + 20 + 10 + 20
    assert_eq!(p.health_score, Some(70));
    // 40 + 15 + 10
    assert_eq!(p.risk_level, Some(RiskLevel::Critical));
}

#[test]
fn summary_figures() {
    let mut a = pkg("a", 0);
    a.loc = Some(10);
    a.installed_size = Some(100);
    a.license = Some(s("MIT"));
    a.risk_level = Some(RiskLevel::High);
    a.vulnerabilities = vec![vuln(Severity::Low), vuln(Severity::High)];
    let mut b = pkg("b", 3);
    b.loc = Some(5);
    b.file_count = Some(7);
    b.license = Some(s("Apache-2.0"));
    b.risk_level = Some(RiskLevel::Low);
    let mut c = pkg("c", 2);
    c.license = Some(s("MIT"));
    c.risk_level = Some(RiskLevel::Critical);
    c.vulnerabilities = vec![vuln(Severity::Medium)];
    let d = pkg("d", 1);
    let r = summarize(
        s("id-1"),
        s("proj"),
        s("/w/proj"),
        Ecosystem::Rust,
        s("2024-01-01T00:00:00Z"),
        &vec![(s("a"), s("1"))],
        vec![a, b, c, d],
    );
    assert_eq!(r.id, "id-1");
    assert_eq!(r.project_name, "proj");
    assert_eq!(r.project_path, "/w/proj");
    assert_eq!(r.ecosystem, Ecosystem::Rust);
    assert_eq!(r.timestamp, "2024-01-01T00:00:00Z");
    assert_eq!(r.direct_deps, 1);
    assert_eq!(r.total_deps, 4);
    assert_eq!(r.max_depth, 3);
    assert_eq!(r.total_loc, 15);
    assert_eq!(r.total_files, 7);
    assert_eq!(r.total_size, 100);
    assert_eq!(r.cve_count, 3);
    assert_eq!(r.high_risk_packages, 2);
    assert_eq!(r.unused_code_percentage, 96);
    let tally: Vec<(String, u32)> = r.licenses.iter().map(|l| (l.name.clone(), l.count)).collect();
    assert_eq!(tally, vec![(s("MIT"), 2), (s("Apache-2.0"), 1)]);
    // every package that names a license is counted once
    assert_eq!(r.licenses.iter().map(|l| l.count).sum::<u32>(), 3);
    assert!(r.high_risk_packages <= r.total_deps);
}

#[test]
fn summary_of_nothing() {
    let r = summarize(s("i"), s("n"), s("p"), Ecosystem::Go, s("t"), &vec![], vec![]);
    assert_eq!(r.total_deps, 0);
    assert_eq!(r.max_depth, 0);
    assert_eq!(r.total_loc, 0);
    assert!(r.licenses.is_empty());
    assert_eq!(r.unused_code_percentage, 96);
}
