use deepdeps::health::calculate;
use deepdeps::models::{Ecosystem, Package, RiskLevel, Severity, Vulnerability};
use deepdeps::resolver::make_pkg;
use deepdeps::risk::assess;

fn pkg(version: &str) -> Package {
    make_pkg("demo".to_string(), version.to_string(), Ecosystem::Node, true, 0, vec![])
}

fn vuln(sev: Severity) -> Vulnerability {
    Vulnerability {
        id: "X-1".to_string(),
        severity: sev,
        summary: String::new(),
        affected_versions: String::new(),
        patched_versions: String::new(),
    }
}

#[test]
fn severity_scores() {
    assert_eq!(Severity::Critical.score(), 10);
    assert_eq!(Severity::High.score(), 7);
    assert_eq!(Severity::Medium.score(), 4);
    assert_eq!(Severity::Low.score(), 1);
    assert_eq!(Severity::Unrated.score(), 0);
}

#[test]
fn ecosystem_names() {
    assert_eq!(Ecosystem::Node.as_str(), "Node.js");
    assert_eq!(Ecosystem::Python.as_str(), "Python");
    assert_eq!(Ecosystem::Rust.as_str(), "Rust");
    assert_eq!(Ecosystem::Go.as_str(), "Go");
    assert_eq!(Ecosystem::Maven.as_str(), "Maven");
    assert_eq!(Ecosystem::NuGet.as_str(), "NuGet");
}

#[test]
fn health_of_bare_package() {
    // security 35, maintenance 25 - 5 (no maintainers), bus factor unknown 10, stability 20
    assert_eq!(calculate(&pkg("1.0.0")), 85);
}

#[test]
fn health_counts_vulnerabilities() {
    let mut p = pkg("1.0.0");
    p.vulnerabilities = vec![vuln(Severity::Critical), vuln(Severity::High)];
    assert_eq!(calculate(&p), 60);
    p.vulnerabilities = vec![
        vuln(Severity::Critical),
        vuln(Severity::Critical),
        vuln(Severity::Critical),
    ];
    // security points never go below 0
    assert_eq!(calculate(&p), 50);
}

#[test]
fn health_stability_penalties() {
    assert_eq!(calculate(&pkg("0.1.0-beta")), 85 - 18);
    assert_eq!(calculate(&pkg("1.0.0-nightly")), 85 - 15);
    assert_eq!(calculate(&pkg("0.1.0-rc.1-dev")), 85 - 20);
}

#[test]
fn health_maintenance_and_bus_factor() {
    let mut p = pkg("1.0.0");
    p.last_release_days = Some(400);
    p.maintainers = vec!["a".to_string(), "b".to_string(), "c".to_string()];
    p.bus_factor = Some(3);
    // 35 + (25 - 15 + 5) + 17 + 20
    assert_eq!(calculate(&p), 87);
    p.last_release_days = Some(100);
    p.bus_factor = Some(2);
    // 35 + (25 - 3 + 5) + 12 + 20
    assert_eq!(calculate(&p), 94);
}

#[test]
fn health_is_capped_at_100() {
    let mut p = pkg("1.0.0");
    p.maintainers = vec!["a".to_string(), "b".to_string(), "c".to_string()];
    p.bus_factor = Some(10);
    // 35 + 30 + 20 + 20 = 105
    assert_eq!(calculate(&p), 100);
}

#[test]
fn health_never_rises_with_a_vulnerability() {
    let mut p = pkg("2.0.0");
    p.bus_factor = Some(4);
    let before = calculate(&p);
    p.vulnerabilities.push(vuln(Severity::Low));
    let after = calculate(&p);
    assert!(after <= before);
    assert_eq!(before - after, 2);
}

#[test]
fn risk_levels() {
    // bus factor unknown 15 + release unknown 10
    assert_eq!(assess(&pkg("1.0.0")), RiskLevel::Medium);
    let mut p = pkg("1.0.0");
    p.bus_factor = Some(5);
    p.last_release_days = Some(10);
    assert_eq!(assess(&p), RiskLevel::Low);
    let mut q = pkg("1.0.0");
    q.vulnerabilities = vec![vuln(Severity::Critical)];
    // 40 + 15 + 10
    assert_eq!(assess(&q), RiskLevel::Critical);
    let mut h = pkg("0.3.0-alpha");
    h.bus_factor = Some(2);
    h.last_release_days = Some(200);
    // 10 + 10 + 5 + 10
    assert_eq!(assess(&h), RiskLevel::Medium);
    h.bus_factor = Some(1);
    // 20 + 10 + 5 + 10
    assert_eq!(assess(&h), RiskLevel::High);
}

#[test]
fn risk_never_falls_with_a_vulnerability() {
    let mut p = pkg("1.0.0");
    p.bus_factor = Some(5);
    p.last_release_days = Some(10);
    let before = assess(&p);
    p.vulnerabilities.push(vuln(Severity::High));
    let after = assess(&p);
    assert_eq!(before, RiskLevel::Low);
    assert_eq!(after, RiskLevel::Medium);
}
