use deepdeps::models::{Ecosystem, Severity};
use deepdeps::resolver::{CrateInfo, CratesIoResponse, DistInfo, Maintainer, NpmRegistryResponse};
use deepdeps::security::{
    advisory_url, advisory_vulnerability, after_advisories, after_osv, ecosystem_osv,
    ecosystem_prefix, map_severity, osv_vulnerability, Advisory, AdvisoryPatch, AdvisoryReply,
    AdvisoryVuln, OsvAffected, OsvEvent, OsvFinding, OsvRange, OsvReply, OsvSeverity, OsvVuln,
    VulnStep,
};
use deepdeps::weight::{calculate_weight, estimate_loc_from_size, weight_from_crate, weight_from_npm, WeightPlan};

fn s(a: &str) -> String {
    a.to_string()
}

fn sizes(plan: WeightPlan) -> (Option<u64>, Option<u64>, Option<u64>) {
    match plan {
        WeightPlan::Ready(w) => {
            assert!(w.license.is_none() && w.maintainers.is_empty() && w.last_release_days.is_none());
            (w.loc, w.file_count, w.installed_size)
        }
        _ => panic!("expected a known weight"),
    }
}

#[test]
fn known_packages() {
    assert_eq!(
        sizes(calculate_weight("Express", "4.18.2", Ecosystem::Node)),
        (Some(51234), Some(421), Some(3_100_000))
    );
    // a known name with another version still has the table's sizes
    assert_eq!(
        sizes(calculate_weight("REACT", "99.0.0", Ecosystem::Rust)),
        (Some(10234), Some(156), Some(1_200_000))
    );
    assert_eq!(
        sizes(calculate_weight("body-parser", "1.20.2", Ecosystem::Python)),
        (Some(8900), Some(56), Some(420_000))
    );
}

#[test]
fn unknown_packages() {
    assert!(matches!(calculate_weight("left-pad", "1.0.0", Ecosystem::Node), WeightPlan::FetchNpm));
    assert!(matches!(calculate_weight("serde", "1.0.0", Ecosystem::Rust), WeightPlan::FetchCrate));
    assert_eq!(sizes(calculate_weight("requests", "2.0", Ecosystem::Python)), (None, None, None));
}

#[test]
fn loc_estimates() {
    assert_eq!(estimate_loc_from_size(None), None);
    assert_eq!(estimate_loc_from_size(Some(0)), Some(100));
    assert_eq!(estimate_loc_from_size(Some(1023)), Some(100));
    assert_eq!(estimate_loc_from_size(Some(1024)), Some(50));
    assert_eq!(estimate_loc_from_size(Some(4096)), Some(200));
    assert_eq!(estimate_loc_from_size(Some(u64::MAX)), Some((u64::MAX / 1024) * 50));
}

#[test]
fn npm_reply() {
    let reply = NpmRegistryResponse {
        name: s("left-pad"),
        description: s(""),
        license: Some(s("WTFPL")),
        maintainers: vec![Maintainer { name: s("azer") }, Maintainer { name: s("b") }],
        dist: Some(DistInfo { unpacked_size: Some(10240) }),
    };
    let w = weight_from_npm(Some(reply));
    assert_eq!(w.installed_size, Some(10240));
    assert_eq!(w.loc, Some(500));
    assert_eq!(w.file_count, None);
    assert_eq!(w.license, Some(s("WTFPL")));
    assert_eq!(w.maintainers, vec![s("azer"), s("b")]);
    let none = weight_from_npm(None);
    assert!(none.loc.is_none() && none.installed_size.is_none() && none.maintainers.is_empty());
    let no_dist = weight_from_npm(Some(NpmRegistryResponse {
        name: s("x"),
        description: s(""),
        license: None,
        maintainers: vec![],
        dist: None,
    }));
    assert_eq!(no_dist.loc, None);
}

#[test]
fn crate_reply() {
    let reply = CratesIoResponse {
        crate_data: Some(CrateInfo {
            name: s("serde"),
            description: s(""),
            license: Some(s("MIT OR Apache-2.0")),
            downloads: 12345,
            recent_downloads: None,
        }),
    };
    let w = weight_from_crate(Some(reply));
    assert_eq!(w.installed_size, Some(123));
    assert_eq!(w.license, Some(s("MIT OR Apache-2.0")));
    assert_eq!(w.loc, None);
    let empty = weight_from_crate(Some(CratesIoResponse { crate_data: None }));
    assert_eq!(empty.installed_size, None);
}

#[test]
fn severities_from_text() {
    assert_eq!(map_severity("HIGH"), Severity::High);
    assert_eq!(map_severity("Critical, high"), Severity::Critical);
    assert_eq!(map_severity("medium"), Severity::Medium);
    assert_eq!(map_severity("Low"), Severity::Low);
    assert_eq!(map_severity("moderate"), Severity::Unrated);
    assert_eq!(map_severity("highlow"), Severity::High);
}

#[test]
fn database_names() {
    let all = [
        (Ecosystem::Node, "npm"),
        (Ecosystem::Python, "PyPI"),
        (Ecosystem::Rust, "crates.io"),
        (Ecosystem::Go, "Go"),
        (Ecosystem::Maven, "Maven"),
        (Ecosystem::NuGet, "NuGet"),
    ];
    for (e, n) in all {
        assert_eq!(ecosystem_prefix(e), n);
        assert_eq!(ecosystem_osv(e), n);
    }
    assert_eq!(
        advisory_url("lodash", Ecosystem::Node),
        "https://api.github.com/advisories?ecosystem=npm&package=lodash&per_page=5"
    );
}

fn osv(score: Option<&str>, band: Option<Severity>) -> OsvFinding {
    OsvFinding {
        vuln: OsvVuln {
            id: Some(s("GHSA-1")),
            summary: None,
            severity: score.map(|x| vec![OsvSeverity { stype: Some(s("CVSS_V3")), score: Some(s(x)) }]),
            affected: Some(vec![OsvAffected {
                ranges: Some(vec![OsvRange {
                    rtype: Some(s("SEMVER")),
                    events: Some(vec![
                        OsvEvent { introduced: Some(s("0")), fixed: None },
                        OsvEvent { introduced: None, fixed: Some(s("1.2.3")) },
                        OsvEvent { introduced: None, fixed: Some(s("2.0.0")) },
                    ]),
                }]),
                versions: Some(vec![s("1.0.0"), s("1.1.0")]),
            }]),
        },
        score_band: band,
    }
}

#[test]
fn osv_findings() {
    let v = osv_vulnerability(&osv(Some("CVSS:3.1/AV:N"), None));
    assert_eq!(v.id, "GHSA-1");
    assert_eq!(v.summary, "");
    assert_eq!(v.severity, Severity::Unrated);
    assert_eq!(v.affected_versions, "1.0.0");
    assert_eq!(v.patched_versions, "1.2.3");
    assert_eq!(osv_vulnerability(&osv(Some("9.8"), Some(Severity::Critical))).severity, Severity::Critical);
    assert_eq!(osv_vulnerability(&osv(Some("HIGH"), None)).severity, Severity::High);
    // without a score the band is not read
    assert_eq!(osv_vulnerability(&osv(None, Some(Severity::High))).severity, Severity::Unrated);
    let bare = OsvFinding {
        vuln: OsvVuln { id: None, summary: Some(s("s")), severity: Some(vec![]), affected: None },
        score_band: None,
    };
    let b = osv_vulnerability(&bare);
    assert_eq!((b.id.as_str(), b.summary.as_str(), b.affected_versions.as_str(), b.patched_versions.as_str()), ("", "s", "", ""));
}

#[test]
fn lookup_steps() {
    match after_osv("lodash", Ecosystem::Node, OsvReply::Failed) {
        VulnStep::AskAdvisories(url) => {
            assert_eq!(url, "https://api.github.com/advisories?ecosystem=npm&package=lodash&per_page=5")
        }
        _ => panic!("expected the advisory query"),
    }
    match after_osv("x", Ecosystem::Go, OsvReply::Unreadable) {
        VulnStep::Done(v) => assert!(v.is_empty()),
        _ => panic!("expected the end"),
    }
    match after_osv("x", Ecosystem::Go, OsvReply::Read(vec![osv(Some("LOW"), None)])) {
        VulnStep::Done(v) => {
            assert_eq!(v.len(), 1);
            assert_eq!(v[0].severity, Severity::Low);
        }
        _ => panic!("expected the end"),
    }
    assert!(after_advisories(AdvisoryReply::Failed).is_empty());
    assert!(after_advisories(AdvisoryReply::Unreadable).is_empty());
    let adv = Advisory {
        ghsa_id: s("GHSA-9"),
        summary: s("bad"),
        severity: s("moderate"),
        vulnerabilities: vec![AdvisoryVuln {
            package: None,
            vulnerable_version_range: Some(s("< 1.0")),
            first_patched_version: Some(AdvisoryPatch { identifier: Some(s("1.0")) }),
        }],
    };
    let v = after_advisories(AdvisoryReply::Read(vec![adv.clone()]));
    assert_eq!(v.len(), 1);
    assert_eq!(v[0].id, "GHSA-9");
    assert_eq!(v[0].severity, Severity::Unrated);
    assert_eq!(v[0].affected_versions, "< 1.0");
    assert_eq!(v[0].patched_versions, "1.0");
    let plain = advisory_vulnerability(&Advisory {
        ghsa_id: s("G"),
        summary: s(""),
        severity: s("Critical"),
        vulnerabilities: vec![],
    });
    assert_eq!(plain.severity, Severity::Critical);
    assert_eq!(plain.affected_versions, "");
}
