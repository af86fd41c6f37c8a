//! Known vulnerabilities: what the OSV database and the GitHub advisory
//! database report of a package, turned into the library's vulnerabilities.
use vstd::prelude::*;
use crate::models::{Ecosystem, Severity, Vulnerability};
use crate::text::{append_chars, chars_of, contains, contains_chars, lowercase, string_of, to_lowercase};

verus! {

/// A severity named in free text: the first of "critical", "high",
/// "medium" and "low" that the lower-cased text contains.
pub open spec fn severity_named(lower: Seq<char>) -> Severity {
    if contains(lower, "critical"@) {
        Severity::Critical
    } else if contains(lower, "high"@) {
        Severity::High
    } else if contains(lower, "medium"@) {
        Severity::Medium
    } else if contains(lower, "low"@) {
        Severity::Low
    } else {
        Severity::Unrated
    }
}

/// The severity that a text names, read in lower case.
pub fn map_severity(sev: &str) -> (r: Severity)
    ensures
        r == severity_named(lowercase(sev@)),
{
    let low = to_lowercase(sev);
    let s = chars_of(low.as_str());
    if contains_chars(s.as_slice(), chars_of("critical").as_slice()) {
        Severity::Critical
    } else if contains_chars(s.as_slice(), chars_of("high").as_slice()) {
        Severity::High
    } else if contains_chars(s.as_slice(), chars_of("medium").as_slice()) {
        Severity::Medium
    } else if contains_chars(s.as_slice(), chars_of("low").as_slice()) {
        Severity::Low
    } else {
        Severity::Unrated
    }
}

/// The name of an ecosystem in the vulnerability databases.
pub open spec fn database_name(eco: Ecosystem) -> Seq<char> {
    match eco {
        Ecosystem::Node => "npm"@,
        Ecosystem::Python => "PyPI"@,
        Ecosystem::Rust => "crates.io"@,
        Ecosystem::Go => "Go"@,
        Ecosystem::Maven => "Maven"@,
        Ecosystem::NuGet => "NuGet"@,
    }
}

/// The ecosystem's name in a GitHub advisory query.
pub fn ecosystem_prefix(eco: Ecosystem) -> (r: &'static str)
    ensures
        r@ == database_name(eco),
{
    match eco {
        Ecosystem::Node => "npm",
        Ecosystem::Python => "PyPI",
        Ecosystem::Rust => "crates.io",
        Ecosystem::Go => "Go",
        Ecosystem::Maven => "Maven",
        Ecosystem::NuGet => "NuGet",
    }
}

/// The ecosystem's name in an OSV query.
pub fn ecosystem_osv(eco: Ecosystem) -> (r: &'static str)
    ensures
        r@ == database_name(eco),
{
    match eco {
        Ecosystem::Node => "npm",
        Ecosystem::Python => "PyPI",
        Ecosystem::Rust => "crates.io",
        Ecosystem::Go => "Go",
        Ecosystem::Maven => "Maven",
        Ecosystem::NuGet => "NuGet",
    }
}

/// A severity entry of an OSV vulnerability.
#[derive(Clone, Debug)]
pub struct OsvSeverity {
    pub stype: Option<String>,
    pub score: Option<String>,
}

/// A version event of an OSV range.
#[derive(Clone, Debug)]
pub struct OsvEvent {
    pub introduced: Option<String>,
    pub fixed: Option<String>,
}

/// An affected range of an OSV vulnerability.
#[derive(Clone, Debug)]
pub struct OsvRange {
    pub rtype: Option<String>,
    pub events: Option<Vec<OsvEvent>>,
}

/// What an OSV vulnerability affects.
#[derive(Clone, Debug)]
pub struct OsvAffected {
    pub ranges: Option<Vec<OsvRange>>,
    pub versions: Option<Vec<String>>,
}

/// A vulnerability as OSV reports it.
#[derive(Clone, Debug)]
pub struct OsvVuln {
    pub id: Option<String>,
    pub summary: Option<String>,
    pub severity: Option<Vec<OsvSeverity>>,
    pub affected: Option<Vec<OsvAffected>>,
}

/// An OSV vulnerability together with the band of its first severity
/// score read as a number (9 and up critical, 7 high, 4 medium, else low),
/// when the score reads as one.
#[derive(Clone, Debug)]
pub struct OsvFinding {
    pub vuln: OsvVuln,
    pub score_band: Option<Severity>,
}

/// The first item of an optional list.
pub open spec fn first_in<T>(o: Option<Vec<T>>) -> Option<T> {
    match o {
        Some(v) => if v@.len() > 0 {
            Some(v@[0])
        } else {
            None
        },
        None => None,
    }
}

/// A text that may be missing, empty when it is.
pub open spec fn text_of(o: Option<String>) -> Seq<char> {
    match o {
        Some(s) => s@,
        None => seq![],
    }
}

/// The first severity score of an OSV vulnerability.
pub open spec fn first_score(v: OsvVuln) -> Option<String> {
    match first_in(v.severity) {
        Some(s) => s.score,
        None => None,
    }
}

/// The severity of an OSV vulnerability: the band of its first score when
/// the score reads as a number, else the severity that the score names;
/// unrated without a score.
pub open spec fn osv_severity(f: OsvFinding) -> Severity {
    match first_score(f.vuln) {
        Some(s) => match f.score_band {
            Some(b) => b,
            None => severity_named(lowercase(s@)),
        },
        None => Severity::Unrated,
    }
}

/// The first version that the first affected entry lists, if any.
pub open spec fn affected_version(v: OsvVuln) -> Option<String> {
    match first_in(v.affected) {
        Some(a) => first_in(a.versions),
        None => None,
    }
}

/// The first `fixed` version among some events, from the `i`th on.
pub open spec fn first_fixed(es: Seq<OsvEvent>, i: int) -> Option<String>
    decreases es.len() - i,
{
    if i < 0 || i >= es.len() {
        None
    } else if es[i].fixed is Some {
        es[i].fixed
    } else {
        first_fixed(es, i + 1)
    }
}

/// The first fixed version in the first range of the first affected entry.
pub open spec fn patched_version(v: OsvVuln) -> Option<String> {
    match first_in(v.affected) {
        Some(a) => match first_in(a.ranges) {
            Some(r) => match r.events {
                Some(es) => first_fixed(es@, 0),
                None => None,
            },
            None => None,
        },
        None => None,
    }
}

/// `out` is the vulnerability that an OSV finding reports.
pub open spec fn from_osv(f: OsvFinding, out: Vulnerability) -> bool {
    &&& out.id@ == text_of(f.vuln.id)
    &&& out.summary@ == text_of(f.vuln.summary)
    &&& out.severity == osv_severity(f)
    &&& out.affected_versions@ == text_of(affected_version(f.vuln))
    &&& out.patched_versions@ == text_of(patched_version(f.vuln))
}

/// A text that may be missing, empty when it is.
fn text_or_empty(o: &Option<String>) -> (r: String)
    ensures
        r@ == text_of(*o),
{
    match o {
        Some(s) => s.clone(),
        None => String::new(),
    }
}

/// The first version that the first affected entry lists, if any.
fn first_affected_version(v: &OsvVuln) -> (r: Option<String>)
    ensures
        match r {
            Some(s) => affected_version(*v) matches Some(t) && t@ == s@,
            None => affected_version(*v) is None,
        },
{
    match &v.affected {
        Some(a) => if a.len() > 0 {
            match &a[0].versions {
                Some(vs) => if vs.len() > 0 {
                    Some(vs[0].clone())
                } else {
                    None
                },
                None => None,
            }
        } else {
            None
        },
        None => None,
    }
}

/// The first fixed version in the first range of the first affected entry.
fn first_patched_version(v: &OsvVuln) -> (r: Option<String>)
    ensures
        match r {
            Some(s) => patched_version(*v) matches Some(t) && t@ == s@,
            None => patched_version(*v) is None,
        },
{
    match &v.affected {
        Some(a) => {
            if a.len() == 0 {
                return None;
            }
            match &a[0].ranges {
                Some(rs) => {
                    if rs.len() == 0 {
                        return None;
                    }
                    match &rs[0].events {
                        Some(es) => {
                            let mut i: usize = 0;
                            assert(patched_version(*v) == first_fixed(es@, 0));
                            while i < es.len()
                                invariant
                                    i <= es.len(),
                                    patched_version(*v) == first_fixed(es@, 0),
                                    first_fixed(es@, 0) == first_fixed(es@, i as int),
                                decreases es.len() - i,
                            {
                                match &es[i].fixed {
                                    Some(f) => {
                                        return Some(f.clone());
                                    },
                                    None => {},
                                }
                                i += 1;
                            }
                            None
                        },
                        None => None,
                    }
                },
                None => None,
            }
        },
        None => None,
    }
}

/// The vulnerability that an OSV finding reports.
pub fn osv_vulnerability(f: &OsvFinding) -> (r: Vulnerability)
    ensures
        from_osv(*f, r),
{
    let severity = match &f.vuln.severity {
        Some(ss) => if ss.len() > 0 {
            match &ss[0].score {
                Some(s) => match f.score_band {
                    Some(b) => b,
                    None => map_severity(s.as_str()),
                },
                None => Severity::Unrated,
            }
        } else {
            Severity::Unrated
        },
        None => Severity::Unrated,
    };
    let affected = first_affected_version(&f.vuln);
    let patched = first_patched_version(&f.vuln);
    Vulnerability {
        id: text_or_empty(&f.vuln.id),
        severity,
        summary: text_or_empty(&f.vuln.summary),
        affected_versions: text_or_empty(&affected),
        patched_versions: text_or_empty(&patched),
    }
}

/// The package that a GitHub advisory names.
#[derive(Clone, Debug)]
pub struct AdvisoryPkg {
    pub ecosystem: Option<String>,
    pub name: Option<String>,
}

/// The first patched version of an advisory.
#[derive(Clone, Debug)]
pub struct AdvisoryPatch {
    pub identifier: Option<String>,
}

/// One vulnerable package of a GitHub advisory.
#[derive(Clone, Debug)]
pub struct AdvisoryVuln {
    pub package: Option<AdvisoryPkg>,
    pub vulnerable_version_range: Option<String>,
    pub first_patched_version: Option<AdvisoryPatch>,
}

/// A GitHub security advisory.
#[derive(Clone, Debug)]
pub struct Advisory {
    pub ghsa_id: String,
    pub summary: String,
    pub severity: String,
    pub vulnerabilities: Vec<AdvisoryVuln>,
}

/// `out` is the vulnerability that an advisory reports: its id, summary
/// and named severity, and the range and first patched version of its first
/// vulnerable package.
pub open spec fn from_advisory(a: Advisory, out: Vulnerability) -> bool {
    &&& out.id@ == a.ghsa_id@
    &&& out.summary@ == a.summary@
    &&& out.severity == severity_named(lowercase(a.severity@))
    &&& out.affected_versions@ == if a.vulnerabilities@.len() > 0 {
        text_of(a.vulnerabilities@[0].vulnerable_version_range)
    } else {
        seq![]
    }
    &&& out.patched_versions@ == if a.vulnerabilities@.len() > 0 {
        match a.vulnerabilities@[0].first_patched_version {
            Some(p) => text_of(p.identifier),
            None => seq![],
        }
    } else {
        seq![]
    }
}

/// The vulnerability that an advisory reports.
pub fn advisory_vulnerability(a: &Advisory) -> (r: Vulnerability)
    ensures
        from_advisory(*a, r),
{
    let (affected, patched) = if a.vulnerabilities.len() > 0 {
        let v = &a.vulnerabilities[0];
        let p = match &v.first_patched_version {
            Some(p) => text_or_empty(&p.identifier),
            None => String::new(),
        };
        (text_or_empty(&v.vulnerable_version_range), p)
    } else {
        (String::new(), String::new())
    };
    Vulnerability {
        id: a.ghsa_id.clone(),
        severity: map_severity(a.severity.as_str()),
        summary: a.summary.clone(),
        affected_versions: affected,
        patched_versions: patched,
    }
}

/// The address of the GitHub advisory query for a package (five
/// advisories at most).
pub open spec fn advisory_query(name: Seq<char>, eco: Ecosystem) -> Seq<char> {
    "https://api.github.com/advisories?ecosystem="@ + database_name(eco) + "&package="@ + name
        + "&per_page=5"@
}

/// The address of the GitHub advisory query for a package.
pub fn advisory_url(name: &str, eco: Ecosystem) -> (r: String)
    ensures
        r@ == advisory_query(name@, eco),
{
    let mut v: Vec<char> = Vec::new();
    append_chars(&mut v, chars_of("https://api.github.com/advisories?ecosystem=").as_slice());
    append_chars(&mut v, chars_of(ecosystem_prefix(eco)).as_slice());
    append_chars(&mut v, chars_of("&package=").as_slice());
    append_chars(&mut v, chars_of(name).as_slice());
    append_chars(&mut v, chars_of("&per_page=5").as_slice());
    string_of(v.as_slice())
}

/// How the OSV query went.
#[derive(Clone, Debug)]
pub enum OsvReply {
    /// The query was not answered, or not with success.
    Failed,
    /// The answer could not be read.
    Unreadable,
    /// The findings of the answer.
    Read(Vec<OsvFinding>),
}

/// How the advisory query went.
#[derive(Clone, Debug)]
pub enum AdvisoryReply {
    Failed,
    Unreadable,
    Read(Vec<Advisory>),
}

/// What to do next when looking up vulnerabilities.
#[derive(Clone, Debug)]
pub enum VulnStep {
    /// Query the GitHub advisory database at this address.
    AskAdvisories(String),
    /// The lookup is over with these vulnerabilities.
    Done(Vec<Vulnerability>),
}

/// `r` holds the vulnerabilities of some OSV findings, in order.
pub open spec fn all_from_osv(fs: Seq<OsvFinding>, r: Seq<Vulnerability>) -> bool {
    r.len() == fs.len() && forall|i: int| 0 <= i < r.len() ==> from_osv(fs[i], #[trigger] r[i])
}

/// `r` holds the vulnerabilities of some advisories, in order.
pub open spec fn all_from_advisories(a: Seq<Advisory>, r: Seq<Vulnerability>) -> bool {
    r.len() == a.len() && forall|i: int| 0 <= i < r.len() ==> from_advisory(a[i], #[trigger] r[i])
}

/// What follows the OSV query for a package: its findings when it was
/// answered and read; nothing when the answer could not be read; the
/// advisory query when it failed.
pub fn after_osv(name: &str, eco: Ecosystem, reply: OsvReply) -> (r: VulnStep)
    ensures
        match reply {
            OsvReply::Failed => r matches VulnStep::AskAdvisories(u) && u@ == advisory_query(
                name@,
                eco,
            ),
            OsvReply::Unreadable => r matches VulnStep::Done(v) && v@.len() == 0,
            OsvReply::Read(fs) => r matches VulnStep::Done(v) && all_from_osv(fs@, v@),
        },
{
    match reply {
        OsvReply::Failed => VulnStep::AskAdvisories(advisory_url(name, eco)),
        OsvReply::Unreadable => VulnStep::Done(Vec::new()),
        OsvReply::Read(fs) => {
            let mut v: Vec<Vulnerability> = Vec::new();
            let mut i: usize = 0;
            while i < fs.len()
                invariant
                    i <= fs.len(),
                    v@.len() == i,
                    forall|k: int| 0 <= k < i ==> from_osv(fs@[k], #[trigger] v@[k]),
                decreases fs.len() - i,
            {
                v.push(osv_vulnerability(&fs[i]));
                i += 1;
            }
            VulnStep::Done(v)
        },
    }
}

/// The vulnerabilities that the advisory query gives: those of the
/// advisories when it was answered and read, none otherwise.
pub fn after_advisories(reply: AdvisoryReply) -> (r: Vec<Vulnerability>)
    ensures
        match reply {
            AdvisoryReply::Read(a) => all_from_advisories(a@, r@),
            _ => r@.len() == 0,
        },
{
    match reply {
        AdvisoryReply::Read(a) => {
            let mut v: Vec<Vulnerability> = Vec::new();
            let mut i: usize = 0;
            while i < a.len()
                invariant
                    i <= a.len(),
                    v@.len() == i,
                    forall|k: int| 0 <= k < i ==> from_advisory(a@[k], #[trigger] v@[k]),
                decreases a.len() - i,
            {
                v.push(advisory_vulnerability(&a[i]));
                i += 1;
            }
            v
        },
        _ => Vec::new(),
    }
}

} // verus!
