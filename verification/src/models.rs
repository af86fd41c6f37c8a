//! The data model: ecosystems, severities, packages, analyses and diffs.
use vstd::prelude::*;

verus! {

/// A package ecosystem.
#[derive(Clone, Copy, Debug, PartialEq, Eq, Structural)]
pub enum Ecosystem {
    Node,
    Python,
    Rust,
    Go,
    Maven,
    NuGet,
}

/// The display name of an ecosystem.
pub open spec fn ecosystem_name(e: Ecosystem) -> Seq<char> {
    match e {
        Ecosystem::Node => "Node.js"@,
        Ecosystem::Python => "Python"@,
        Ecosystem::Rust => "Rust"@,
        Ecosystem::Go => "Go"@,
        Ecosystem::Maven => "Maven"@,
        Ecosystem::NuGet => "NuGet"@,
    }
}

impl Ecosystem {
    /// The display name of the ecosystem.
    pub fn as_str(&self) -> (r: &'static str)
        ensures
            r@ == ecosystem_name(*self),
    {
        match self {
            Ecosystem::Node => "Node.js",
            Ecosystem::Python => "Python",
            Ecosystem::Rust => "Rust",
            Ecosystem::Go => "Go",
            Ecosystem::Maven => "Maven",
            Ecosystem::NuGet => "NuGet",
        }
    }
}

/// The severity of a vulnerability.
#[derive(Clone, Copy, Debug, PartialEq, Eq, Structural)]
pub enum Severity {
    Critical,
    High,
    Medium,
    Low,
    Unrated,
}

/// The numeric weight of a severity.
pub open spec fn severity_score(s: Severity) -> u8 {
    match s {
        Severity::Critical => 10,
        Severity::High => 7,
        Severity::Medium => 4,
        Severity::Low => 1,
        Severity::Unrated => 0,
    }
}

impl Severity {
    /// The numeric weight of the severity.
    pub fn score(&self) -> (r: u8)
        ensures
            r == severity_score(*self),
    {
        match self {
            Severity::Critical => 10,
            Severity::High => 7,
            Severity::Medium => 4,
            Severity::Low => 1,
            Severity::Unrated => 0,
        }
    }
}

/// The rank of a severity, from `Unrated` (0) to `Critical` (4).
pub open spec fn severity_rank(s: Severity) -> int {
    match s {
        Severity::Critical => 4,
        Severity::High => 3,
        Severity::Medium => 2,
        Severity::Low => 1,
        Severity::Unrated => 0,
    }
}

/// The weight of a severity grows strictly with its rank, and `Unrated` weighs nothing.
pub proof fn lemma_severity_score_orders(a: Severity, b: Severity)
    ensures
        severity_rank(a) < severity_rank(b) ==> severity_score(a) < severity_score(b),
        severity_score(Severity::Unrated) == 0,
{
}

/// How risky a package is.
#[derive(Clone, Copy, Debug, PartialEq, Eq, Structural)]
pub enum RiskLevel {
    Low,
    Medium,
    High,
    Critical,
}

/// A known vulnerability of a package.
#[derive(Clone, Debug)]
pub struct Vulnerability {
    pub id: String,
    pub severity: Severity,
    pub summary: String,
    pub affected_versions: String,
    pub patched_versions: String,
}

/// One installed package. Its health score is held as whole points
/// from 0 to 100.
#[derive(Clone, Debug)]
pub struct Package {
    pub name: String,
    pub version: String,
    pub ecosystem: Ecosystem,
    pub direct: bool,
    pub depth: u32,
    pub dependencies: Vec<String>,
    pub loc: Option<u64>,
    pub file_count: Option<u64>,
    pub installed_size: Option<u64>,
    pub health_score: Option<u32>,
    pub vulnerabilities: Vec<Vulnerability>,
    pub maintainers: Vec<String>,
    pub license: Option<String>,
    pub last_release_days: Option<u64>,
    pub bus_factor: Option<u32>,
    pub used_apis: Option<u32>,
    pub total_apis: Option<u32>,
    pub risk_level: Option<RiskLevel>,
}

/// How many packages carry one license.
#[derive(Clone, Debug)]
pub struct LicenseSummary {
    pub name: String,
    pub count: u32,
}

/// The outcome of analysing one project. The average health score is not
/// held here: it is the mean of the packages' scores.
#[derive(Clone, Debug)]
pub struct AnalysisResult {
    pub id: String,
    pub project_name: String,
    pub project_path: String,
    pub ecosystem: Ecosystem,
    pub timestamp: String,
    pub direct_deps: u32,
    pub total_deps: u32,
    pub max_depth: u32,
    pub total_loc: u64,
    pub total_files: u64,
    pub total_size: u64,
    pub packages: Vec<Package>,
    pub cve_count: u32,
    pub high_risk_packages: u32,
    pub unused_code_percentage: u32,
    pub licenses: Vec<LicenseSummary>,
}

/// A request to analyse a project.
#[derive(Clone, Debug)]
pub struct AnalyzeRequest {
    pub path: Option<String>,
    pub project_name: Option<String>,
}

/// How a package changed between two analyses.
#[derive(Clone, Copy, Debug, PartialEq, Eq, Structural)]
pub enum DiffChange {
    Added,
    Removed,
    Upgraded,
    Downgraded,
}

/// One changed package between two analyses.
#[derive(Clone, Debug)]
pub struct DiffEntry {
    pub change: DiffChange,
    pub name: String,
    pub old_version: Option<String>,
    pub new_version: Option<String>,
    pub old_size: Option<u64>,
    pub new_size: Option<u64>,
}

/// The comparison of two analyses.
#[derive(Clone, Debug)]
pub struct DiffResult {
    pub old_analysis_id: String,
    pub new_analysis_id: String,
    pub added: Vec<DiffEntry>,
    pub removed: Vec<DiffEntry>,
    pub changed: Vec<DiffEntry>,
}

/// A stored package row, as far as a comparison reads it.
#[derive(Clone, Debug)]
pub struct DbPackage {
    pub analysis_id: String,
    pub name: String,
    pub version: String,
    pub ecosystem: String,
    pub direct: bool,
    pub depth: i64,
    pub loc: Option<i64>,
    pub file_count: Option<i64>,
    pub installed_size: Option<i64>,
    pub license: Option<String>,
    pub last_release_days: Option<i64>,
    pub bus_factor: Option<i64>,
    pub risk_level: Option<String>,
}

} // verus!
