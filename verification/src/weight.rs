//! How heavy a package is: lines of code, files and bytes, from a table of
//! well-known packages or from what a registry says.
use vstd::prelude::*;
use crate::models::Ecosystem;
use crate::resolver::{CratesIoResponse, Maintainer, NpmRegistryResponse};
use crate::text::{chars_eq, chars_of, eq_ignore_ascii_case, eq_ignore_case_chars, lowercase, texts, to_lowercase};

verus! {

/// The size facts of a package, as far as they are known.
#[derive(Clone, Debug)]
pub struct WeightInfo {
    pub loc: Option<u64>,
    pub file_count: Option<u64>,
    pub installed_size: Option<u64>,
    pub license: Option<String>,
    pub maintainers: Vec<String>,
    pub last_release_days: Option<u64>,
}

/// Well-known packages: name, version, lines of code, files, bytes.
pub open spec fn known_sizes() -> Seq<(Seq<char>, Seq<char>, u64, u64, u64)> {
    seq![
        ("express"@, "4.18.2"@, 51234u64, 421u64, 3100000u64),
        ("react"@, "18.2.0"@, 10234u64, 156u64, 1200000u64),
        ("lodash"@, "4.17.21"@, 87000u64, 342u64, 2400000u64),
        ("axios"@, "1.6.0"@, 51234u64, 421u64, 3100000u64),
        ("chalk"@, "5.3.0"@, 3200u64, 42u64, 180000u64),
        ("commander"@, "11.1.0"@, 8900u64, 78u64, 520000u64),
        ("prettier"@, "3.1.0"@, 145000u64, 890u64, 8200000u64),
        ("typescript"@, "5.3.0"@, 1200000u64, 4500u64, 45000000u64),
        ("eslint"@, "8.55.0"@, 234000u64, 1200u64, 12000000u64),
        ("webpack"@, "5.89.0"@, 345000u64, 2100u64, 18000000u64),
        ("babel-core"@, "7.24.0"@, 89000u64, 560u64, 4500000u64),
        ("next"@, "14.0.4"@, 450000u64, 3200u64, 25000000u64),
        ("vue"@, "3.4.0"@, 67000u64, 480u64, 3800000u64),
        ("angular-core"@, "17.0.0"@, 234000u64, 1800u64, 15000000u64),
        ("jquery"@, "3.7.1"@, 12000u64, 12u64, 280000u64),
        ("moment"@, "2.29.4"@, 34000u64, 145u64, 890000u64),
        ("uuid"@, "9.0.0"@, 4500u64, 32u64, 120000u64),
        ("dotenv"@, "16.3.1"@, 1200u64, 8u64, 45000u64),
        ("cors"@, "2.8.5"@, 2100u64, 15u64, 68000u64),
        ("body-parser"@, "1.20.2"@, 8900u64, 56u64, 420000u64),
    ]
}

/// The `k`th well-known package.
fn known_entry(k: usize) -> (r: (&'static str, &'static str, u64, u64, u64))
    requires
        k < known_sizes().len(),
    ensures
        (r.0@, r.1@, r.2, r.3, r.4) == known_sizes()[k as int],
{
    match k {
        0 => ("express", "4.18.2", 51234, 421, 3100000),
        1 => ("react", "18.2.0", 10234, 156, 1200000),
        2 => ("lodash", "4.17.21", 87000, 342, 2400000),
        3 => ("axios", "1.6.0", 51234, 421, 3100000),
        4 => ("chalk", "5.3.0", 3200, 42, 180000),
        5 => ("commander", "11.1.0", 8900, 78, 520000),
        6 => ("prettier", "3.1.0", 145000, 890, 8200000),
        7 => ("typescript", "5.3.0", 1200000, 4500, 45000000),
        8 => ("eslint", "8.55.0", 234000, 1200, 12000000),
        9 => ("webpack", "5.89.0", 345000, 2100, 18000000),
        10 => ("babel-core", "7.24.0", 89000, 560, 4500000),
        11 => ("next", "14.0.4", 450000, 3200, 25000000),
        12 => ("vue", "3.4.0", 67000, 480, 3800000),
        13 => ("angular-core", "17.0.0", 234000, 1800, 15000000),
        14 => ("jquery", "3.7.1", 12000, 12, 280000),
        15 => ("moment", "2.29.4", 34000, 145, 890000),
        16 => ("uuid", "9.0.0", 4500, 32, 120000),
        17 => ("dotenv", "16.3.1", 1200, 8, 45000),
        18 => ("cors", "2.8.5", 2100, 15, 68000),
        _ => ("body-parser", "1.20.2", 8900, 56, 420000),
    }
}

/// The first well-known package from the `i`th on whose name equals
/// `name` up to ASCII case, and whose version is `version` when
/// `by_version` is set.
pub open spec fn known_find(name: Seq<char>, version: Seq<char>, by_version: bool, i: int) -> Option<int>
    decreases known_sizes().len() - i,
{
    if i < 0 || i >= known_sizes().len() {
        None
    } else if eq_ignore_ascii_case(known_sizes()[i].0, name) && (!by_version || known_sizes()[i].1
        == version) {
        Some(i)
    } else {
        known_find(name, version, by_version, i + 1)
    }
}

/// The well-known package that a lower-cased name and a version match:
/// first by name and version, else by name alone.
pub open spec fn known_match(name: Seq<char>, version: Seq<char>) -> Option<int> {
    match known_find(name, version, true, 0) {
        Some(k) => Some(k),
        None => known_find(name, version, false, 0),
    }
}

/// `w` holds nothing.
pub open spec fn weight_empty(w: WeightInfo) -> bool {
    &&& w.loc is None
    &&& w.file_count is None
    &&& w.installed_size is None
    &&& w.license is None
    &&& w.maintainers@.len() == 0
    &&& w.last_release_days is None
}

/// `w` holds the sizes of the `k`th well-known package and nothing else.
pub open spec fn weight_known(w: WeightInfo, k: int) -> bool {
    &&& w.loc == Some(known_sizes()[k].2)
    &&& w.file_count == Some(known_sizes()[k].3)
    &&& w.installed_size == Some(known_sizes()[k].4)
    &&& w.license is None
    &&& w.maintainers@.len() == 0
    &&& w.last_release_days is None
}

/// A weight that holds nothing.
pub fn empty_weight() -> (w: WeightInfo)
    ensures
        weight_empty(w),
{
    WeightInfo {
        loc: None,
        file_count: None,
        installed_size: None,
        license: None,
        maintainers: Vec::new(),
        last_release_days: None,
    }
}

/// Searches the well-known packages.
fn find_known(name: &[char], version: &str, by_version: bool) -> (r: Option<usize>)
    ensures
        match r {
            Some(k) => known_find(name@, version@, by_version, 0) == Some(k as int) && k < 20,
            None => known_find(name@, version@, by_version, 0) is None,
        },
{
    let vc = chars_of(version);
    let mut i: usize = 0;
    while i < 20
        invariant
            i <= 20 == known_sizes().len(),
            vc@ == version@,
            known_find(name@, version@, by_version, 0) == known_find(name@, version@, by_version, i as int),
        decreases 20 - i,
    {
        let e = known_entry(i);
        let en = chars_of(e.0);
        let ev = chars_of(e.1);
        let same_name = eq_ignore_case_chars(en.as_slice(), name);
        let same_version = chars_eq(ev.as_slice(), vc.as_slice());
        let hit = same_name && (!by_version || same_version);
        if hit {
            return Some(i);
        }
        i += 1;
    }
    None
}

/// Where the weight of a package comes from.
#[derive(Clone, Debug)]
pub enum WeightPlan {
    /// The weight is known without asking anyone.
    Ready(WeightInfo),
    /// Ask the npm registry.
    FetchNpm,
    /// Ask crates.io.
    FetchCrate,
}

/// How to weigh a package: a well-known package (matched by its lower-cased
/// name, with the version if one matches, else by name) has its table
/// sizes; otherwise npm and crates.io packages are looked up in their
/// registries, and other packages weigh nothing known.
pub fn calculate_weight(name: &str, version: &str, ecosystem: Ecosystem) -> (r: WeightPlan)
    ensures
        match known_match(lowercase(name@), version@) {
            Some(k) => r matches WeightPlan::Ready(w) && weight_known(w, k),
            None => match ecosystem {
                Ecosystem::Node => r is FetchNpm,
                Ecosystem::Rust => r is FetchCrate,
                _ => r matches WeightPlan::Ready(w) && weight_empty(w),
            },
        },
{
    assert(known_sizes().len() == 20);
    let lower = to_lowercase(name);
    let lc = chars_of(lower.as_str());
    let found = match find_known(lc.as_slice(), version, true) {
        Some(k) => Some(k),
        None => find_known(lc.as_slice(), version, false),
    };
    match found {
        Some(k) => {
            let e = known_entry(k);
            WeightPlan::Ready(
                WeightInfo {
                    loc: Some(e.2),
                    file_count: Some(e.3),
                    installed_size: Some(e.4),
                    license: None,
                    maintainers: Vec::new(),
                    last_release_days: None,
                },
            )
        },
        None => match ecosystem {
            Ecosystem::Node => WeightPlan::FetchNpm,
            Ecosystem::Rust => WeightPlan::FetchCrate,
            _ => WeightPlan::Ready(empty_weight()),
        },
    }
}

/// Lines of code estimated from a size in bytes: 50 per whole KiB, 100 when
/// there is less than one.
pub open spec fn loc_estimate(size: Option<u64>) -> Option<u64> {
    match size {
        Some(s) => Some(
            if s / 1024 == 0 {
                100u64
            } else {
                ((s / 1024) * 50) as u64
            },
        ),
        None => None,
    }
}

/// Lines of code estimated from a size in bytes.
pub fn estimate_loc_from_size(size: Option<u64>) -> (r: Option<u64>)
    ensures
        r == loc_estimate(size),
{
    match size {
        Some(s) => {
            let kb = s / 1024;
            if kb == 0 {
                Some(100)
            } else {
                assert(kb * 50 <= u64::MAX) by (nonlinear_arith)
                    requires
                        kb == s / 1024,
                ;
                Some(kb * 50)
            }
        },
        None => None,
    }
}

/// The names of some npm maintainers.
pub open spec fn maintainer_names(m: Seq<Maintainer>) -> Seq<Seq<char>> {
    m.map_values(|x: Maintainer| x.name@)
}

/// The unpacked size that an npm reply gives, if any.
pub open spec fn npm_size(x: NpmRegistryResponse) -> Option<u64> {
    match x.dist {
        Some(d) => d.unpacked_size,
        None => None,
    }
}

/// The weight that the npm registry's reply gives: its unpacked size, the
/// lines of code estimated from it, its license and maintainers; nothing
/// without a reply.
pub fn weight_from_npm(reply: Option<NpmRegistryResponse>) -> (w: WeightInfo)
    ensures
        match reply {
            Some(x) => {
                &&& w.installed_size == npm_size(x)
                &&& w.loc == loc_estimate(npm_size(x))
                &&& w.file_count is None
                &&& w.license == x.license
                &&& texts(w.maintainers@) == maintainer_names(x.maintainers@)
                &&& w.last_release_days is None
            },
            None => weight_empty(w),
        },
{
    match reply {
        Some(x) => {
            let size = match &x.dist {
                Some(d) => d.unpacked_size,
                None => None,
            };
            let mut names: Vec<String> = Vec::new();
            let mut i: usize = 0;
            while i < x.maintainers.len()
                invariant
                    i <= x.maintainers.len(),
                    texts(names@) == maintainer_names(x.maintainers@).take(i as int),
                decreases x.maintainers.len() - i,
            {
                let ghost prev = texts(names@);
                names.push(x.maintainers[i].name.clone());
                assert(texts(names@) =~= prev.push(x.maintainers@[i as int].name@));
                assert(maintainer_names(x.maintainers@).take(i + 1) =~= maintainer_names(
                    x.maintainers@,
                ).take(i as int).push(x.maintainers@[i as int].name@));
                i += 1;
            }
            assert(maintainer_names(x.maintainers@).take(x.maintainers.len() as int)
                =~= maintainer_names(x.maintainers@));
            WeightInfo {
                loc: estimate_loc_from_size(size),
                file_count: None,
                installed_size: size,
                license: x.license,
                maintainers: names,
                last_release_days: None,
            }
        },
        None => empty_weight(),
    }
}

/// The weight that crates.io's reply gives: a hundredth of the download
/// count as its size, and its license; nothing without a reply.
pub fn weight_from_crate(reply: Option<CratesIoResponse>) -> (w: WeightInfo)
    ensures
        match reply {
            Some(x) => {
                &&& w.installed_size == match x.crate_data {
                    Some(c) => Some((c.downloads / 100) as u64),
                    None => None::<u64>,
                }
                &&& w.license == match x.crate_data {
                    Some(c) => c.license,
                    None => None::<String>,
                }
                &&& w.loc is None
                &&& w.file_count is None
                &&& w.maintainers@.len() == 0
                &&& w.last_release_days is None
            },
            None => weight_empty(w),
        },
{
    match reply {
        Some(x) => match x.crate_data {
            Some(c) => WeightInfo {
                loc: None,
                file_count: None,
                installed_size: Some(c.downloads / 100),
                license: c.license,
                maintainers: Vec::new(),
                last_release_days: None,
            },
            None => empty_weight(),
        },
        None => empty_weight(),
    }
}

} // verus!
