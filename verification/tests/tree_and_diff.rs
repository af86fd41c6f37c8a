use deepdeps::diff::compute_diff;
use deepdeps::display::{flagged_packages, packages_by_size};
use deepdeps::models::{AnalysisResult, DbPackage, DiffChange, Ecosystem, Package};
use deepdeps::resolver::make_pkg;
use deepdeps::tree::render;

fn s(a: &str) -> String {
    a.to_string()
}

fn pkg(name: &str, version: &str, direct: bool, deps: &[&str]) -> Package {
    make_pkg(s(name), s(version), Ecosystem::Node, direct, 0, deps.iter().map(|d| s(d)).collect())
}

fn analysis(packages: Vec<Package>) -> AnalysisResult {
    AnalysisResult {
        id: s("id"),
        project_name: s("p"),
        project_path: s("."),
        ecosystem: Ecosystem::Node,
        timestamp: s("t"),
        direct_deps: 0,
        total_deps: packages.len() as u32,
        max_depth: 0,
        total_loc: 0,
        total_files: 0,
        total_size: 0,
        packages,
        cve_count: 0,
        high_risk_packages: 0,
        unused_code_percentage: 96,
        licenses: vec![],
    }
}

#[test]
fn tree_rendering() {
    let r = analysis(vec![
        pkg("a", "1", true, &["b", "c", "missing"]),
        pkg("b", "1", false, &["c"]),
        pkg("c", "1", false, &[]),
        pkg("d", "2", true, &[]),
    ]);
    let expected = "├── a@1\n\
                    │   ├── b@1\n\
                    │   │   └── c@1\n\
                    │   ├── c@1 (already listed)\n\
                    │   └── missing\n\
                    └── d@2\n";
    assert_eq!(render(&r), expected);
}

#[test]
fn tree_of_nothing() {
    assert_eq!(render(&analysis(vec![])), "");
    assert_eq!(render(&analysis(vec![pkg("x", "1", false, &[])])), "");
}

#[test]
fn tree_cycle_ends() {
    let r = analysis(vec![pkg("a", "1", true, &["b"]), pkg("b", "1", false, &["a"])]);
    // a is expanded under itself once it is listed
    assert_eq!(render(&r), "└── a@1\n    └── b@1\n        └── a@1\n            └── b@1 (already listed)\n");
}

#[test]
fn tree_uses_last_package_of_a_name() {
    let r = analysis(vec![pkg("a", "1", true, &[]), pkg("a", "2", false, &["z"])]);
    assert_eq!(render(&r), "└── a@2\n    └── z\n");
}

fn row(name: &str, version: &str, size: Option<i64>) -> DbPackage {
    DbPackage {
        analysis_id: s("x"),
        name: s(name),
        version: s(version),
        ecosystem: s("\"Node\""),
        direct: true,
        depth: 0,
        loc: None,
        file_count: None,
        installed_size: size,
        license: None,
        last_release_days: None,
        bus_factor: None,
        risk_level: None,
    }
}

#[test]
fn diff_of_two_analyses() {
    let old = vec![row("a", "1", Some(10)), row("b", "1", None)];
    let new = vec![row("a", "2", Some(20)), row("c", "1", Some(5))];
    let d = compute_diff(s("o"), s("n"), &old, &new);
    assert_eq!(d.old_analysis_id, "o");
    assert_eq!(d.new_analysis_id, "n");
    assert_eq!(d.added.len(), 1);
    assert_eq!(d.added[0].change, DiffChange::Added);
    assert_eq!(d.added[0].name, "c");
    assert_eq!(d.added[0].old_version, None);
    assert_eq!(d.added[0].new_version, Some(s("1")));
    assert_eq!(d.added[0].new_size, Some(5));
    assert_eq!(d.removed.len(), 1);
    assert_eq!(d.removed[0].change, DiffChange::Removed);
    assert_eq!(d.removed[0].name, "b");
    assert_eq!(d.removed[0].old_version, Some(s("1")));
    assert_eq!(d.removed[0].old_size, None);
    assert_eq!(d.changed.len(), 1);
    assert_eq!(d.changed[0].change, DiffChange::Upgraded);
    assert_eq!(d.changed[0].old_version, Some(s("1")));
    assert_eq!(d.changed[0].new_version, Some(s("2")));
    assert_eq!(d.changed[0].old_size, Some(10));
    assert_eq!(d.changed[0].new_size, Some(20));
}

#[test]
fn diff_with_itself_is_empty() {
    let a = vec![row("a", "1", Some(10)), row("b", "3", None)];
    let d = compute_diff(s("x"), s("x"), &a, &a);
    assert!(d.added.is_empty() && d.removed.is_empty() && d.changed.is_empty());
}

#[test]
fn diff_with_repeated_names_compares_last() {
    // the old list names x twice; the comparison reads its last entry
    let old = vec![row("x", "1", None), row("x", "2", None)];
    let d = compute_diff(s("o"), s("o"), &old, &old);
    assert_eq!(d.changed.len(), 1);
    assert_eq!(d.changed[0].old_version, Some(s("2")));
    assert_eq!(d.changed[0].new_version, Some(s("1")));
}

#[test]
fn diff_added_mirrors_removed() {
    let a = vec![row("a", "1", Some(1)), row("b", "1", Some(2))];
    let b = vec![row("b", "1", Some(2)), row("c", "7", Some(3)), row("d", "8", None)];
    let ab = compute_diff(s("a"), s("b"), &a, &b);
    let ba = compute_diff(s("b"), s("a"), &b, &a);
    assert_eq!(ab.added.len(), ba.removed.len());
    for (x, y) in ab.added.iter().zip(ba.removed.iter()) {
        assert_eq!(x.name, y.name);
        assert_eq!(x.new_version, y.old_version);
        assert_eq!(x.new_size, y.old_size);
    }
    assert_eq!(ab.added.iter().map(|e| e.name.clone()).collect::<Vec<_>>(), vec![s("c"), s("d")]);
}

#[test]
fn negative_stored_size_reads_as_its_bits() {
    let d = compute_diff(s("o"), s("n"), &vec![], &vec![row("a", "1", Some(-1))]);
    assert_eq!(d.added[0].new_size, Some(u64::MAX));
}

#[test]
fn ranking_by_size() {
    let mut ps = vec![
        pkg("a", "1", true, &[]),
        pkg("b", "1", true, &[]),
        pkg("c", "1", true, &[]),
        pkg("d", "1", true, &[]),
        pkg("e", "1", true, &[]),
    ];
    ps[0].installed_size = Some(10);
    ps[2].installed_size = Some(30);
    ps[3].installed_size = Some(10);
    ps[4].installed_size = Some(0);
    assert_eq!(packages_by_size(&ps), vec![2, 0, 3, 4]);
    assert_eq!(packages_by_size(&vec![]), Vec::<usize>::new());
}

#[test]
fn flagged_rows() {
    let mut rows = vec![row("a", "1", None), row("b", "1", None), row("c", "1", None), row("d", "1", None)];
    rows[0].risk_level = Some(s("High"));
    rows[1].risk_level = Some(s("\"Critical\""));
    rows[2].risk_level = Some(s("Critical"));
    rows[3].risk_level = Some(s("Low"));
    assert_eq!(flagged_packages(&rows), vec![0, 2]);
}
