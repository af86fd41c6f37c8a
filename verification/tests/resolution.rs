use deepdeps::models::{Ecosystem, Package};
use deepdeps::resolver::{
    find_lock_file, lock_file_places, normalize_npm_path, packages_from_cargo_lock,
    packages_from_direct, packages_from_go_mod, packages_from_go_sum, packages_from_npm_lock,
    packages_from_nuget_lock, parse_csproj_refs, parse_pom_xml_deps, resolve, CargoLockPackage,
    LockData, NpmLockEntry, NugetLockEntry,
};

fn d(a: &str, b: &str) -> (String, String) {
    (a.to_string(), b.to_string())
}

fn s(a: &str) -> String {
    a.to_string()
}

fn brief(p: &Package) -> (String, String, bool, u32, Vec<String>) {
    (p.name.clone(), p.version.clone(), p.direct, p.depth, p.dependencies.clone())
}

fn b(n: &str, v: &str, direct: bool, depth: u32, deps: &[&str]) -> (String, String, bool, u32, Vec<String>) {
    (s(n), s(v), direct, depth, deps.iter().map(|x| s(x)).collect())
}

#[test]
fn npm_paths() {
    // what follows the last "/node_modules/", or the leading "node_modules/"
    assert_eq!(normalize_npm_path("node_modules/lodash"), "lodash");
    assert_eq!(normalize_npm_path("node_modules/next"), "next");
    assert_eq!(normalize_npm_path("node_modules/@swc/helpers"), "@swc/helpers");
    assert_eq!(normalize_npm_path("node_modules/next/node_modules/@swc/helpers"), "@swc/helpers");
    assert_eq!(normalize_npm_path("node_modules/a/node_modules/b"), "b");
    assert_eq!(normalize_npm_path("node_modules/a/node_modules/@s/b/c"), "@s/b");
    assert_eq!(normalize_npm_path("node_modules/@scope/pkg/node_modules/x"), "x");
    assert_eq!(normalize_npm_path("node_modules/a/node_modules/@lonely"), "@lonely");
}

fn npm_entry(path: &str, version: Option<&str>, deps: Option<Vec<&str>>) -> NpmLockEntry {
    NpmLockEntry {
        path: s(path),
        version: version.map(s),
        dependencies: deps.map(|v| v.into_iter().map(s).collect()),
    }
}

#[test]
fn npm_lock_top_level_names() {
    let entries = vec![
        npm_entry("", None, None),
        npm_entry("node_modules/next", Some("14.0.4"), Some(vec!["react"])),
        npm_entry("node_modules/next/node_modules/postcss", Some("8.4.31"), None),
    ];
    let r = packages_from_npm_lock(&entries, &vec![s("next")]);
    assert_eq!(
        r.iter().map(brief).collect::<Vec<_>>(),
        vec![b("next", "14.0.4", true, 0, &["react"]), b("postcss", "8.4.31", false, 1, &[])]
    );
}

#[test]
fn npm_lock() {
    let entries = vec![
        npm_entry("", Some("0.0.1"), None),
        npm_entry("node_modules/a", Some("1"), Some(vec!["b"])),
        npm_entry("node_modules/x/node_modules/b", Some("2"), None),
        npm_entry("node_modules/x/node_modules/y/node_modules/b", Some("3"), None),
        npm_entry("node_modules/x/node_modules/C", None, Some(vec![])),
    ];
    let r = packages_from_npm_lock(&entries, &vec![s("B"), s("c")]);
    let got: Vec<_> = r.iter().map(brief).collect();
    // one package per name, where it first appears, with what its last entry says
    assert_eq!(
        got,
        vec![
            b("a", "1", false, 0, &["b"]),
            b("b", "3", true, 2, &[]),
            b("C", "", true, 1, &[]),
        ]
    );
    assert!(r.iter().all(|p| p.ecosystem == Ecosystem::Node && p.health_score.is_none()));
}

fn lock_pkg(name: &str, version: &str, deps: &[&str]) -> CargoLockPackage {
    CargoLockPackage {
        name: Some(s(name)),
        version: Some(s(version)),
        dependencies: if deps.is_empty() { None } else { Some(deps.iter().map(|x| s(x)).collect()) },
    }
}

#[test]
fn cargo_lock_depths() {
    let packages = vec![
        lock_pkg("app", "0.1.0", &["serde 1.0.0 (registry+https://github.com/rust-lang/crates.io-index)", "log"]),
        lock_pkg("serde", "1.0.0", &["serde_derive"]),
        lock_pkg("serde_derive", "1.0.0", &[]),
        lock_pkg("log", "0.4.0", &[]),
        lock_pkg("orphan", "9", &[]),
    ];
    let r = packages_from_cargo_lock(&packages, &vec![s("serde"), s("log")]);
    let got: Vec<_> = r.iter().map(brief).collect();
    assert_eq!(
        got,
        vec![
            b("app", "0.1.0", false, 1, &["serde", "log"]),
            b("serde", "1.0.0", true, 0, &["serde_derive"]),
            b("serde_derive", "1.0.0", false, 1, &[]),
            b("log", "0.4.0", true, 0, &[]),
            b("orphan", "9", false, 1, &[]),
        ]
    );
}

#[test]
fn cargo_lock_shortest_chains() {
    // c is reached in one step from a, and in two through b and x
    let packages = vec![
        lock_pkg("a", "1", &["c"]),
        lock_pkg("b", "1", &["x"]),
        lock_pkg("x", "1", &["c"]),
        lock_pkg("c", "1", &[]),
    ];
    let r = packages_from_cargo_lock(&packages, &vec![s("a"), s("b")]);
    let depths: Vec<u32> = r.iter().map(|p| p.depth).collect();
    assert_eq!(depths, vec![0, 0, 1, 1]);
    // a -> [x, y], y -> z, z -> e, x -> e: e is two steps from a
    let packages = vec![
        lock_pkg("a", "1", &["x", "y"]),
        lock_pkg("x", "1", &["e"]),
        lock_pkg("y", "1", &["z"]),
        lock_pkg("z", "1", &["e"]),
        lock_pkg("e", "1", &[]),
    ];
    let r = packages_from_cargo_lock(&packages, &vec![s("a")]);
    let depths: Vec<u32> = r.iter().map(|p| p.depth).collect();
    assert_eq!(depths, vec![0, 1, 1, 2, 2]);
}

#[test]
fn cargo_lock_missing_fields() {
    let packages = vec![CargoLockPackage { name: None, version: None, dependencies: None }];
    let r = packages_from_cargo_lock(&packages, &vec![]);
    assert_eq!(r.iter().map(brief).collect::<Vec<_>>(), vec![b("", "", false, 1, &[])]);
}

#[test]
fn go_sum_modules() {
    let content = "github.com/a v1.0.0 h1:xx\n\
                   github.com/a v1.0.0/go.mod h1:yy\n\
                   github.com/b v0.2.0/go.mod h1:zz\n\
                   github.com/a v1.1.0 h1:ww\n\
                   golang.org/x/text v0.3.0 h1:tt\n";
    let r = packages_from_go_sum(content, &vec![d("github.com/a", "v1.0.0")]);
    let got: Vec<_> = r.iter().map(brief).collect();
    assert_eq!(
        got,
        vec![b("github.com/a", "v1.0.0", true, 0, &[]), b("golang.org/x/text", "v0.3.0", false, 0, &[])]
    );
}

#[test]
fn go_mod_without_go_sum() {
    let content = "module m\n\nrequire github.com/x/y v1.0.0\n\nrequire (\n\tb.io/z v2.0.0 // indirect\n\tc.io/w \"v0.1.0\"\n)\n";
    let r = packages_from_go_mod(content, &vec![d("github.com/x/y", "v1.0.0")]);
    assert_eq!(
        r.iter().map(brief).collect::<Vec<_>>(),
        vec![
            b("github.com/x/y", "v1.0.0", true, 0, &[]),
            b("b.io/z", "v2.0.0", false, 0, &[]),
            b("c.io/w", "v0.1.0", false, 0, &[]),
        ]
    );
    assert!(r.iter().all(|p| p.name != "require"));
}

#[test]
fn pom_keeps_test_scope() {
    let xml = "<dependency><groupId>g</groupId><artifactId>a</artifactId><version>1</version></dependency>\
               <dependency><groupId>junit</groupId><artifactId>junit</artifactId><scope>test</scope></dependency>";
    let r = parse_pom_xml_deps(xml, &vec![d("g:a", "1")]);
    assert_eq!(
        r.iter().map(brief).collect::<Vec<_>>(),
        vec![b("g:a", "1", true, 0, &[]), b("junit:junit", "", false, 0, &[])]
    );
    assert!(r.iter().all(|p| p.ecosystem == Ecosystem::Maven));
}

#[test]
fn pom_reads_dependency_elements_only() {
    let xml = "<project><groupId>com.example</groupId><artifactId>app</artifactId><version>1.0</version>\
               <dependencies><dependency><groupId>junit</groupId><artifactId>junit</artifactId>\
               <version>4.12</version></dependency></dependencies></project>";
    let r = parse_pom_xml_deps(xml, &vec![]);
    assert_eq!(r.iter().map(brief).collect::<Vec<_>>(), vec![b("junit:junit", "4.12", false, 0, &[])]);
}

#[test]
fn csproj_packages() {
    let xml = "<PackageReference><Include>A</Include><Version>1.0</Version></PackageReference>";
    let r = parse_csproj_refs(xml, &vec![]);
    assert_eq!(r.iter().map(brief).collect::<Vec<_>>(), vec![b("A", "1.0", false, 0, &[])]);
}

#[test]
fn nuget_lock() {
    let entries = vec![
        NugetLockEntry { name: s("A"), resolved: Some(s("1.0")) },
        NugetLockEntry { name: s("B"), resolved: None },
    ];
    let r = packages_from_nuget_lock(&entries, &vec![d("A", "1.0")]);
    assert_eq!(
        r.iter().map(brief).collect::<Vec<_>>(),
        vec![b("A", "1.0", true, 0, &[]), b("B", "", false, 0, &[])]
    );
}

#[test]
fn declared_packages() {
    let r = packages_from_direct(&vec![d("x", "1"), d("y", "2")], Ecosystem::Python);
    assert_eq!(
        r.iter().map(brief).collect::<Vec<_>>(),
        vec![b("x", "1", true, 0, &[]), b("y", "2", true, 0, &[])]
    );
}

#[test]
fn resolution_dispatch() {
    let direct = vec![d("x", "1")];
    // Python never reads a lock file
    let r = resolve(Ecosystem::Python, &direct, LockData::GoSum(s("x v9 h1:a\n")));
    assert_eq!(r.iter().map(brief).collect::<Vec<_>>(), vec![b("x", "1", true, 0, &[])]);
    // nothing found: the declared dependencies
    let r = resolve(Ecosystem::Node, &direct, LockData::Missing);
    assert_eq!(r.iter().map(brief).collect::<Vec<_>>(), vec![b("x", "1", true, 0, &[])]);
    // project files that reference nothing count as nothing found
    let r = resolve(Ecosystem::NuGet, &direct, LockData::ProjectFiles(vec![s("<Project/>")]));
    assert_eq!(r.iter().map(brief).collect::<Vec<_>>(), vec![b("x", "1", true, 0, &[])]);
    // several project files, one after the other
    let r = resolve(
        Ecosystem::NuGet,
        &direct,
        LockData::ProjectFiles(vec![
            s("<PackageReference><Include>x</Include><Version>1</Version></PackageReference>"),
            s("<PackageReference><Include>y</Include></PackageReference>"),
        ]),
    );
    assert_eq!(
        r.iter().map(brief).collect::<Vec<_>>(),
        vec![b("x", "1", true, 0, &[]), b("y", "", false, 0, &[])]
    );
    let r = resolve(Ecosystem::Go, &direct, LockData::GoSum(s("x v9 h1:a\n")));
    assert_eq!(r.iter().map(brief).collect::<Vec<_>>(), vec![b("x", "v9", true, 0, &[])]);
    let r = resolve(
        Ecosystem::Rust,
        &direct,
        LockData::CargoLock(vec![lock_pkg("x", "1.2.0", &[]), lock_pkg("y", "0.1.0", &[])]),
    );
    assert_eq!(
        r.iter().map(brief).collect::<Vec<_>>(),
        vec![b("x", "1.2.0", true, 0, &[]), b("y", "0.1.0", false, 1, &[])]
    );
}

#[test]
fn lock_file_search() {
    let c = vec![s("Cargo.lock")];
    assert_eq!(lock_file_places("/p/app", true, &c), vec!["/p/app/Cargo.lock", "/p/Cargo.lock"]);
    assert_eq!(
        lock_file_places("/p/app/Cargo.toml", false, &c),
        vec!["/p/app/Cargo.lock", "/p/Cargo.lock"]
    );
    assert_eq!(lock_file_places("Cargo.toml", false, &c), vec!["Cargo.lock"]);
    let many = vec![s("package-lock.json"), s("yarn.lock")];
    let places = lock_file_places("/w/site", true, &many);
    assert_eq!(
        places,
        vec!["/w/site/package-lock.json", "/w/site/yarn.lock", "/w/package-lock.json", "/w/yarn.lock"]
    );
    assert_eq!(find_lock_file(&places, &vec![false, false, true, true]), Some(s("/w/package-lock.json")));
    assert_eq!(find_lock_file(&places, &vec![false, false]), None);
}
