use deepdeps::manifest::{
    detect_ecosystem, detect_manifest, extract_xml_tag, manifest_candidates, manifest_format,
    parse_cargo_toml, parse_go_mod, parse_manifest, parse_nuget, parse_package_json, parse_pom_xml,
    parse_pyproject_toml, parse_python, parse_requirements_txt, split_dep, AnalyzeError, DepSpec,
    ManifestDoc, ManifestFormat, PythonManifest,
};
use deepdeps::models::Ecosystem;

fn p(a: &str, b: &str) -> (String, String) {
    (a.to_string(), b.to_string())
}

#[test]
fn split_dep_cases() {
    assert_eq!(split_dep("requests>=2.0"), p("requests", ">=2.0"));
    assert_eq!(split_dep("flask"), p("flask", "*"));
    assert_eq!(split_dep("  numpy  "), p("numpy", "*"));
    assert_eq!(split_dep("pkg ~= 1.0"), p("pkg", "~= 1.0"));
    assert_eq!(split_dep("x!=1"), p("x", "!=1"));
    assert_eq!(split_dep("a==1;b>2"), p("a", "==1;b>2"));
    assert_eq!(split_dep("c<3"), p("c", "<3"));
}

#[test]
fn requirements_txt() {
    let (name, deps) = parse_requirements_txt(
        "/proj/app/requirements.txt",
        "# comment\nflask==2.0\n\n-r other.txt\n--index-url x\nrequests\n",
    );
    assert_eq!(name, "app");
    assert_eq!(deps, vec![p("flask", "==2.0"), p("requests", "*")]);
}

#[test]
fn go_mod_require_block() {
    let (name, deps) = parse_go_mod(
        "/x/svc/go.mod",
        "module m\n\nrequire (\n\tgithub.com/a/b v1.2.3\n\t\"github.com/c/d\" \"v0.1.0\"\n)\nrequire github.com/e/f v2.0.0\n",
    );
    assert_eq!(name, "svc");
    assert_eq!(
        deps,
        vec![p("github.com/a/b", "v1.2.3"), p("\"github.com/c/d\"", "v0.1.0"), p("github.com/e/f", "v2.0.0")]
    );
}

#[test]
fn pom_xml_skips_test_scope() {
    let xml = "<project><artifactId>demo-app</artifactId><dependencies>\
        <dependency><groupId>org.a</groupId><artifactId>lib</artifactId><version>1.0</version></dependency>\
        <dependency><groupId>junit</groupId><artifactId>junit</artifactId><version>4</version><scope>test</scope></dependency>\
        <dependency><groupId>org.b</groupId><artifactId>util</artifactId></dependency>\
        </dependencies></project>";
    let (name, deps) = parse_pom_xml("/p/demo/pom.xml", xml);
    assert_eq!(name, "demo-app");
    // coordinates are read inside each <dependency> element only
    assert_eq!(deps, vec![p("org.a:lib", "1.0"), p("org.b:util", "")]);
}

#[test]
fn pom_xml_name_falls_back_to_directory() {
    let (name, deps) = parse_pom_xml("/p/demo/pom.xml", "<project></project>");
    assert_eq!(name, "demo");
    assert!(deps.is_empty());
}

#[test]
fn nuget_project_file() {
    let xml = "<Project><ItemGroup>\
        <PackageReference><Include>Newtonsoft.Json</Include><Version>13.0.1</Version></PackageReference>\
        <PackageReference><Include>Serilog</Include><version>2.1</version></PackageReference>\
        <PackageReference><Include>Dapper</Include></PackageReference>\
        </ItemGroup></Project>";
    let (name, deps) = parse_nuget("/src/Api/Api.csproj", xml);
    assert_eq!(name, "Api");
    assert_eq!(
        deps,
        vec![p("Newtonsoft.Json", "13.0.1"), p("Serilog", "2.1"), p("Dapper", "")]
    );
}

#[test]
fn xml_tags() {
    let s: Vec<char> = "<a><version> 1.2 </version></a>".chars().collect();
    assert_eq!(extract_xml_tag(&s, "version"), Some("1.2".to_string()));
    assert_eq!(extract_xml_tag(&s, "scope"), None);
    let open: Vec<char> = "<version>1.2".chars().collect();
    assert_eq!(extract_xml_tag(&open, "version"), None);
}

#[test]
fn package_json() {
    let (name, deps) = parse_package_json(
        "/w/site/package.json",
        None,
        Some(vec![p("react", "^18")]),
        Some(vec![p("jest", "29")]),
    );
    assert_eq!(name, "site");
    assert_eq!(deps, vec![p("react", "^18"), p("jest", "29 (dev)")]);
    let (name, deps) = parse_package_json("package.json", Some("named".to_string()), None, None);
    assert_eq!(name, "named");
    assert!(deps.is_empty());
}

#[test]
fn pyproject() {
    let (name, deps) = parse_pyproject_toml(
        "/w/py/pyproject.toml",
        None,
        Some("poetry-app".to_string()),
        Some(vec!["requests>=2".to_string(), "numpy".to_string()]),
        Some(vec![
            ("python".to_string(), DepSpec::Text("^3.10".to_string())),
            ("rich".to_string(), DepSpec::Table(Some("13".to_string()))),
            ("x".to_string(), DepSpec::Other),
            ("y".to_string(), DepSpec::Table(None)),
        ]),
    );
    assert_eq!(name, "poetry-app");
    assert_eq!(
        deps,
        vec![p("requests", ">=2"), p("numpy", "*"), p("rich", "13"), p("x", "*"), p("y", "*")]
    );
}

#[test]
fn cargo_toml() {
    let (name, deps) = parse_cargo_toml(
        "/c/crate/Cargo.toml",
        None,
        Some(vec![
            ("serde".to_string(), DepSpec::Table(None)),
            ("anyhow".to_string(), DepSpec::Text("1".to_string())),
        ]),
    );
    assert_eq!(name, "crate");
    assert_eq!(deps, vec![p("serde", "*"), p("anyhow", "1")]);
}

#[test]
fn ecosystems_by_file() {
    assert_eq!(detect_ecosystem("x/package.json"), Ok(Ecosystem::Node));
    assert_eq!(detect_ecosystem("x/Cargo.toml"), Ok(Ecosystem::Rust));
    assert_eq!(detect_ecosystem("x/requirements.txt"), Ok(Ecosystem::Python));
    assert_eq!(detect_ecosystem("x/pyproject.toml"), Ok(Ecosystem::Python));
    assert_eq!(detect_ecosystem("a/go.sum"), Ok(Ecosystem::Go));
    assert_eq!(detect_ecosystem("a/go.mod"), Ok(Ecosystem::Go));
    assert_eq!(detect_ecosystem("pom.xml"), Ok(Ecosystem::Maven));
    assert_eq!(detect_ecosystem("packages.lock.json"), Ok(Ecosystem::NuGet));
    assert_eq!(detect_ecosystem("b/foo.csproj"), Ok(Ecosystem::NuGet));
    assert_eq!(detect_ecosystem("b/foo.nuspec"), Ok(Ecosystem::NuGet));
    assert_eq!(detect_ecosystem("c/thing.json"), Ok(Ecosystem::Node));
    assert_eq!(detect_ecosystem("d/x.toml"), Ok(Ecosystem::Rust));
    assert_eq!(detect_ecosystem("e/x.txt"), Ok(Ecosystem::Python));
    let e = detect_ecosystem("f/Makefile").unwrap_err();
    assert_eq!(e, AnalyzeError::UnrecognizedManifest("f/Makefile".to_string()));
    assert_eq!(e.message(), "Unrecognized manifest file: f/Makefile");
}

#[test]
fn go_mod_both_require_forms() {
    let (_, deps) = parse_go_mod(
        "/m/app/go.mod",
        "module example.com/app\n\nrequire a.io/x v1.0.0\n\nrequire (\n\tb.io/y v2.0.0 // indirect\n)\n",
    );
    assert_eq!(deps, vec![p("a.io/x", "v1.0.0"), p("b.io/y", "v2.0.0")]);
}

#[test]
fn manifest_detection() {
    assert_eq!(
        manifest_candidates(),
        vec![
            "package.json",
            "Cargo.toml",
            "pyproject.toml",
            "requirements.txt",
            "go.mod",
            "pom.xml",
            "packages.lock.json"
        ]
    );
    let none: Vec<String> = vec![];
    assert_eq!(
        detect_manifest("proj", true, true, &vec![false, true, true, false], &none),
        Ok("proj/Cargo.toml".to_string())
    );
    assert_eq!(
        detect_manifest("proj/", true, true, &vec![false, false, false, true], &none),
        Ok("proj/requirements.txt".to_string())
    );
    assert_eq!(
        detect_manifest("svc", true, true, &vec![false, false, false, false, true, false, false], &none),
        Ok("svc/go.mod".to_string())
    );
    assert_eq!(
        detect_manifest("java", true, true, &vec![false, false, false, false, false, true, true], &none),
        Ok("java/pom.xml".to_string())
    );
    // a project file comes before packages.lock.json
    let files = vec!["Api.csproj".to_string()];
    assert_eq!(
        detect_manifest("net", true, true, &vec![false, false, false, false, false, false, true], &files),
        Ok("net/Api.csproj".to_string())
    );
    assert_eq!(
        detect_manifest("net", true, true, &vec![false, false, false, false, false, false, true], &none),
        Ok("net/packages.lock.json".to_string())
    );
    let empty = detect_manifest("proj", true, true, &vec![false; 7], &none).unwrap_err();
    assert_eq!(empty, AnalyzeError::NoManifest("proj".to_string()));
    assert_eq!(empty.message(), "No manifest file found in proj");
    assert_eq!(detect_manifest("a.json", false, true, &vec![], &none), Ok("a.json".to_string()));
    let missing = detect_manifest("nope", false, false, &vec![], &none).unwrap_err();
    assert_eq!(missing, AnalyzeError::PathNotFound("nope".to_string()));
    assert_eq!(missing.message(), "Path does not exist: nope");
}

#[test]
fn python_manifests() {
    assert_eq!(parse_python("/x/pyproject.toml"), Ok(PythonManifest::PyProject));
    assert_eq!(parse_python("/x/requirements.txt"), Ok(PythonManifest::Requirements));
    let e = parse_python("/x/setup.py").unwrap_err();
    assert_eq!(e, AnalyzeError::UnknownPythonManifest("/x/setup.py".to_string()));
    assert_eq!(e.message(), "Unknown Python manifest: /x/setup.py");
}

#[test]
fn manifest_formats() {
    assert_eq!(manifest_format("a/package.json", Ecosystem::Node), Ok(ManifestFormat::PackageJson));
    assert_eq!(manifest_format("a/pyproject.toml", Ecosystem::Python), Ok(ManifestFormat::PyProject));
    assert_eq!(manifest_format("a/requirements.txt", Ecosystem::Python), Ok(ManifestFormat::Text));
    assert_eq!(manifest_format("a/Cargo.toml", Ecosystem::Rust), Ok(ManifestFormat::CargoToml));
    assert_eq!(manifest_format("a/go.mod", Ecosystem::Go), Ok(ManifestFormat::Text));
    assert_eq!(manifest_format("a/pom.xml", Ecosystem::Maven), Ok(ManifestFormat::Text));
    assert_eq!(manifest_format("a/x.csproj", Ecosystem::NuGet), Ok(ManifestFormat::Text));
    assert_eq!(
        manifest_format("a/reqs.txt", Ecosystem::Python),
        Err(AnalyzeError::UnknownPythonManifest("a/reqs.txt".to_string()))
    );
}

#[test]
fn manifest_dispatch() {
    let (name, deps) = parse_manifest(
        "/r/tool/requirements.txt",
        Ecosystem::Python,
        ManifestDoc::Text("django>=4\n".to_string()),
    );
    assert_eq!(name, "tool");
    assert_eq!(deps, vec![p("django", ">=4")]);
    let (name, deps) = parse_manifest(
        "/r/tool/go.mod",
        Ecosystem::Go,
        ManifestDoc::Text("require (\n  golang.org/x/net v0.1.0\n)\n".to_string()),
    );
    assert_eq!(name, "tool");
    assert_eq!(deps, vec![p("golang.org/x/net", "v0.1.0")]);
    let (name, deps) = parse_manifest(
        "/r/tool/Cargo.toml",
        Ecosystem::Rust,
        ManifestDoc::CargoToml {
            package_name: Some("tool-rs".to_string()),
            dependencies: Some(vec![("rand".to_string(), DepSpec::Text("0.8".to_string()))]),
        },
    );
    assert_eq!(name, "tool-rs");
    assert_eq!(deps, vec![p("rand", "0.8")]);
}
