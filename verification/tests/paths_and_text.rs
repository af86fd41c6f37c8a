use deepdeps::manifest::detect_ecosystem;
use deepdeps::models::Ecosystem;
use deepdeps::paths::{dir_name_or_project, find_ui_dir, join, ui_dir_candidates};
use deepdeps::security::map_severity;
use deepdeps::models::Severity;
use deepdeps::text::{chars_of, split_chars, trim_chars, words_chars};

#[test]
fn project_names_from_paths() {
    assert_eq!(dir_name_or_project("/a/b/c.txt"), "b");
    assert_eq!(dir_name_or_project("c.txt"), "project");
    assert_eq!(dir_name_or_project("/"), "project");
    assert_eq!(dir_name_or_project("/c.txt"), "project");
}

#[test]
fn path_parts() {
    // the parent, file name and extension of a path come from std's `Path`
    assert_eq!(dir_name_or_project("/srv/shop/api/package.json"), "api");
    assert_eq!(dir_name_or_project("/srv/shop/../package.json"), "project");
    assert_eq!(detect_ecosystem("/a/b.tar.csproj"), Ok(Ecosystem::NuGet));
    assert_eq!(detect_ecosystem("/a.json/Makefile").is_err(), true);
    // a name whose only dot leads it has no extension
    assert_eq!(detect_ecosystem("/x/.json").is_err(), true);
    assert_eq!(detect_ecosystem("/x/.cfg.json"), Ok(Ecosystem::Node));
    assert_eq!(map_severity("ÀHIGH"), Severity::High);
}

#[test]
fn joining() {
    assert_eq!(join("dir", "f.lock"), "dir/f.lock");
    assert_eq!(join("dir/", "f.lock"), "dir/f.lock");
    assert_eq!(join("", "f.lock"), "f.lock");
}

#[test]
fn ui_dirs() {
    assert_eq!(ui_dir_candidates(), vec!["./ui/dist", "../ui/dist", "/usr/share/deepdeps/ui", "/usr/local/share/deepdeps/ui"]);
    assert_eq!(find_ui_dir(&vec![false, false, true, true]), "/usr/share/deepdeps/ui");
    assert_eq!(find_ui_dir(&vec![]), "./ui/dist");
    assert_eq!(find_ui_dir(&vec![false, true]), "../ui/dist");
}

#[test]
fn text_helpers() {
    let t: String = trim_chars(&chars_of("  a b \t")).into_iter().collect();
    assert_eq!(t, "a b");
    let w: Vec<String> = words_chars(&chars_of(" x  y\tz ")).into_iter().map(|v| v.into_iter().collect()).collect();
    assert_eq!(w, vec!["x", "y", "z"]);
    let parts: Vec<String> = split_chars(&chars_of("a,,b"), &chars_of(",")).into_iter().map(|v| v.into_iter().collect()).collect();
    assert_eq!(parts, vec!["a", "", "b"]);
}
