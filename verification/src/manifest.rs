//! Project manifests: which file describes a project, which ecosystem it
//! belongs to, and which dependencies it declares.
use vstd::prelude::*;
use crate::models::Ecosystem;
use crate::paths::{
    dir_name_or_project, extension, extension_of, fallback_project_name, file_name, file_name_of,
    join, join_path, text_or,
};
use crate::text::{
    chars_eq, chars_of, copy_range, find, find_chars, find_from, lines, lines_chars, occurs_at, split,
    split_chars, starts_with, starts_with_chars, strip, string_of, texts, trim, trim_chars,
    trim_quotes, views, words, words_chars,
};

verus! {

/// The items of a list that may be missing (none when it is).
pub open spec fn list_or_empty<T>(o: Option<Vec<T>>) -> Seq<T> {
    match o {
        Some(d) => d@,
        None => seq![],
    }
}

/// The contents of a list of (name, version) pairs.
pub open spec fn pairs(d: Seq<(String, String)>) -> Seq<(Seq<char>, Seq<char>)> {
    d.map_values(|p: (String, String)| (p.0@, p.1@))
}

// ── requirement strings ────────────────────────────────────────────────────
/// The earlier of a position and an occurrence.
pub open spec fn earlier(pos: int, found: Option<int>) -> int {
    match found {
        Some(p) => if p < pos {
            p
        } else {
            pos
        },
        None => pos,
    }
}

/// Where the version part of a requirement begins: the first of the
/// comparison operators `>=`, `==`, `~=`, `>`, `<`, `!=` (the end when none).
pub open spec fn operator_pos(s: Seq<char>) -> int {
    earlier(
        earlier(
            earlier(
                earlier(
                    earlier(earlier(s.len() as int, find(s, ">="@)), find(s, "=="@)),
                    find(s, "~="@),
                ),
                find(s, ">"@),
            ),
            find(s, "<"@),
        ),
        find(s, "!="@),
    )
}

/// A requirement such as `requests>=2.0` as (name, version), both trimmed;
/// the version is `*` when no operator occurs.
pub open spec fn dep_split(s: Seq<char>) -> (Seq<char>, Seq<char>) {
    let pos = operator_pos(s);
    if pos < s.len() {
        (trim(s.take(pos)), trim(s.skip(pos)))
    } else {
        (trim(s), "*"@)
    }
}

fn earlier_of(pos: usize, s: &[char], op: &str) -> (r: usize)
    requires
        pos <= s@.len(),
    ensures
        r == earlier(pos as int, find(s@, op@)),
        r <= pos,
{
    let o = chars_of(op);
    match find_chars(s, o.as_slice(), 0) {
        Some(p) => if p < pos {
            p
        } else {
            pos
        },
        None => pos,
    }
}

/// Splits a requirement into name and version.
pub fn split_dep(s: &str) -> (r: (String, String))
    ensures
        (r.0@, r.1@) == dep_split(s@),
{
    let c = chars_of(s);
    let mut pos = c.len();
    pos = earlier_of(pos, c.as_slice(), ">=");
    pos = earlier_of(pos, c.as_slice(), "==");
    pos = earlier_of(pos, c.as_slice(), "~=");
    pos = earlier_of(pos, c.as_slice(), ">");
    pos = earlier_of(pos, c.as_slice(), "<");
    pos = earlier_of(pos, c.as_slice(), "!=");
    if pos < c.len() {
        let a = copy_range(c.as_slice(), 0, pos);
        let b = copy_range(c.as_slice(), pos, c.len());
        assert(a@ =~= s@.take(pos as int));
        assert(b@ =~= s@.skip(pos as int));
        (string_of(trim_chars(a.as_slice()).as_slice()), string_of(trim_chars(b.as_slice()).as_slice()))
    } else {
        (string_of(trim_chars(c.as_slice()).as_slice()), string_of(chars_of("*").as_slice()))
    }
}

// ── XML tags ───────────────────────────────────────────────────────────────
/// The trimmed text between the first `<tag>` and the next `</tag>` after it.
pub open spec fn xml_tag(s: Seq<char>, tag: Seq<char>) -> Option<Seq<char>> {
    let open = "<"@ + tag + ">"@;
    let close = "</"@ + tag + ">"@;
    match find(s, open) {
        Some(a) => match find_from(s, close, a + open.len()) {
            Some(e) => Some(trim(s.subrange(a + open.len(), e))),
            None => None,
        },
        None => None,
    }
}

fn concat3(a: &str, b: &[char], c: &str) -> (r: Vec<char>)
    ensures
        r@ == a@ + b@ + c@,
{
    let mut r = chars_of(a);
    let ghost r0 = r@;
    let mut i: usize = 0;
    while i < b.len()
        invariant
            i <= b.len(),
            r@ == r0 + b@.subrange(0, i as int),
        decreases b.len() - i,
    {
        r.push(b[i]);
        i += 1;
        assert(r@ =~= r0 + b@.subrange(0, i as int));
    }
    let cc = chars_of(c);
    let ghost r1 = r@;
    let mut j: usize = 0;
    while j < cc.len()
        invariant
            j <= cc.len(),
            r@ == r1 + cc@.subrange(0, j as int),
        decreases cc.len() - j,
    {
        r.push(cc[j]);
        j += 1;
        assert(r@ =~= r1 + cc@.subrange(0, j as int));
    }
    assert(b@.subrange(0, b.len() as int) =~= b@);
    assert(cc@.subrange(0, cc.len() as int) =~= cc@);
    r
}

/// The trimmed text of the first `<tag>…</tag>` element.
pub fn extract_xml_tag(s: &[char], tag: &str) -> (r: Option<String>)
    ensures
        match r {
            Some(t) => xml_tag(s@, tag@) == Some(t@),
            None => xml_tag(s@, tag@) is None,
        },
{
    let t = chars_of(tag);
    let open = concat3("<", t.as_slice(), ">");
    let close = concat3("</", t.as_slice(), ">");
    match find_chars(s, open.as_slice(), 0) {
        Some(a) => {
            let sl = s.len();
            assert(a + open@.len() <= sl);
            let from = a + open.len();
            match find_chars(s, close.as_slice(), from) {
                Some(e) => {
                    let inner = copy_range(s, from, e);
                    Some(string_of(trim_chars(inner.as_slice()).as_slice()))
                },
                None => None,
            }
        },
        None => None,
    }
}

// ── go.mod ─────────────────────────────────────────────────────────────────
/// The module and version that a `go.mod` requirement line names: inside a
/// `require ( … )` block its first two words, on a one-line `require m v`
/// the two words after `require`; the version without quotes. None when
/// the words are missing or the module is empty or `require`.
pub open spec fn requirement(t: Seq<char>, in_block: bool) -> Option<(Seq<char>, Seq<char>)> {
    let parts = words(t);
    let k: int = if in_block {
        0
    } else {
        1
    };
    if parts.len() >= k + 2 && trim(parts[k]).len() > 0 && trim(parts[k]) != "require"@ {
        Some((trim(parts[k]), trim_quotes(trim(parts[k + 1]))))
    } else {
        None
    }
}

/// The requirements of `go.mod` lines from the `i`th on; `in_req` tells
/// whether a `require (` block is open. Each line inside the block, and
/// each one-line `require`, gives the requirement it names.
pub open spec fn go_mod_scan(ls: Seq<Seq<char>>, i: int, in_req: bool) -> Seq<(Seq<char>, Seq<char>)>
    decreases ls.len() - i,
{
    if i < 0 || i >= ls.len() {
        seq![]
    } else {
        let t = trim(ls[i]);
        if starts_with(t, "require ("@) {
            go_mod_scan(ls, i + 1, true)
        } else if in_req && t == ")"@ {
            go_mod_scan(ls, i + 1, false)
        } else if in_req || starts_with(t, "require "@) {
            let rest = go_mod_scan(ls, i + 1, in_req);
            match requirement(t, in_req) {
                Some(p) => seq![p] + rest,
                None => rest,
            }
        } else {
            go_mod_scan(ls, i + 1, in_req)
        }
    }
}

/// The requirements that a `go.mod` declares.
pub open spec fn go_mod_deps(content: Seq<char>) -> Seq<(Seq<char>, Seq<char>)> {
    go_mod_scan(lines(content), 0, false)
}

/// The requirement that a `go.mod` line names.
fn go_require(t: &[char], in_block: bool) -> (r: Option<(String, String)>)
    ensures
        match r {
            Some(p) => requirement(t@, in_block) == Some((p.0@, p.1@)),
            None => requirement(t@, in_block) is None,
        },
{
    let parts = words_chars(t);
    let k: usize = if in_block {
        0
    } else {
        1
    };
    if parts.len() < k + 2 {
        return None;
    }
    assert(parts@[k as int]@ == words(t@)[k as int] && parts@[k + 1]@ == words(t@)[k + 1]);
    let name = trim_chars(parts[k].as_slice());
    let version = strip(trim_chars(parts[k + 1].as_slice()).as_slice(), true);
    if name.len() == 0 || chars_eq(name.as_slice(), chars_of("require").as_slice()) {
        return None;
    }
    Some((string_of(name.as_slice()), string_of(version.as_slice())))
}

/// The requirements of a `go.mod`, in order.
pub fn go_mod_requirements(content: &str) -> (r: Vec<(String, String)>)
    ensures
        pairs(r@) == go_mod_deps(content@),
{
    let c = chars_of(content);
    let ls = lines_chars(c.as_slice());
    let ghost lv = views(ls@);
    let mut deps: Vec<(String, String)> = Vec::new();
    let mut in_req = false;
    let mut i: usize = 0;
    while i < ls.len()
        invariant
            i <= ls.len(),
            lv == views(ls@),
            lv == lines(content@),
            pairs(deps@) + go_mod_scan(lv, i as int, in_req) == go_mod_deps(content@),
        decreases ls.len() - i,
    {
        let t = trim_chars(ls[i].as_slice());
        assert(t@ == trim(lv[i as int]));
        let ghost prev = pairs(deps@);
        if starts_with_chars(t.as_slice(), chars_of("require (").as_slice()) {
            in_req = true;
        } else if in_req && chars_eq(t.as_slice(), chars_of(")").as_slice()) {
            in_req = false;
        } else if in_req || starts_with_chars(t.as_slice(), chars_of("require ").as_slice()) {
            match go_require(t.as_slice(), in_req) {
                Some(p) => {
                    deps.push(p);
                    assert(pairs(deps@) =~= prev.push((p.0@, p.1@)));
                    assert(pairs(deps@) + go_mod_scan(lv, i + 1, in_req) =~= prev + (seq![
                        (p.0@, p.1@),
                    ] + go_mod_scan(lv, i + 1, in_req)));
                },
                None => {},
            }
        }
        i += 1;
    }
    assert(pairs(deps@) =~= pairs(deps@) + go_mod_scan(lv, i as int, in_req));
    deps
}

/// The project name (the directory's) and the requirements of a `go.mod`.
pub fn parse_go_mod(path: &str, content: &str) -> (r: (String, Vec<(String, String)>))
    ensures
        r.0@ == fallback_project_name(path@),
        pairs(r.1@) == go_mod_deps(content@),
{
    (dir_name_or_project(path), go_mod_requirements(content))
}

// ── requirements.txt ───────────────────────────────────────────────────────
/// The requirements of lines from the `i`th on: each trimmed line that is
/// not empty, a comment (`#`) or an option (`-r`, `--`), split into name
/// and version.
pub open spec fn requirements_scan(ls: Seq<Seq<char>>, i: int) -> Seq<(Seq<char>, Seq<char>)>
    decreases ls.len() - i,
{
    if i < 0 || i >= ls.len() {
        seq![]
    } else {
        let t = trim(ls[i]);
        if t.len() == 0 || starts_with(t, "#"@) || starts_with(t, "-r"@) || starts_with(t, "--"@) {
            requirements_scan(ls, i + 1)
        } else {
            seq![dep_split(t)] + requirements_scan(ls, i + 1)
        }
    }
}

/// The requirements that a `requirements.txt` declares.
pub open spec fn requirements_deps(content: Seq<char>) -> Seq<(Seq<char>, Seq<char>)> {
    requirements_scan(lines(content), 0)
}

/// The project name (the directory's) and the requirements of a
/// `requirements.txt`.
pub fn parse_requirements_txt(path: &str, content: &str) -> (r: (String, Vec<(String, String)>))
    ensures
        r.0@ == fallback_project_name(path@),
        pairs(r.1@) == requirements_deps(content@),
{
    let name = dir_name_or_project(path);
    let c = chars_of(content);
    let ls = lines_chars(c.as_slice());
    let ghost lv = views(ls@);
    let mut deps: Vec<(String, String)> = Vec::new();
    let mut i: usize = 0;
    while i < ls.len()
        invariant
            i <= ls.len(),
            lv == views(ls@),
            lv == lines(content@),
            pairs(deps@) + requirements_scan(lv, i as int) == requirements_deps(content@),
        decreases ls.len() - i,
    {
        let t = trim_chars(ls[i].as_slice());
        assert(t@ == trim(lv[i as int]));
        let ghost prev = pairs(deps@);
        if !(t.len() == 0 || starts_with_chars(t.as_slice(), chars_of("#").as_slice())
            || starts_with_chars(t.as_slice(), chars_of("-r").as_slice()) || starts_with_chars(
            t.as_slice(),
            chars_of("--").as_slice(),
        )) {
            let line = string_of(t.as_slice());
            let p = split_dep(line.as_str());
            deps.push(p);
            assert(pairs(deps@) =~= prev.push(dep_split(t@)));
            assert(pairs(deps@) + requirements_scan(lv, i + 1) =~= prev + (seq![dep_split(t@)]
                + requirements_scan(lv, i + 1)));
        }
        i += 1;
    }
    assert(pairs(deps@) =~= pairs(deps@) + requirements_scan(lv, i as int));
    (name, deps)
}

// ── pom.xml ────────────────────────────────────────────────────────────────
/// The Maven coordinates `group:artifact`.
pub open spec fn maven_name(g: Seq<char>, a: Seq<char>) -> Seq<char> {
    g + ":"@ + a
}

/// What a `</dependency>`-separated block holds after its `<dependency>`
/// tag (nothing when it has none).
pub open spec fn dependency_body(b: Seq<char>) -> Seq<char> {
    match find(b, "<dependency>"@) {
        Some(i) => b.skip(i + "<dependency>"@.len()),
        None => seq![],
    }
}

/// What a block holds after its `<dependency>` tag.
pub fn dependency_body_chars(b: &[char]) -> (r: Vec<char>)
    ensures
        r@ == dependency_body(b@),
{
    let tag = chars_of("<dependency>");
    let tl = tag.len();
    let bl = b.len();
    match find_chars(b, tag.as_slice(), 0) {
        Some(i) => {
            assert(tl == tag@.len());
            assert(i + tag@.len() <= b@.len());
            let start = i + tl;
            let r = copy_range(b, start, bl);
            assert(r@ =~= b@.skip(i + tag@.len()));
            r
        },
        None => Vec::new(),
    }
}

/// The dependencies in `</dependency>`-separated blocks from the `i`th on:
/// each block whose `<dependency>` element has a group and an artifact id
/// and a scope other than `test` gives `group:artifact` with its version
/// (empty when there is none).
pub open spec fn pom_scan(bs: Seq<Seq<char>>, i: int) -> Seq<(Seq<char>, Seq<char>)>
    decreases bs.len() - i,
{
    if i < 0 || i >= bs.len() {
        seq![]
    } else {
        let b = dependency_body(bs[i]);
        let rest = pom_scan(bs, i + 1);
        match (xml_tag(b, "groupId"@), xml_tag(b, "artifactId"@)) {
            (Some(g), Some(a)) => if text_or(xml_tag(b, "scope"@), seq![]) != "test"@ {
                seq![(maven_name(g, a), text_or(xml_tag(b, "version"@), seq![]))] + rest
            } else {
                rest
            },
            _ => rest,
        }
    }
}

/// The dependencies that a `pom.xml` declares.
pub open spec fn pom_deps(content: Seq<char>) -> Seq<(Seq<char>, Seq<char>)> {
    pom_scan(split(content, "</dependency>"@), 0)
}

/// The project name of a `pom.xml`: its first artifact id, else the
/// directory's name.
pub open spec fn pom_project_name(path: Seq<char>, content: Seq<char>) -> Seq<char> {
    text_or(xml_tag(content, "artifactId"@), fallback_project_name(path))
}

/// `group:artifact`.
pub fn maven_coordinates(g: &String, a: &String) -> (r: String)
    ensures
        r@ == maven_name(g@, a@),
{
    let gc = chars_of(g.as_str());
    let mut v = concat3("", gc.as_slice(), ":");
    let ac = chars_of(a.as_str());
    let ghost v0 = v@;
    let mut i: usize = 0;
    while i < ac.len()
        invariant
            i <= ac.len(),
            v@ == v0 + ac@.subrange(0, i as int),
        decreases ac.len() - i,
    {
        v.push(ac[i]);
        i += 1;
        assert(v@ =~= v0 + ac@.subrange(0, i as int));
    }
    assert(ac@.subrange(0, ac.len() as int) =~= ac@);
    assert(""@ =~= Seq::<char>::empty()) by {
        reveal_strlit("");
    }
    assert(v@ =~= g@ + ":"@ + a@);
    string_of(v.as_slice())
}

/// A text that may be missing, empty when it is.
pub fn or_empty(o: Option<String>) -> (r: String)
    ensures
        r@ == text_or(
            match o {
                Some(s) => Some(s@),
                None => None,
            },
            seq![],
        ),
{
    match o {
        Some(s) => s,
        None => String::new(),
    }
}

/// The view of an optional text.
pub open spec fn opt_view(o: Option<String>) -> Option<Seq<char>> {
    match o {
        Some(s) => Some(s@),
        None => None,
    }
}

/// The dependency of one `pom.xml` block, if it declares one.
fn pom_block(b: &[char]) -> (r: Option<(String, String)>)
    ensures
        pom_scan(seq![b@], 0) == match r {
            Some(p) => seq![(p.0@, p.1@)],
            None => Seq::<(Seq<char>, Seq<char>)>::empty(),
        },
{
    assert(pom_scan(seq![b@], 1) =~= Seq::<(Seq<char>, Seq<char>)>::empty());
    let body = dependency_body_chars(b);
    let b = body.as_slice();
    let g = extract_xml_tag(b, "groupId");
    let a = extract_xml_tag(b, "artifactId");
    let v = extract_xml_tag(b, "version");
    match (g, a) {
        (Some(g), Some(a)) => {
            let scope = or_empty(extract_xml_tag(b, "scope"));
            if chars_eq(chars_of(scope.as_str()).as_slice(), chars_of("test").as_slice()) {
                None
            } else {
                let r = (maven_coordinates(&g, &a), or_empty(v));
                assert(seq![(r.0@, r.1@)] + Seq::<(Seq<char>, Seq<char>)>::empty() =~= seq![
                    (r.0@, r.1@),
                ]);
                Some(r)
            }
        },
        _ => None,
    }
}

proof fn lemma_scan_step_pom(bs: Seq<Seq<char>>, i: int)
    requires
        0 <= i < bs.len(),
    ensures
        pom_scan(bs, i) == pom_scan(seq![bs[i]], 0) + pom_scan(bs, i + 1),
{
    assert(pom_scan(seq![bs[i]], 1) =~= Seq::<(Seq<char>, Seq<char>)>::empty());
    assert(pom_scan(seq![bs[i]], 0) + pom_scan(bs, i + 1) =~= pom_scan(bs, i)) by {
        let b = bs[i];
        match (xml_tag(b, "groupId"@), xml_tag(b, "artifactId"@)) {
            (Some(g), Some(a)) => {},
            _ => {},
        }
    }
}

/// The project name and dependencies of a `pom.xml`; test-scoped
/// dependencies are left out.
pub fn parse_pom_xml(path: &str, content: &str) -> (r: (String, Vec<(String, String)>))
    ensures
        r.0@ == pom_project_name(path@, content@),
        pairs(r.1@) == pom_deps(content@),
{
    let c = chars_of(content);
    let name = match extract_xml_tag(c.as_slice(), "artifactId") {
        Some(n) => n,
        None => dir_name_or_project(path),
    };
    let sep = chars_of("</dependency>");
    proof {
        reveal_strlit("</dependency>");
    }
    let bs = split_chars(c.as_slice(), sep.as_slice());
    let ghost bv = views(bs@);
    let mut deps: Vec<(String, String)> = Vec::new();
    let mut i: usize = 0;
    while i < bs.len()
        invariant
            i <= bs.len(),
            bv == views(bs@),
            bv == split(content@, "</dependency>"@),
            pairs(deps@) + pom_scan(bv, i as int) == pom_deps(content@),
        decreases bs.len() - i,
    {
        let ghost prev = pairs(deps@);
        proof {
            lemma_scan_step_pom(bv, i as int);
        }
        assert(bs@[i as int]@ == bv[i as int]);
        match pom_block(bs[i].as_slice()) {
            Some(p) => {
                deps.push(p);
                assert(pairs(deps@) =~= prev + seq![(p.0@, p.1@)]);
            },
            None => {
                assert(prev + Seq::<(Seq<char>, Seq<char>)>::empty() =~= prev);
            },
        }
        assert(pairs(deps@) + pom_scan(bv, i + 1) =~= prev + pom_scan(bv, i as int));
        i += 1;
    }
    assert(pairs(deps@) =~= pairs(deps@) + pom_scan(bv, i as int));
    (name, deps)
}

// ── *.csproj ───────────────────────────────────────────────────────────────
/// The version of a package reference: `<Version>`, else `<version>`.
pub open spec fn reference_version(b: Seq<char>) -> Option<Seq<char>> {
    match xml_tag(b, "Version"@) {
        Some(v) => Some(v),
        None => xml_tag(b, "version"@),
    }
}

/// The package references in `</PackageReference>`-separated blocks from
/// the `i`th on: each block with an `<Include>` gives it with its version
/// (empty when there is none).
pub open spec fn csproj_scan(bs: Seq<Seq<char>>, i: int) -> Seq<(Seq<char>, Seq<char>)>
    decreases bs.len() - i,
{
    if i < 0 || i >= bs.len() {
        seq![]
    } else {
        let rest = csproj_scan(bs, i + 1);
        match xml_tag(bs[i], "Include"@) {
            Some(n) => seq![(n, text_or(reference_version(bs[i]), seq![]))] + rest,
            None => rest,
        }
    }
}

/// The package references of a project file.
pub open spec fn csproj_deps(content: Seq<char>) -> Seq<(Seq<char>, Seq<char>)> {
    csproj_scan(split(content, "</PackageReference>"@), 0)
}

/// The package reference of one block, if it holds one.
pub fn csproj_block(b: &[char]) -> (r: Option<(String, String)>)
    ensures
        match r {
            Some(p) => xml_tag(b@, "Include"@) == Some(p.0@) && p.1@ == text_or(
                reference_version(b@),
                seq![],
            ),
            None => xml_tag(b@, "Include"@) is None,
        },
{
    let reference = extract_xml_tag(b, "Include");
    let version = match extract_xml_tag(b, "Version") {
        Some(v) => Some(v),
        None => extract_xml_tag(b, "version"),
    };
    match reference {
        Some(n) => Some((n, or_empty(version))),
        None => None,
    }
}

/// The package references of a project file, in order.
pub fn csproj_references(content: &str) -> (r: Vec<(String, String)>)
    ensures
        pairs(r@) == csproj_deps(content@),
{
    let c = chars_of(content);
    let sep = chars_of("</PackageReference>");
    proof {
        reveal_strlit("</PackageReference>");
    }
    let bs = split_chars(c.as_slice(), sep.as_slice());
    let ghost bv = views(bs@);
    let mut deps: Vec<(String, String)> = Vec::new();
    let mut i: usize = 0;
    while i < bs.len()
        invariant
            i <= bs.len(),
            bv == views(bs@),
            bv == split(content@, "</PackageReference>"@),
            pairs(deps@) + csproj_scan(bv, i as int) == csproj_deps(content@),
        decreases bs.len() - i,
    {
        let ghost prev = pairs(deps@);
        assert(bs@[i as int]@ == bv[i as int]);
        match csproj_block(bs[i].as_slice()) {
            Some(p) => {
                deps.push(p);
                assert(pairs(deps@) =~= prev.push((p.0@, p.1@)));
                assert(pairs(deps@) + csproj_scan(bv, i + 1) =~= prev + (seq![(p.0@, p.1@)]
                    + csproj_scan(bv, i + 1)));
            },
            None => {},
        }
        i += 1;
    }
    assert(pairs(deps@) =~= pairs(deps@) + csproj_scan(bv, i as int));
    deps
}

/// The project name (the directory's) and the package references of a
/// project file.
pub fn parse_nuget(path: &str, content: &str) -> (r: (String, Vec<(String, String)>))
    ensures
        r.0@ == fallback_project_name(path@),
        pairs(r.1@) == csproj_deps(content@),
{
    (dir_name_or_project(path), csproj_references(content))
}

// ── package.json, pyproject.toml, Cargo.toml ───────────────────────────────
/// How a TOML dependency gives its version: as a string, as a table (with
/// its `version` string, if any), or otherwise.
#[derive(Clone, Debug)]
pub enum DepSpec {
    Text(String),
    Table(Option<String>),
    Other,
}

/// The version that a dependency specification gives (`*` when none).
pub open spec fn spec_version(d: DepSpec) -> Seq<char> {
    match d {
        DepSpec::Text(s) => s@,
        DepSpec::Table(v) => text_or(opt_view(v), "*"@),
        DepSpec::Other => "*"@,
    }
}

/// The version that a dependency specification gives.
pub fn version_of(d: &DepSpec) -> (r: String)
    ensures
        r@ == spec_version(*d),
{
    match d {
        DepSpec::Text(s) => s.clone(),
        DepSpec::Table(Some(v)) => v.clone(),
        _ => string_of(chars_of("*").as_slice()),
    }
}

/// The dependencies of a `package.json`: the runtime ones as declared, then
/// the `dev_dependencies` ones with ` (dev)` after the version.
pub open spec fn package_json_deps(
    deps: Seq<(String, String)>,
    dev: Seq<(String, String)>,
) -> Seq<(Seq<char>, Seq<char>)> {
    pairs(deps) + dev.map_values(|p: (String, String)| (p.0@, p.1@ + " (dev)"@))
}

/// The project name and dependencies of a parsed `package.json`; the name
/// falls back to the directory's.
pub fn parse_package_json(
    path: &str,
    name: Option<String>,
    dependencies: Option<Vec<(String, String)>>,
    dev_dependencies: Option<Vec<(String, String)>>,
) -> (r: (String, Vec<(String, String)>))
    ensures
        r.0@ == text_or(opt_view(name), fallback_project_name(path@)),
        pairs(r.1@) == package_json_deps(
            list_or_empty(dependencies),
            list_or_empty(dev_dependencies),
        ),
{
    let project = match name {
        Some(n) => n,
        None => dir_name_or_project(path),
    };
    let mut out: Vec<(String, String)> = Vec::new();
    let ghost d = list_or_empty(dependencies);
    let ghost dv = list_or_empty(dev_dependencies);
    match dependencies {
        Some(ds) => {
            let mut i: usize = 0;
            while i < ds.len()
                invariant
                    i <= ds.len(),
                    d == ds@,
                    pairs(out@) == pairs(d.take(i as int)),
                decreases ds.len() - i,
            {
                out.push((ds[i].0.clone(), ds[i].1.clone()));
                assert(pairs(d.take(i + 1)) =~= pairs(d.take(i as int)).push((d[i as int].0@, d[i as int].1@)));
                i += 1;
                assert(pairs(out@) =~= pairs(d.take(i as int)));
            }
            assert(d.take(ds.len() as int) =~= d);
        },
        None => {
            assert(pairs(out@) =~= pairs(d));
        },
    }
    let ghost base = pairs(out@);
    let ghost dev_view = dv.map_values(|p: (String, String)| (p.0@, p.1@ + " (dev)"@));
    match dev_dependencies {
        Some(ds) => {
            let suffix = chars_of(" (dev)");
            let mut i: usize = 0;
            while i < ds.len()
                invariant
                    i <= ds.len(),
                    dv == ds@,
                    dev_view == dv.map_values(|p: (String, String)| (p.0@, p.1@ + " (dev)"@)),
                    suffix@ == " (dev)"@,
                    pairs(out@) == base + dev_view.take(i as int),
                decreases ds.len() - i,
            {
                let v = chars_of(ds[i].1.as_str());
                let marked = concat3("", v.as_slice(), " (dev)");
                assert(""@ =~= Seq::<char>::empty()) by {
                    reveal_strlit("");
                }
                assert(marked@ =~= ds@[i as int].1@ + " (dev)"@);
                let ghost prev = pairs(out@);
                out.push((ds[i].0.clone(), string_of(marked.as_slice())));
                assert(pairs(out@) =~= prev.push((ds@[i as int].0@, ds@[i as int].1@ + " (dev)"@)));
                assert(dev_view.take(i + 1) =~= dev_view.take(i as int).push(dev_view[i as int]));
                i += 1;
            }
            assert(dev_view.take(ds.len() as int) =~= dev_view);
        },
        None => {
            assert(dev_view =~= Seq::<(Seq<char>, Seq<char>)>::empty());
            assert(pairs(out@) =~= base + dev_view);
        },
    }
    (project, out)
}

/// The version-bearing pairs of TOML dependencies, in order, leaving out
/// those named `skip` (when given).
pub open spec fn toml_deps(d: Seq<(String, DepSpec)>, skip: Option<Seq<char>>) -> Seq<(Seq<char>, Seq<char>)>
    decreases d.len(),
{
    if d.len() == 0 {
        seq![]
    } else {
        let rest = toml_deps(d.drop_last(), skip);
        if skip == Some(d.last().0@) {
            rest
        } else {
            rest.push((d.last().0@, spec_version(d.last().1)))
        }
    }
}

/// Appends the TOML dependencies not named `skip`.
fn push_toml_deps(out: &mut Vec<(String, String)>, d: &Vec<(String, DepSpec)>, skip: Option<&str>)
    ensures
        pairs(final(out)@) == pairs(old(out)@) + toml_deps(
            d@,
            match skip {
                Some(s) => Some(s@),
                None => None,
            },
        ),
{
    let ghost sk = match skip {
        Some(s) => Some(s@),
        None => None::<Seq<char>>,
    };
    let ghost base = pairs(out@);
    let skip_chars = match skip {
        Some(s) => Some(chars_of(s)),
        None => None,
    };
    let mut i: usize = 0;
    assert(toml_deps(d@.take(0), sk) =~= seq![]);
    while i < d.len()
        invariant
            i <= d.len(),
            sk == match skip {
                Some(s) => Some(s@),
                None => None::<Seq<char>>,
            },
            skip_chars matches Some(c) ==> sk == Some(c@),
            skip_chars is None ==> sk is None,
            pairs(out@) == base + toml_deps(d@.take(i as int), sk),
        decreases d.len() - i,
    {
        assert(d@.take(i + 1).drop_last() =~= d@.take(i as int));
        assert(d@.take(i + 1).last() == d@[i as int]);
        let name = chars_of(d[i].0.as_str());
        let skipped = match &skip_chars {
            Some(c) => chars_eq(name.as_slice(), c.as_slice()),
            None => false,
        };
        if !skipped {
            let ghost prev = pairs(out@);
            out.push((d[i].0.clone(), version_of(&d[i].1)));
            assert(pairs(out@) =~= prev.push((d@[i as int].0@, spec_version(d@[i as int].1))));
        }
        i += 1;
    }
    assert(d@.take(d.len() as int) =~= d@);
}

/// The project name of a `pyproject.toml`: `[project]`'s, else
/// `[tool.poetry]`'s, else the directory's.
pub open spec fn pyproject_name(
    path: Seq<char>,
    project_name: Option<String>,
    poetry_name: Option<String>,
) -> Seq<char> {
    match project_name {
        Some(n) => n@,
        None => text_or(opt_view(poetry_name), fallback_project_name(path)),
    }
}

/// The dependencies of a `pyproject.toml`: the `[project]` requirements
/// split into name and version, then the poetry dependencies other than
/// `python`.
pub open spec fn pyproject_deps(
    project_deps: Seq<String>,
    poetry_deps: Seq<(String, DepSpec)>,
) -> Seq<(Seq<char>, Seq<char>)> {
    texts(project_deps).map_values(|s: Seq<char>| dep_split(s)) + toml_deps(
        poetry_deps,
        Some("python"@),
    )
}

/// The project name and dependencies of a parsed `pyproject.toml`.
pub fn parse_pyproject_toml(
    path: &str,
    project_name: Option<String>,
    poetry_name: Option<String>,
    project_deps: Option<Vec<String>>,
    poetry_deps: Option<Vec<(String, DepSpec)>>,
) -> (r: (String, Vec<(String, String)>))
    ensures
        r.0@ == pyproject_name(path@, project_name, poetry_name),
        pairs(r.1@) == pyproject_deps(
            list_or_empty(project_deps),
            list_or_empty(poetry_deps),
        ),
{
    let name = match project_name {
        Some(n) => n,
        None => match poetry_name {
            Some(n) => n,
            None => dir_name_or_project(path),
        },
    };
    let mut out: Vec<(String, String)> = Vec::new();
    let ghost pd = list_or_empty(project_deps);
    let ghost split_view = texts(pd).map_values(|s: Seq<char>| dep_split(s));
    match project_deps {
        Some(ds) => {
            let mut i: usize = 0;
            while i < ds.len()
                invariant
                    i <= ds.len(),
                    pd == ds@,
                    split_view == texts(pd).map_values(|s: Seq<char>| dep_split(s)),
                    pairs(out@) == split_view.take(i as int),
                decreases ds.len() - i,
            {
                let ghost prev = pairs(out@);
                let p = split_dep(ds[i].as_str());
                out.push(p);
                assert(pairs(out@) =~= prev.push(dep_split(ds@[i as int]@)));
                assert(split_view.take(i + 1) =~= split_view.take(i as int).push(split_view[i as int]));
                i += 1;
            }
            assert(split_view.take(ds.len() as int) =~= split_view);
        },
        None => {
            assert(split_view =~= Seq::<(Seq<char>, Seq<char>)>::empty());
            assert(pairs(out@) =~= split_view);
        },
    }
    match poetry_deps {
        Some(d) => {
            push_toml_deps(&mut out, &d, Some("python"));
        },
        None => {
            assert(toml_deps(Seq::<(String, DepSpec)>::empty(), Some("python"@)) =~= seq![]);
            assert(pairs(out@) =~= pairs(out@) + Seq::<(Seq<char>, Seq<char>)>::empty());
        },
    }
    (name, out)
}

/// The project name and dependencies of a parsed `Cargo.toml`: the
/// package's name (else the directory's) and the `[dependencies]` with
/// their versions.
pub fn parse_cargo_toml(
    path: &str,
    package_name: Option<String>,
    dependencies: Option<Vec<(String, DepSpec)>>,
) -> (r: (String, Vec<(String, String)>))
    ensures
        r.0@ == text_or(opt_view(package_name), fallback_project_name(path@)),
        pairs(r.1@) == toml_deps(
            list_or_empty(dependencies),
            None,
        ),
{
    let name = match package_name {
        Some(n) => n,
        None => dir_name_or_project(path),
    };
    let mut out: Vec<(String, String)> = Vec::new();
    assert(pairs(out@) =~= seq![]);
    match dependencies {
        Some(d) => {
            push_toml_deps(&mut out, &d, None);
        },
        None => {
            assert(toml_deps(Seq::<(String, DepSpec)>::empty(), None) =~= seq![]);
        },
    }
    (name, out)
}

// ── detection ──────────────────────────────────────────────────────────────
/// Why a project could not be analysed.
#[derive(Clone, Debug, PartialEq, Eq)]
pub enum AnalyzeError {
    /// A directory without any known manifest.
    NoManifest(String),
    /// A path that does not exist.
    PathNotFound(String),
    /// A file that is no known manifest.
    UnrecognizedManifest(String),
    /// A Python file that is neither `pyproject.toml` nor `requirements.txt`.
    UnknownPythonManifest(String),
}

/// The message of an error.
pub open spec fn error_message(e: AnalyzeError) -> Seq<char> {
    match e {
        AnalyzeError::NoManifest(p) => "No manifest file found in "@ + p@,
        AnalyzeError::PathNotFound(p) => "Path does not exist: "@ + p@,
        AnalyzeError::UnrecognizedManifest(p) => "Unrecognized manifest file: "@ + p@,
        AnalyzeError::UnknownPythonManifest(p) => "Unknown Python manifest: "@ + p@,
    }
}

impl AnalyzeError {
    /// The message of the error.
    pub fn message(&self) -> (r: String)
        ensures
            r@ == error_message(*self),
    {
        let (lead, p) = match self {
            AnalyzeError::NoManifest(p) => ("No manifest file found in ", p),
            AnalyzeError::PathNotFound(p) => ("Path does not exist: ", p),
            AnalyzeError::UnrecognizedManifest(p) => ("Unrecognized manifest file: ", p),
            AnalyzeError::UnknownPythonManifest(p) => ("Unknown Python manifest: ", p),
        };
        let pc = chars_of(p.as_str());
        let m = concat3(lead, pc.as_slice(), "");
        proof {
            reveal_strlit("");
        }
        assert(m@ =~= lead@ + p@);
        string_of(m.as_slice())
    }
}

/// Whether a text is the given one.
fn text_is(a: &str, lit: &str) -> (r: bool)
    ensures
        r == (a@ == lit@),
{
    chars_eq(chars_of(a).as_slice(), chars_of(lit).as_slice())
}

/// The ecosystem of a manifest, by its file name and extension.
pub open spec fn ecosystem_of_file(name: Seq<char>, ext: Seq<char>) -> Option<Ecosystem> {
    if name == "package.json"@ {
        Some(Ecosystem::Node)
    } else if name == "Cargo.toml"@ {
        Some(Ecosystem::Rust)
    } else if name == "pyproject.toml"@ || name == "requirements.txt"@ {
        Some(Ecosystem::Python)
    } else if name == "go.mod"@ || name == "go.sum"@ {
        Some(Ecosystem::Go)
    } else if name == "pom.xml"@ {
        Some(Ecosystem::Maven)
    } else if name == "packages.lock.json"@ {
        Some(Ecosystem::NuGet)
    } else if ext == "csproj"@ || ext == "nuspec"@ {
        Some(Ecosystem::NuGet)
    } else if ext == "json"@ {
        Some(Ecosystem::Node)
    } else if ext == "toml"@ {
        Some(Ecosystem::Rust)
    } else if ext == "txt"@ {
        Some(Ecosystem::Python)
    } else {
        None
    }
}

/// The ecosystem of a manifest, by its file name and extension.
pub fn ecosystem_for(name: &str, ext: &str) -> (r: Option<Ecosystem>)
    ensures
        r == ecosystem_of_file(name@, ext@),
{
    if text_is(name, "package.json") {
        Some(Ecosystem::Node)
    } else if text_is(name, "Cargo.toml") {
        Some(Ecosystem::Rust)
    } else if text_is(name, "pyproject.toml") || text_is(name, "requirements.txt") {
        Some(Ecosystem::Python)
    } else if text_is(name, "go.mod") || text_is(name, "go.sum") {
        Some(Ecosystem::Go)
    } else if text_is(name, "pom.xml") {
        Some(Ecosystem::Maven)
    } else if text_is(name, "packages.lock.json") {
        Some(Ecosystem::NuGet)
    } else if text_is(ext, "csproj") || text_is(ext, "nuspec") {
        Some(Ecosystem::NuGet)
    } else if text_is(ext, "json") {
        Some(Ecosystem::Node)
    } else if text_is(ext, "toml") {
        Some(Ecosystem::Rust)
    } else if text_is(ext, "txt") {
        Some(Ecosystem::Python)
    } else {
        None
    }
}

/// The ecosystem of a manifest path: by its file name and extension (each
/// empty when the path has none).
pub open spec fn manifest_ecosystem(path: Seq<char>) -> Option<Ecosystem> {
    ecosystem_of_file(text_or(file_name_of(path), seq![]), text_or(extension_of(path), seq![]))
}

/// The ecosystem of a manifest path.
pub fn detect_ecosystem(manifest_path: &str) -> (r: Result<Ecosystem, AnalyzeError>)
    ensures
        match r {
            Ok(e) => manifest_ecosystem(manifest_path@) == Some(e),
            Err(err) => {
                &&& manifest_ecosystem(manifest_path@) is None
                &&& err matches AnalyzeError::UnrecognizedManifest(p)
                &&& p@ == manifest_path@
            },
        },
{
    let name = match file_name(manifest_path) {
        Some(n) => n,
        None => String::new(),
    };
    let ext = match extension(manifest_path) {
        Some(e) => e,
        None => String::new(),
    };
    match ecosystem_for(name.as_str(), ext.as_str()) {
        Some(e) => Ok(e),
        None => Err(AnalyzeError::UnrecognizedManifest(string_of(chars_of(manifest_path).as_slice()))),
    }
}

/// The manifests looked for in a project directory by name, in order; a
/// project file (`*.csproj`) is looked for before the last of them.
pub open spec fn manifest_names() -> Seq<Seq<char>> {
    seq![
        "package.json"@,
        "Cargo.toml"@,
        "pyproject.toml"@,
        "requirements.txt"@,
        "go.mod"@,
        "pom.xml"@,
        "packages.lock.json"@,
    ]
}

/// The manifests looked for in a project directory by name, in order.
pub fn manifest_candidates() -> (r: Vec<String>)
    ensures
        texts(r@) == manifest_names(),
{
    let mut r: Vec<String> = Vec::new();
    r.push(string_of(chars_of("package.json").as_slice()));
    r.push(string_of(chars_of("Cargo.toml").as_slice()));
    r.push(string_of(chars_of("pyproject.toml").as_slice()));
    r.push(string_of(chars_of("requirements.txt").as_slice()));
    r.push(string_of(chars_of("go.mod").as_slice()));
    r.push(string_of(chars_of("pom.xml").as_slice()));
    r.push(string_of(chars_of("packages.lock.json").as_slice()));
    assert(texts(r@) =~= manifest_names());
    r
}

/// The first of the manifest candidates from the `k`th up to (not
/// including) the `end`th that is present.
pub open spec fn first_present(present: Seq<bool>, k: int, end: int) -> Option<int>
    decreases end - k,
{
    if k < 0 || k >= end || k >= manifest_names().len() {
        None
    } else if k < present.len() && present[k] {
        Some(k)
    } else {
        first_present(present, k + 1, end)
    }
}

/// The manifest of a path. In a directory: the first manifest candidate
/// other than `packages.lock.json` that is present (`present[k]` tells
/// whether the `k`th is), else the first of its project files (their names
/// given in `project_files`), else `packages.lock.json` if present; joined
/// to the directory. Otherwise the path itself, if it exists; none else.
pub open spec fn manifest_choice(
    path: Seq<char>,
    is_dir: bool,
    exists: bool,
    present: Seq<bool>,
    project_files: Seq<Seq<char>>,
) -> Option<Seq<char>> {
    if is_dir {
        match first_present(present, 0, 6) {
            Some(k) => Some(join_path(path, manifest_names()[k])),
            None => if project_files.len() > 0 {
                Some(join_path(path, project_files[0]))
            } else {
                match first_present(present, 6, 7) {
                    Some(k) => Some(join_path(path, manifest_names()[k])),
                    None => None,
                }
            },
        }
    } else if exists {
        Some(path)
    } else {
        None
    }
}

/// The first candidate in `k..end` that is present.
fn find_present(present: &Vec<bool>, k0: usize, end: usize) -> (r: Option<usize>)
    requires
        k0 <= end <= 7,
    ensures
        match r {
            Some(k) => first_present(present@, k0 as int, end as int) == Some(k as int) && k < end,
            None => first_present(present@, k0 as int, end as int) is None,
        },
{
    let mut k = k0;
    while k < end
        invariant
            k0 <= k <= end <= 7,
            manifest_names().len() == 7,
            first_present(present@, k as int, end as int) == first_present(present@, k0 as int, end as int),
        decreases end - k,
    {
        if k < present.len() && present[k] {
            return Some(k);
        }
        k += 1;
    }
    None
}

/// The manifest of a path, given what exists there.
pub fn detect_manifest(
    path: &str,
    is_dir: bool,
    exists: bool,
    present: &Vec<bool>,
    project_files: &Vec<String>,
) -> (r: Result<String, AnalyzeError>)
    ensures
        match r {
            Ok(m) => manifest_choice(path@, is_dir, exists, present@, texts(project_files@)) == Some(m@),
            Err(e) => {
                &&& manifest_choice(path@, is_dir, exists, present@, texts(project_files@)) is None
                &&& if is_dir {
                    e matches AnalyzeError::NoManifest(p) && p@ == path@
                } else {
                    e matches AnalyzeError::PathNotFound(p) && p@ == path@
                }
            },
        },
{
    let own = string_of(chars_of(path).as_slice());
    if is_dir {
        let names = manifest_candidates();
        assert(manifest_names().len() == 7);
        match find_present(present, 0, 6) {
            Some(k) => {
                assert(names@[k as int]@ == manifest_names()[k as int]);
                return Ok(join(path, names[k].as_str()));
            },
            None => {},
        }
        if project_files.len() > 0 {
            assert(texts(project_files@)[0] == project_files@[0]@);
            return Ok(join(path, project_files[0].as_str()));
        }
        match find_present(present, 6, 7) {
            Some(k) => {
                assert(names@[k as int]@ == manifest_names()[k as int]);
                Ok(join(path, names[k].as_str()))
            },
            None => Err(AnalyzeError::NoManifest(own)),
        }
    } else if exists {
        Ok(own)
    } else {
        Err(AnalyzeError::PathNotFound(own))
    }
}

/// The kinds of Python manifest.
#[derive(Clone, Copy, Debug, PartialEq, Eq, Structural)]
pub enum PythonManifest {
    PyProject,
    Requirements,
}

/// Which Python manifest a path names, by its file name.
pub open spec fn python_kind(path: Seq<char>) -> Option<PythonManifest> {
    let name = text_or(file_name_of(path), seq![]);
    if name == "pyproject.toml"@ {
        Some(PythonManifest::PyProject)
    } else if name == "requirements.txt"@ {
        Some(PythonManifest::Requirements)
    } else {
        None
    }
}

/// Which Python manifest a path names.
pub fn parse_python(path: &str) -> (r: Result<PythonManifest, AnalyzeError>)
    ensures
        match r {
            Ok(k) => python_kind(path@) == Some(k),
            Err(e) => {
                &&& python_kind(path@) is None
                &&& e matches AnalyzeError::UnknownPythonManifest(p)
                &&& p@ == path@
            },
        },
{
    let name = match file_name(path) {
        Some(n) => n,
        None => String::new(),
    };
    if text_is(name.as_str(), "pyproject.toml") {
        Ok(PythonManifest::PyProject)
    } else if text_is(name.as_str(), "requirements.txt") {
        Ok(PythonManifest::Requirements)
    } else {
        Err(AnalyzeError::UnknownPythonManifest(string_of(chars_of(path).as_slice())))
    }
}


// ── manifest reading ───────────────────────────────────────────────────────
/// How a manifest is read before its dependencies are taken out.
#[derive(Clone, Copy, Debug, PartialEq, Eq, Structural)]
pub enum ManifestFormat {
    /// JSON, as a `package.json`.
    PackageJson,
    /// TOML, as a `pyproject.toml`.
    PyProject,
    /// TOML, as a `Cargo.toml`.
    CargoToml,
    /// Plain text (`requirements.txt`, `go.mod`, `pom.xml`, project files).
    Text,
}

/// How the manifest of an ecosystem is read; a Python manifest by its file
/// name, none for an unknown one.
pub open spec fn format_of(path: Seq<char>, eco: Ecosystem) -> Option<ManifestFormat> {
    match eco {
        Ecosystem::Node => Some(ManifestFormat::PackageJson),
        Ecosystem::Python => match python_kind(path) {
            Some(PythonManifest::PyProject) => Some(ManifestFormat::PyProject),
            Some(PythonManifest::Requirements) => Some(ManifestFormat::Text),
            None => None,
        },
        Ecosystem::Rust => Some(ManifestFormat::CargoToml),
        _ => Some(ManifestFormat::Text),
    }
}

/// How to read the manifest at `path` of ecosystem `eco`.
pub fn manifest_format(path: &str, eco: Ecosystem) -> (r: Result<ManifestFormat, AnalyzeError>)
    ensures
        match r {
            Ok(f) => format_of(path@, eco) == Some(f),
            Err(e) => {
                &&& format_of(path@, eco) is None
                &&& e matches AnalyzeError::UnknownPythonManifest(p)
                &&& p@ == path@
            },
        },
{
    match eco {
        Ecosystem::Node => Ok(ManifestFormat::PackageJson),
        Ecosystem::Python => match parse_python(path) {
            Ok(PythonManifest::PyProject) => Ok(ManifestFormat::PyProject),
            Ok(PythonManifest::Requirements) => Ok(ManifestFormat::Text),
            Err(e) => Err(e),
        },
        Ecosystem::Rust => Ok(ManifestFormat::CargoToml),
        _ => Ok(ManifestFormat::Text),
    }
}

/// A manifest as read: the fields of a parsed `package.json`,
/// `pyproject.toml` or `Cargo.toml` that matter, or the text of another.
#[derive(Clone, Debug)]
pub enum ManifestDoc {
    PackageJson {
        name: Option<String>,
        dependencies: Option<Vec<(String, String)>>,
        dev_dependencies: Option<Vec<(String, String)>>,
    },
    PyProject {
        project_name: Option<String>,
        poetry_name: Option<String>,
        project_deps: Option<Vec<String>>,
        poetry_deps: Option<Vec<(String, DepSpec)>>,
    },
    CargoToml { package_name: Option<String>, dependencies: Option<Vec<(String, DepSpec)>> },
    Text(String),
}

/// The format that a read manifest is in.
pub open spec fn doc_format(d: ManifestDoc) -> ManifestFormat {
    match d {
        ManifestDoc::PackageJson { .. } => ManifestFormat::PackageJson,
        ManifestDoc::PyProject { .. } => ManifestFormat::PyProject,
        ManifestDoc::CargoToml { .. } => ManifestFormat::CargoToml,
        ManifestDoc::Text(_) => ManifestFormat::Text,
    }
}

/// The project name `n` and dependencies `d` of a manifest at `path` of
/// ecosystem `eco`, read as `doc`.
pub open spec fn manifest_read(path: Seq<char>, eco: Ecosystem, doc: ManifestDoc, n: Seq<char>, d: Seq<(Seq<char>, Seq<char>)>) -> bool {
    match doc {
        ManifestDoc::PackageJson { name, dependencies, dev_dependencies } => {
            &&& n == text_or(opt_view(name), fallback_project_name(path))
            &&& d == package_json_deps(list_or_empty(dependencies), list_or_empty(dev_dependencies))
        },
        ManifestDoc::PyProject { project_name, poetry_name, project_deps, poetry_deps } => {
            &&& n == pyproject_name(path, project_name, poetry_name)
            &&& d == pyproject_deps(list_or_empty(project_deps), list_or_empty(poetry_deps))
        },
        ManifestDoc::CargoToml { package_name, dependencies } => {
            &&& n == text_or(opt_view(package_name), fallback_project_name(path))
            &&& d == toml_deps(list_or_empty(dependencies), None)
        },
        ManifestDoc::Text(c) => match eco {
            Ecosystem::Go => n == fallback_project_name(path) && d == go_mod_deps(c@),
            Ecosystem::Maven => n == pom_project_name(path, c@) && d == pom_deps(c@),
            Ecosystem::NuGet => n == fallback_project_name(path) && d == csproj_deps(c@),
            _ => n == fallback_project_name(path) && d == requirements_deps(c@),
        },
    }
}

/// The project name and declared dependencies of a manifest, read in the
/// format that `manifest_format` gives for it.
pub fn parse_manifest(path: &str, eco: Ecosystem, doc: ManifestDoc) -> (r: (String, Vec<(String, String)>))
    requires
        format_of(path@, eco) == Some(doc_format(doc)),
    ensures
        manifest_read(path@, eco, doc, r.0@, pairs(r.1@)),
{
    match doc {
        ManifestDoc::PackageJson { name, dependencies, dev_dependencies } => parse_package_json(
            path,
            name,
            dependencies,
            dev_dependencies,
        ),
        ManifestDoc::PyProject { project_name, poetry_name, project_deps, poetry_deps } => {
            parse_pyproject_toml(path, project_name, poetry_name, project_deps, poetry_deps)
        },
        ManifestDoc::CargoToml { package_name, dependencies } => parse_cargo_toml(
            path,
            package_name,
            dependencies,
        ),
        ManifestDoc::Text(c) => match eco {
            Ecosystem::Go => parse_go_mod(path, c.as_str()),
            Ecosystem::Maven => parse_pom_xml(path, c.as_str()),
            Ecosystem::NuGet => parse_nuget(path, c.as_str()),
            _ => parse_requirements_txt(path, c.as_str()),
        },
    }
}


// ── laws ───────────────────────────────────────────────────────────────────
proof fn lemma_first_present_from(present: Seq<bool>, j: int, k: int, end: int)
    requires
        0 <= j <= k < end <= 7,
        k < present.len() && present[k],
        forall|q: int| j <= q < k ==> !(q < present.len() && present[q]),
    ensures
        first_present(present, j, end) == Some(k),
    decreases k - j,
{
    if j < k {
        lemma_first_present_from(present, j + 1, k, end);
    }
}

proof fn lemma_first_present_none(present: Seq<bool>, j: int, end: int)
    requires
        0 <= j <= end <= 7,
        forall|q: int| j <= q < end ==> !(q < present.len() && present[q]),
    ensures
        first_present(present, j, end) is None,
    decreases end - j,
{
    if j < end {
        lemma_first_present_none(present, j + 1, end);
    }
}

/// In a directory, the manifest is the first of `package.json`,
/// `Cargo.toml`, `pyproject.toml`, `requirements.txt`, `go.mod`, `pom.xml`
/// that is present; without any of them the first project file, then
/// `packages.lock.json`.
pub proof fn lemma_manifest_order(path: Seq<char>, exists: bool, present: Seq<bool>, project_files: Seq<Seq<char>>)
    ensures
        forall|k: int|
            0 <= k < 6 && k < present.len() && present[k] && (forall|q: int|
                0 <= q < k ==> !(q < present.len() && present[q])) ==> manifest_choice(
                path,
                true,
                exists,
                present,
                project_files,
            ) == Some(
                join_path(
                    path,
                    seq![
                        "package.json"@,
                        "Cargo.toml"@,
                        "pyproject.toml"@,
                        "requirements.txt"@,
                        "go.mod"@,
                        "pom.xml"@,
                    ][k],
                ),
            ),
        (forall|q: int| 0 <= q < 6 ==> !(q < present.len() && present[q])) && project_files.len() > 0
            ==> manifest_choice(path, true, exists, present, project_files) == Some(
            join_path(path, project_files[0]),
        ),
        (forall|q: int| 0 <= q < 6 ==> !(q < present.len() && present[q])) && project_files.len() == 0
            && 6 < present.len() && present[6] ==> manifest_choice(path, true, exists, present, project_files)
            == Some(join_path(path, "packages.lock.json"@)),
        (forall|q: int| 0 <= q < 7 ==> !(q < present.len() && present[q])) && project_files.len() == 0
            ==> manifest_choice(path, true, exists, present, project_files) is None,
{
    assert forall|k: int|
        0 <= k < 6 && k < present.len() && present[k] && (forall|q: int|
            0 <= q < k ==> !(q < present.len() && present[q])) implies manifest_choice(
        path,
        true,
        exists,
        present,
        project_files,
    ) == Some(
        join_path(
            path,
            seq![
                "package.json"@,
                "Cargo.toml"@,
                "pyproject.toml"@,
                "requirements.txt"@,
                "go.mod"@,
                "pom.xml"@,
            ][k],
        ),
    ) by {
        lemma_first_present_from(present, 0, k, 6);
    }
    if forall|q: int| 0 <= q < 6 ==> !(q < present.len() && present[q]) {
        lemma_first_present_none(present, 0, 6);
        if 6 < present.len() && present[6] {
            lemma_first_present_from(present, 6, 6, 7);
        }
        if forall|q: int| 0 <= q < 7 ==> !(q < present.len() && present[q]) {
            lemma_first_present_none(present, 6, 7);
        }
    }
}


/// A character that starts a comparison operator of a requirement.
pub open spec fn is_operator_char(c: char) -> bool {
    c == '<' || c == '>' || c == '=' || c == '~' || c == '!'
}

proof fn lemma_find_from_at_least(s: Seq<char>, p: Seq<char>, i: int)
    ensures
        find_from(s, p, i) matches Some(k) ==> i <= k,
    decreases s.len() - i,
{
    if !(i < 0 || i + p.len() > s.len()) && !occurs_at(s, p, i) && i < s.len() {
        lemma_find_from_at_least(s, p, i + 1);
    }
}

/// A pattern that starts with an operator character is not found before
/// index `m` when no operator character stands before `m`.
proof fn lemma_find_from_not_before(s: Seq<char>, p: Seq<char>, i: int, m: int)
    requires
        0 <= i <= m <= s.len(),
        p.len() > 0,
        is_operator_char(p[0]),
        forall|j: int| 0 <= j < m ==> !is_operator_char(s[j]),
    ensures
        find_from(s, p, i) matches Some(k) ==> m <= k,
        m + p.len() <= s.len() ==> find_from(s, p, i) == find_from(s, p, m),
    decreases m - i,
{
    if i < m {
        if i + p.len() <= s.len() {
            assert(!occurs_at(s, p, i)) by {
                if occurs_at(s, p, i) {
                    assert(s.subrange(i, i + p.len())[0] == s[i]);
                }
            }
        }
        lemma_find_from_not_before(s, p, i + 1, m);
    } else {
        lemma_find_from_at_least(s, p, i);
    }
}

/// The version part of a requirement starts at its first comparison
/// operator: for a name without operator characters, followed by one of
/// `>=`, `==`, `~=`, `>`, `<`, `!=` and any text, the name (trimmed) is
/// the name and the operator with the text (trimmed) is the version.
pub proof fn lemma_requirement_split(n: Seq<char>, op: Seq<char>, v: Seq<char>)
    requires
        forall|i: int| 0 <= i < n.len() ==> !is_operator_char(n[i]),
        op == ">="@ || op == "=="@ || op == "~="@ || op == ">"@ || op == "<"@ || op == "!="@,
    ensures
        dep_split(n + op + v) == (trim(n), trim(op + v)),
{
    reveal_strlit(">=");
    reveal_strlit("==");
    reveal_strlit("~=");
    reveal_strlit(">");
    reveal_strlit("<");
    reveal_strlit("!=");
    let s = n + op + v;
    let m = n.len() as int;
    assert forall|j: int| 0 <= j < m implies !is_operator_char(s[j]) by {
        assert(s[j] == n[j]);
    }
    lemma_find_from_not_before(s, ">="@, 0, m);
    lemma_find_from_not_before(s, "=="@, 0, m);
    lemma_find_from_not_before(s, "~="@, 0, m);
    lemma_find_from_not_before(s, ">"@, 0, m);
    lemma_find_from_not_before(s, "<"@, 0, m);
    lemma_find_from_not_before(s, "!="@, 0, m);
    assert(s.subrange(m, m + op.len()) =~= op);
    assert(occurs_at(s, op, m));
    assert(find_from(s, op, m) == Some(m));
    assert(find(s, op) == Some(m));
    assert(operator_pos(s) == m);
    assert(s.take(m) =~= n);
    assert(s.skip(m) =~= op + v);
}

/// A requirement without any operator character is all name, with any
/// version `*`.
pub proof fn lemma_requirement_without_operator(s: Seq<char>)
    requires
        forall|i: int| 0 <= i < s.len() ==> !is_operator_char(s[i]),
    ensures
        dep_split(s) == (trim(s), "*"@),
{
    reveal_strlit(">=");
    reveal_strlit("==");
    reveal_strlit("~=");
    reveal_strlit(">");
    reveal_strlit("<");
    reveal_strlit("!=");
    let m = s.len() as int;
    lemma_find_from_not_before(s, ">="@, 0, m);
    lemma_find_from_not_before(s, "=="@, 0, m);
    lemma_find_from_not_before(s, "~="@, 0, m);
    lemma_find_from_not_before(s, ">"@, 0, m);
    lemma_find_from_not_before(s, "<"@, 0, m);
    lemma_find_from_not_before(s, "!="@, 0, m);
    assert(operator_pos(s) == m);
}

} // verus!
