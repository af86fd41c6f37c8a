//! Dependency resolution: turning lock files and manifests into the list of
//! installed packages, per ecosystem.
use vstd::prelude::*;
use vstd::set_lib::{lemma_int_range, lemma_len_subset, set_int_range};
use crate::models::{Ecosystem, Package};
use crate::text::{
    chars_eq, chars_of, copy_range, count_occurrences, ends_with, ends_with_chars, find, find_chars,
    lines, lines_chars, lowercase, split, split_chars, starts_with, starts_with_chars, string_of,
    texts, to_lowercase, trim, trim_chars, views, words, words_chars,
};
use crate::manifest::{
    go_mod_deps, go_mod_requirements, dependency_body, dependency_body_chars, opt_view, csproj_deps, csproj_references, extract_xml_tag, maven_coordinates, maven_name, or_empty, pairs,
    xml_tag,
};
use crate::paths::{join, join_path, path_parent, path_parent_of, text_or};

verus! {

/// `p` is a package as first made from a lock file or a manifest: the given
/// identity and dependencies, no metrics, no vulnerabilities, no scores.
pub open spec fn made_package(
    p: Package,
    name: Seq<char>,
    version: Seq<char>,
    eco: Ecosystem,
    direct: bool,
    depth: u32,
    deps: Seq<Seq<char>>,
) -> bool {
    &&& p.name@ == name
    &&& p.version@ == version
    &&& p.ecosystem == eco
    &&& p.direct == direct
    &&& p.depth == depth
    &&& texts(p.dependencies@) == deps
    &&& p.loc is None
    &&& p.file_count is None
    &&& p.installed_size is None
    &&& p.health_score is None
    &&& p.vulnerabilities@.len() == 0
    &&& p.maintainers@.len() == 0
    &&& p.license is None
    &&& p.last_release_days is None
    &&& p.bus_factor is None
    &&& p.used_apis is None
    &&& p.total_apis is None
    &&& p.risk_level is None
}

/// A package with no metrics yet.
pub fn make_pkg(
    name: String,
    version: String,
    eco: Ecosystem,
    direct: bool,
    depth: u32,
    deps: Vec<String>,
) -> (p: Package)
    ensures
        made_package(p, name@, version@, eco, direct, depth, texts(deps@)),
{
    Package {
        name,
        version,
        ecosystem: eco,
        direct,
        depth,
        dependencies: deps,
        loc: None,
        file_count: None,
        installed_size: None,
        health_score: None,
        vulnerabilities: Vec::new(),
        maintainers: Vec::new(),
        license: None,
        last_release_days: None,
        bus_factor: None,
        used_apis: None,
        total_apis: None,
        risk_level: None,
    }
}

/// A copy of a text.
pub fn copy_text(s: &String) -> (r: String)
    ensures
        r@ == s@,
{
    s.clone()
}

/// A copy of a list of texts.
pub fn copy_texts(v: &Vec<String>) -> (r: Vec<String>)
    ensures
        texts(r@) == texts(v@),
{
    let mut r: Vec<String> = Vec::new();
    let mut i: usize = 0;
    while i < v.len()
        invariant
            i <= v.len(),
            texts(r@) == texts(v@).take(i as int),
        decreases v.len() - i,
    {
        let ghost prev = texts(r@);
        r.push(copy_text(&v[i]));
        assert(texts(r@) =~= prev.push(v@[i as int]@));
        assert(texts(v@).take(i + 1) =~= texts(v@).take(i as int).push(v@[i as int]@));
        i += 1;
    }
    assert(texts(v@).take(v.len() as int) =~= texts(v@));
    r
}

/// The names of a list of (name, version) pairs.
pub open spec fn pair_names(d: Seq<(String, String)>) -> Seq<Seq<char>> {
    d.map_values(|p: (String, String)| p.0@)
}

/// `r` holds each declared dependency, in order, as a direct package of
/// `eco` at depth 0 with the declared version and no dependencies.
pub open spec fn as_declared(r: Seq<Package>, d: Seq<(String, String)>, eco: Ecosystem) -> bool {
    &&& r.len() == d.len()
    &&& forall|i: int|
        0 <= i < r.len() ==> made_package(#[trigger] r[i], d[i].0@, d[i].1@, eco, true, 0, seq![])
}

/// Each declared dependency as a direct package at depth 0, with the
/// declared version and no dependencies of its own.
pub fn packages_from_direct(direct_deps: &Vec<(String, String)>, eco: Ecosystem) -> (r: Vec<
    Package,
>)
    ensures
        as_declared(r@, direct_deps@, eco),
{
    let mut r: Vec<Package> = Vec::new();
    let mut i: usize = 0;
    while i < direct_deps.len()
        invariant
            i <= direct_deps.len(),
            r@.len() == i,
            forall|k: int|
                0 <= k < i ==> made_package(
                    #[trigger] r@[k],
                    direct_deps@[k].0@,
                    direct_deps@[k].1@,
                    eco,
                    true,
                    0,
                    seq![],
                ),
        decreases direct_deps.len() - i,
    {
        let p = make_pkg(
            copy_text(&direct_deps[i].0),
            copy_text(&direct_deps[i].1),
            eco,
            true,
            0,
            Vec::new(),
        );
        assert(texts(Seq::<String>::empty()) =~= seq![]);
        r.push(p);
        i += 1;
    }
    r
}

/// Whether a name is among some names.
pub fn name_in(names: &Vec<String>, n: &String) -> (r: bool)
    ensures
        r == texts(names@).contains(n@),
{
    let mut i: usize = 0;
    while i < names.len()
        invariant
            i <= names.len(),
            forall|k: int| 0 <= k < i ==> names@[k]@ != n@,
        decreases names.len() - i,
    {
        if names[i] == *n {
            assert(texts(names@)[i as int] == n@);
            return true;
        }
        i += 1;
    }
    assert forall|k: int| 0 <= k < texts(names@).len() implies texts(names@)[k] != n@ by {
        assert(texts(names@)[k] == names@[k]@);
    }
    false
}

// ── Cargo.lock ──────────────────────────────────────────────────────────────
/// One `[[package]]` entry of a `Cargo.lock`.
#[derive(Clone, Debug)]
pub struct CargoLockPackage {
    pub name: Option<String>,
    pub version: Option<String>,
    pub dependencies: Option<Vec<String>>,
}

/// A text that may be missing, empty when it is.
pub open spec fn opt_text(o: Option<String>) -> Seq<char> {
    match o {
        Some(s) => s@,
        None => seq![],
    }
}

/// The part of a text before its first space (all of it without one).
pub open spec fn first_token(s: Seq<char>) -> Seq<char> {
    match find(s, seq![' ']) {
        Some(i) => s.take(i),
        None => s,
    }
}

/// The name of a lock entry.
pub open spec fn lock_name(p: CargoLockPackage) -> Seq<char> {
    opt_text(p.name)
}

/// The version of a lock entry.
pub open spec fn lock_version(p: CargoLockPackage) -> Seq<char> {
    opt_text(p.version)
}

/// The dependency names of a lock entry (`"name version (source)"` cut at
/// the first space).
pub open spec fn lock_deps(p: CargoLockPackage) -> Seq<Seq<char>> {
    match p.dependencies {
        Some(d) => texts(d@).map_values(|s: Seq<char>| first_token(s)),
        None => seq![],
    }
}

/// The names of all lock entries.
pub open spec fn lock_names(ps: Seq<CargoLockPackage>) -> Seq<Seq<char>> {
    ps.map_values(|p: CargoLockPackage| lock_name(p))
}

/// The last index at which a name occurs.
pub open spec fn last_index(names: Seq<Seq<char>>, n: Seq<char>) -> Option<int>
    decreases names.len(),
{
    if names.len() == 0 {
        None
    } else if names.last() == n {
        Some(names.len() - 1)
    } else {
        last_index(names.drop_last(), n)
    }
}

/// The entry that the `k`th dependency of entry `i` names: the last entry
/// with that name.
pub open spec fn dep_target(ps: Seq<CargoLockPackage>, i: int, k: int) -> Option<int> {
    last_index(lock_names(ps), lock_deps(ps[i])[k])
}

/// Entry `i` depends on entry `j`.
pub open spec fn lock_edge(ps: Seq<CargoLockPackage>, i: int, j: int) -> bool {
    &&& 0 <= i < ps.len()
    &&& exists|k: int| 0 <= k < lock_deps(ps[i]).len() && dep_target(ps, i, k) == Some(j)
}

/// Entry `i` is a declared (direct) dependency.
pub open spec fn lock_direct(ps: Seq<CargoLockPackage>, direct: Seq<Seq<char>>, i: int) -> bool {
    direct.contains(lock_name(ps[i]))
}

/// `p` is a chain of dependencies that starts at a direct entry.
pub open spec fn lock_path(ps: Seq<CargoLockPackage>, direct: Seq<Seq<char>>, p: Seq<int>) -> bool {
    &&& p.len() > 0
    &&& 0 <= p[0] < ps.len()
    &&& lock_direct(ps, direct, p[0])
    &&& forall|k: int| 0 <= k < p.len() - 1 ==> lock_edge(ps, #[trigger] p[k], p[k + 1])
}

/// Entry `i` is installed because of a declared dependency.
pub open spec fn lock_reachable(ps: Seq<CargoLockPackage>, direct: Seq<Seq<char>>, i: int) -> bool {
    exists|p: Seq<int>| lock_path(ps, direct, p) && p.last() == i
}

pub(crate) proof fn lemma_last_index_range(names: Seq<Seq<char>>, n: Seq<char>)
    ensures
        last_index(names, n) matches Some(j) ==> 0 <= j < names.len() && names[j] == n,
    decreases names.len(),
{
    if names.len() > 0 && names.last() != n {
        lemma_last_index_range(names.drop_last(), n);
    }
}

pub(crate) proof fn lemma_last_index_found(names: Seq<Seq<char>>, n: Seq<char>, k: int)
    requires
        0 <= k < names.len(),
        names[k] == n,
    ensures
        last_index(names, n) matches Some(j) && k <= j < names.len() && names[j] == n,
    decreases names.len(),
{
    if names.last() != n {
        lemma_last_index_found(names.drop_last(), n, k);
    }
}

/// The last index at which a name occurs.
pub(crate) fn find_last(names: &Vec<Vec<char>>, n: &[char]) -> (r: Option<usize>)
    ensures
        match r {
            Some(j) => last_index(views(names@), n@) == Some(j as int),
            None => last_index(views(names@), n@) is None,
        },
{
    let mut i = names.len();
    assert(views(names@).take(i as int) =~= views(names@));
    while i > 0
        invariant
            i <= names.len(),
            last_index(views(names@).take(i as int), n@) == last_index(views(names@), n@),
        decreases i,
    {
        let ghost t = views(names@).take(i as int);
        assert(t.drop_last() =~= views(names@).take(i - 1));
        assert(t.last() == names@[i - 1]@);
        if chars_eq(names[i - 1].as_slice(), n) {
            return Some(i - 1);
        }
        i -= 1;
    }
    None
}

/// The part of a text before its first space.
fn first_token_of(s: &String) -> (r: String)
    ensures
        r@ == first_token(s@),
{
    let c = chars_of(s.as_str());
    let space = vec![' '];
    assert(space@ =~= seq![' ']);
    match find_chars(c.as_slice(), space.as_slice(), 0) {
        Some(i) => {
            let t = copy_range(c.as_slice(), 0, i);
            assert(t@ =~= c@.take(i as int));
            string_of(t.as_slice())
        },
        None => string_of(c.as_slice()),
    }
}

/// The dependency names of a lock entry.
fn entry_deps(p: &CargoLockPackage) -> (r: Vec<String>)
    ensures
        texts(r@) == lock_deps(*p),
{
    let mut r: Vec<String> = Vec::new();
    match &p.dependencies {
        Some(d) => {
            let mut i: usize = 0;
            while i < d.len()
                invariant
                    i <= d.len(),
                    texts(r@) == texts(d@).take(i as int).map_values(
                        |s: Seq<char>| first_token(s),
                    ),
                decreases d.len() - i,
            {
                let ghost prev = texts(r@);
                r.push(first_token_of(&d[i]));
                assert(texts(r@) =~= prev.push(first_token(d@[i as int]@)));
                assert(texts(d@).take(i + 1).map_values(|s: Seq<char>| first_token(s))
                    =~= prev.push(first_token(d@[i as int]@)));
                i += 1;
            }
            assert(texts(d@).take(d.len() as int) =~= texts(d@));
        },
        None => {
            assert(texts(r@) =~= seq![]);
        },
    }
    r
}

/// A text that may be missing, empty when it is.
fn text_or_empty(o: &Option<String>) -> (r: String)
    ensures
        r@ == opt_text(*o),
{
    match o {
        Some(s) => s.clone(),
        None => String::new(),
    }
}

/// The dependency targets `t` are those of the lock entries `ps`.
pub open spec fn targets_ok(ps: Seq<CargoLockPackage>, t: Seq<Vec<Option<usize>>>) -> bool {
    &&& t.len() == ps.len()
    &&& forall|a: int| 0 <= a < ps.len() ==> (#[trigger] t[a])@.len() == lock_deps(ps[a]).len()
    &&& forall|a: int, k: int|
        0 <= a < ps.len() && 0 <= k < t[a]@.len() ==> match #[trigger] t[a]@[k] {
            Some(j) => dep_target(ps, a, k) == Some(j as int),
            None => dep_target(ps, a, k) is None,
        }
}

/// The direct flags `f` are those of the lock entries `ps`.
pub open spec fn flags_ok(ps: Seq<CargoLockPackage>, dn: Seq<Seq<char>>, f: Seq<bool>) -> bool {
    &&& f.len() == ps.len()
    &&& forall|k: int| 0 <= k < ps.len() ==> #[trigger] f[k] == lock_direct(ps, dn, k)
}

/// The list holds the entry `k`.
pub open spec fn in_list(v: Seq<usize>, k: int) -> bool {
    exists|m: int| 0 <= m < v.len() && v[m] as int == k
}

/// The visited entries.
pub open spec fn visited_set(depth: Seq<Option<u32>>) -> Set<int> {
    Set::new(|i: int| 0 <= i < depth.len() && depth[i] is Some)
}

/// A chain of `d + 1` entries leads from a direct entry to entry `i`.
pub open spec fn chain_of_len(ps: Seq<CargoLockPackage>, dn: Seq<Seq<char>>, i: int, d: int) -> bool {
    exists|p: Seq<int>| #[trigger] lock_path(ps, dn, p) && p.last() == i && p.len() == d + 1
}

/// `d` is the length of a shortest chain of dependencies from a direct
/// entry to entry `i` (0 for a direct entry).
pub open spec fn shortest_chain(ps: Seq<CargoLockPackage>, dn: Seq<Seq<char>>, i: int, d: int) -> bool {
    &&& chain_of_len(ps, dn, i, d)
    &&& forall|p: Seq<int>| #[trigger] lock_path(ps, dn, p) && p.last() == i ==> d + 1 <= p.len()
}

/// The `k`th dependency target of visited entry `a` is visited, at most one
/// deeper than `a`.
pub open spec fn bounded_at(t: Seq<Vec<Option<usize>>>, depth: Seq<Option<u32>>, a: int, k: int) -> bool {
    t[a]@[k] matches Some(j) ==> depth[j as int] is Some && depth[j as int]->0 <= depth[a]->0 + 1
}

/// The walk's depths: for each entry that a chain from a direct entry
/// reaches, the length of a shortest such chain; none for the others.
pub open spec fn walk_ok(ps: Seq<CargoLockPackage>, dn: Seq<Seq<char>>, depth: Seq<Option<u32>>) -> bool {
    &&& depth.len() == ps.len()
    &&& forall|k: int| 0 <= k < ps.len() ==> ((#[trigger] depth[k]) is Some <==> lock_reachable(ps, dn, k))
    &&& forall|k: int|
        0 <= k < ps.len() && (#[trigger] depth[k]) is Some ==> shortest_chain(ps, dn, k, depth[k]->0 as int)
}

proof fn lemma_visited_grows(depth: Seq<Option<u32>>, i: int, d: u32)
    requires
        0 <= i < depth.len(),
        depth[i] is None,
    ensures
        visited_set(depth.update(i, Some(d))) == visited_set(depth).insert(i),
        visited_set(depth.update(i, Some(d))).len() == visited_set(depth).len() + 1,
        visited_set(depth.update(i, Some(d))).len() <= depth.len(),
{
    lemma_visited_bounded(depth);
    assert(visited_set(depth.update(i, Some(d))) =~= visited_set(depth).insert(i));
    lemma_visited_bounded(depth.update(i, Some(d)));
}

proof fn lemma_visited_bounded(depth: Seq<Option<u32>>)
    ensures
        visited_set(depth).finite(),
        visited_set(depth).len() <= depth.len(),
{
    lemma_int_range(0, depth.len() as int);
    lemma_len_subset(visited_set(depth), set_int_range(0, depth.len() as int));
}

/// Once every visited entry's targets are visited at most one deeper, the
/// end of each chain is visited, no deeper than the chain is long.
proof fn lemma_path_bound(
    ps: Seq<CargoLockPackage>,
    dn: Seq<Seq<char>>,
    t: Seq<Vec<Option<usize>>>,
    depth: Seq<Option<u32>>,
    p: Seq<int>,
)
    requires
        depth.len() == ps.len(),
        targets_ok(ps, t),
        forall|i: int| 0 <= i < ps.len() && lock_direct(ps, dn, i) ==> depth[i] == Some(0u32),
        forall|a: int, k: int|
            0 <= a < ps.len() && depth[a] is Some && 0 <= k < t[a]@.len() ==> bounded_at(t, depth, a, k),
        lock_path(ps, dn, p),
    ensures
        0 <= p.last() < ps.len(),
        depth[p.last()] is Some,
        depth[p.last()]->0 + 1 <= p.len(),
    decreases p.len(),
{
    if p.len() > 1 {
        let q = p.drop_last();
        assert forall|k: int| 0 <= k < q.len() - 1 implies lock_edge(ps, #[trigger] q[k], q[k + 1]) by {
            assert(q[k] == p[k] && q[k + 1] == p[k + 1]);
        }
        lemma_path_bound(ps, dn, t, depth, q);
        let i = q.last();
        assert(p[p.len() - 2] == i);
        assert(lock_edge(ps, p[p.len() - 2], p[p.len() - 1]));
        let k = choose|k: int| 0 <= k < lock_deps(ps[i]).len() && dep_target(ps, i, k) == Some(p.last());
        lemma_last_index_range(lock_names(ps), lock_deps(ps[i])[k]);
        assert(bounded_at(t, depth, i, k));
        assert(t[i]@[k] is Some);
    } else {
        assert(p.last() == p[0]);
    }
}

/// Per entry: name, version, dependency names and whether it is direct.
struct LockTable {
    names: Vec<Vec<char>>,
    name_texts: Vec<String>,
    versions: Vec<String>,
    deps: Vec<Vec<String>>,
    direct: Vec<bool>,
}

spec fn table_ok(t: LockTable, ps: Seq<CargoLockPackage>, dn: Seq<Seq<char>>) -> bool {
    &&& t.names@.len() == ps.len()
    &&& t.name_texts@.len() == ps.len()
    &&& t.versions@.len() == ps.len()
    &&& t.deps@.len() == ps.len()
    &&& views(t.names@) == lock_names(ps)
    &&& forall|k: int| 0 <= k < ps.len() ==> (#[trigger] t.name_texts@[k])@ == lock_name(ps[k])
    &&& forall|k: int| 0 <= k < ps.len() ==> (#[trigger] t.versions@[k])@ == lock_version(ps[k])
    &&& forall|k: int| 0 <= k < ps.len() ==> texts((#[trigger] t.deps@[k])@) == lock_deps(ps[k])
    &&& flags_ok(ps, dn, t.direct@)
}

fn lock_table(packages: &Vec<CargoLockPackage>, direct_names: &Vec<String>) -> (t: LockTable)
    ensures
        table_ok(t, packages@, texts(direct_names@)),
{
    let ghost ps = packages@;
    let ghost dn = texts(direct_names@);
    let n = packages.len();
    let mut t = LockTable {
        names: Vec::new(),
        name_texts: Vec::new(),
        versions: Vec::new(),
        deps: Vec::new(),
        direct: Vec::new(),
    };
    let mut i: usize = 0;
    while i < n
        invariant
            i <= n == ps.len(),
            ps == packages@,
            dn == texts(direct_names@),
            t.names@.len() == i && t.versions@.len() == i && t.deps@.len() == i
                && t.name_texts@.len() == i && t.direct@.len() == i,
            forall|k: int| 0 <= k < i ==> (#[trigger] t.names@[k])@ == lock_name(ps[k]),
            forall|k: int| 0 <= k < i ==> (#[trigger] t.name_texts@[k])@ == lock_name(ps[k]),
            forall|k: int| 0 <= k < i ==> (#[trigger] t.versions@[k])@ == lock_version(ps[k]),
            forall|k: int| 0 <= k < i ==> texts((#[trigger] t.deps@[k])@) == lock_deps(ps[k]),
            forall|k: int| 0 <= k < i ==> #[trigger] t.direct@[k] == lock_direct(ps, dn, k),
        decreases n - i,
    {
        let nm = text_or_empty(&packages[i].name);
        let isd = name_in(direct_names, &nm);
        t.names.push(chars_of(nm.as_str()));
        t.name_texts.push(nm);
        t.versions.push(text_or_empty(&packages[i].version));
        t.deps.push(entry_deps(&packages[i]));
        t.direct.push(isd);
        i += 1;
    }
    assert(views(t.names@) =~= lock_names(ps));
    t
}

fn lock_targets(t: &LockTable, Ghost(ps): Ghost<Seq<CargoLockPackage>>, Ghost(dn): Ghost<Seq<Seq<char>>>) -> (r: Vec<Vec<Option<usize>>>)
    requires
        table_ok(*t, ps, dn),
    ensures
        targets_ok(ps, r@),
{
    let n = t.names.len();
    let mut targets: Vec<Vec<Option<usize>>> = Vec::new();
    let mut i: usize = 0;
    while i < n
        invariant
            i <= n == ps.len(),
            table_ok(*t, ps, dn),
            targets@.len() == i,
            forall|a: int| 0 <= a < i ==> (#[trigger] targets@[a])@.len() == lock_deps(ps[a]).len(),
            forall|a: int, k: int|
                0 <= a < i && 0 <= k < targets@[a]@.len() ==> match #[trigger] targets@[a]@[k] {
                    Some(j) => dep_target(ps, a, k) == Some(j as int),
                    None => dep_target(ps, a, k) is None,
                },
        decreases n - i,
    {
        let mut row: Vec<Option<usize>> = Vec::new();
        let mut k: usize = 0;
        assert(texts(t.deps@[i as int]@) == lock_deps(ps[i as int]));
        while k < t.deps[i].len()
            invariant
                i < n == ps.len(),
                table_ok(*t, ps, dn),
                texts(t.deps@[i as int]@) == lock_deps(ps[i as int]),
                k <= t.deps@[i as int]@.len(),
                row@.len() == k,
                forall|m: int|
                    0 <= m < k ==> match #[trigger] row@[m] {
                        Some(j) => dep_target(ps, i as int, m) == Some(j as int),
                        None => dep_target(ps, i as int, m) is None,
                    },
            decreases t.deps@[i as int]@.len() - k,
        {
            let dc = chars_of(t.deps[i][k].as_str());
            assert(dc@ == lock_deps(ps[i as int])[k as int]);
            row.push(find_last(&t.names, dc.as_slice()));
            k += 1;
        }
        targets.push(row);
        i += 1;
    }
    targets
}

/// Marks the direct entries with depth 0 and lists them, in order.
fn walk_start(direct: &Vec<bool>, Ghost(ps): Ghost<Seq<CargoLockPackage>>, Ghost(dn): Ghost<Seq<Seq<char>>>) -> (r: (Vec<Option<u32>>, Vec<usize>, usize))
    requires
        flags_ok(ps, dn, direct@),
    ensures
        r.0@.len() == ps.len(),
        forall|k: int| 0 <= k < ps.len() ==> #[trigger] r.0@[k] == if lock_direct(ps, dn, k) {
            Some(0u32)
        } else {
            None
        },
        visited_set(r.0@).len() == r.2,
        r.2 == r.1@.len(),
        forall|m: int| 0 <= m < r.1@.len() ==> (#[trigger] r.1@[m]) < ps.len() && r.0@[r.1@[m] as int] == Some(0u32),
        forall|k: int| 0 <= k < ps.len() && lock_direct(ps, dn, k) ==> in_list(r.1@, k),
{
    let n = direct.len();
    let mut depth: Vec<Option<u32>> = Vec::new();
    let mut frontier: Vec<usize> = Vec::new();
    let mut count: usize = 0;
    let mut i: usize = 0;
    assert(visited_set(depth@) =~= Set::<int>::empty());
    while i < n
        invariant
            i <= n == ps.len(),
            flags_ok(ps, dn, direct@),
            depth@.len() == i,
            forall|k: int| 0 <= k < i ==> #[trigger] depth@[k] == if lock_direct(ps, dn, k) {
                Some(0u32)
            } else {
                None
            },
            visited_set(depth@).finite(),
            visited_set(depth@).len() == count,
            count == frontier@.len(),
            count <= i,
            forall|m: int| 0 <= m < frontier@.len() ==> (#[trigger] frontier@[m]) < i && depth@[frontier@[m] as int] == Some(0u32),
            forall|k: int| 0 <= k < i && lock_direct(ps, dn, k) ==> in_list(frontier@, k),
        decreases n - i,
    {
        let ghost prev = depth@;
        let ghost pf = frontier@;
        if direct[i] {
            depth.push(Some(0));
            assert(visited_set(depth@) =~= visited_set(prev).insert(i as int));
            frontier.push(i);
            count += 1;
            assert(frontier@[frontier@.len() - 1] == i);
            assert forall|k: int| 0 <= k < i + 1 && lock_direct(ps, dn, k) implies in_list(frontier@, k) by {
                if k < i {
                    let m = choose|m: int| 0 <= m < pf.len() && pf[m] as int == k;
                    assert(frontier@[m] == pf[m]);
                }
            }
        } else {
            depth.push(None);
            assert(visited_set(depth@) =~= visited_set(prev));
        }
        i += 1;
    }
    (depth, frontier, count)
}

/// Visits the dependency targets of entry `a`, at depth `level`, that were
/// not visited yet: each gets depth `level + 1` and joins `next`.
fn visit_targets(
    targets: &Vec<Vec<Option<usize>>>,
    a: usize,
    level: u32,
    depth: &mut Vec<Option<u32>>,
    next: &mut Vec<usize>,
    count: &mut usize,
    Ghost(ps): Ghost<Seq<CargoLockPackage>>,
    Ghost(dn): Ghost<Seq<Seq<char>>>,
)
    requires
        ps.len() <= u32::MAX,
        targets_ok(ps, targets@),
        a < ps.len(),
        old(depth)@.len() == ps.len(),
        old(depth)@[a as int] == Some(level),
        level < *old(count),
        visited_set(old(depth)@).len() == *old(count),
        forall|k: int|
            0 <= k < ps.len() && (#[trigger] old(depth)@[k]) is Some ==> old(depth)@[k]->0 <= level + 1
                && chain_of_len(ps, dn, k, old(depth)@[k]->0 as int),
        forall|m: int|
            0 <= m < old(next)@.len() ==> (#[trigger] old(next)@[m]) < ps.len() && old(depth)@[old(next)@[m] as int]
                == Some((level + 1) as u32),
    ensures
        final(depth)@.len() == ps.len(),
        visited_set(final(depth)@).len() == *final(count),
        *final(count) - *old(count) == final(next)@.len() - old(next)@.len(),
        final(next)@.len() >= old(next)@.len(),
        forall|q: int| 0 <= q < old(next)@.len() ==> final(next)@[q] == old(next)@[q],
        forall|k: int|
            0 <= k < ps.len() && (#[trigger] final(depth)@[k]) is Some ==> final(depth)@[k]->0 <= level + 1
                && chain_of_len(ps, dn, k, final(depth)@[k]->0 as int),
        forall|m: int|
            0 <= m < final(next)@.len() ==> (#[trigger] final(next)@[m]) < ps.len() && final(depth)@[final(next)@[m] as int]
                == Some((level + 1) as u32),
        forall|k: int| 0 <= k < ps.len() && (#[trigger] old(depth)@[k]) is Some ==> final(depth)@[k] == old(depth)@[k],
        forall|k: int|
            0 <= k < ps.len() && (#[trigger] final(depth)@[k]) is Some && old(depth)@[k] is None ==> in_list(final(next)@, k),
        forall|j: int| 0 <= j < targets@[a as int]@.len() ==> bounded_at(targets@, final(depth)@, a as int, j),
{
    let ghost d_in = depth@;
    let ghost n_in = next@;
    let ghost c_in = *count;
    proof {
        lemma_visited_bounded(depth@);
    }
    let mut k: usize = 0;
    while k < targets[a].len()
        invariant
            ps.len() <= u32::MAX,
            targets_ok(ps, targets@),
            a < ps.len(),
            depth@.len() == ps.len(),
            depth@[a as int] == Some(level),
            level < c_in <= *count,
            k <= targets@[a as int]@.len(),
            visited_set(depth@).len() == *count,
            *count - c_in == next@.len() - n_in.len(),
            next@.len() >= n_in.len(),
            forall|q: int| 0 <= q < n_in.len() ==> next@[q] == n_in[q],
            forall|q: int|
                0 <= q < ps.len() && (#[trigger] depth@[q]) is Some ==> depth@[q]->0 <= level + 1
                    && chain_of_len(ps, dn, q, depth@[q]->0 as int),
            forall|m: int|
                0 <= m < next@.len() ==> (#[trigger] next@[m]) < ps.len() && depth@[next@[m] as int] == Some(
                    (level + 1) as u32,
                ),
            forall|q: int| 0 <= q < ps.len() && (#[trigger] d_in[q]) is Some ==> depth@[q] == d_in[q],
            forall|q: int|
                0 <= q < ps.len() && (#[trigger] depth@[q]) is Some && d_in[q] is None ==> in_list(next@, q),
            forall|j: int| 0 <= j < k ==> bounded_at(targets@, depth@, a as int, j),
        decreases targets@[a as int]@.len() - k,
    {
        let ghost d0 = depth@;
        let ghost n0 = next@;
        match targets[a][k] {
            Some(j) => {
                proof {
                    lemma_last_index_range(lock_names(ps), lock_deps(ps[a as int])[k as int]);
                }
                if depth[j].is_none() {
                    proof {
                        lemma_visited_grows(d0, j as int, (level + 1) as u32);
                    }
                    depth.set(j, Some(level + 1));
                    next.push(j);
                    *count = *count + 1;
                    proof {
                        assert(lock_edge(ps, a as int, j as int));
                        assert(chain_of_len(ps, dn, a as int, level as int));
                        let pp = choose|pp: Seq<int>| #[trigger] lock_path(ps, dn, pp) && pp.last() == a as int && pp.len() == level + 1;
                        let np = pp.push(j as int);
                        assert forall|m: int| 0 <= m < np.len() - 1 implies lock_edge(
                            ps,
                            #[trigger] np[m],
                            np[m + 1],
                        ) by {
                            if m < pp.len() - 1 {
                                assert(np[m] == pp[m] && np[m + 1] == pp[m + 1]);
                            }
                        }
                        assert(np[0] == pp[0]);
                        assert(lock_path(ps, dn, np));
                        assert(chain_of_len(ps, dn, j as int, level + 1));
                        assert(next@[next@.len() - 1] == j);
                        assert(in_list(next@, j as int));
                        assert forall|q: int|
                            0 <= q < ps.len() && (#[trigger] depth@[q]) is Some && d_in[q] is None implies in_list(next@, q) by {
                            if q != j as int {
                                assert(d0[q] is Some);
                                let m = choose|m: int| 0 <= m < n0.len() && n0[m] as int == q;
                                assert(next@[m] == n0[m]);
                            }
                        }
                        assert forall|m: int| 0 <= m < next@.len() implies (#[trigger] next@[m]) < ps.len()
                            && depth@[next@[m] as int] == Some((level + 1) as u32) by {
                            if m < n0.len() {
                                assert(next@[m] == n0[m]);
                            }
                        }
                        assert forall|jj: int| 0 <= jj < k implies bounded_at(targets@, depth@, a as int, jj) by {
                            assert(bounded_at(targets@, d0, a as int, jj));
                            if targets@[a as int]@[jj] is Some {
                                lemma_last_index_range(lock_names(ps), lock_deps(ps[a as int])[jj]);
                            }
                        }
                    }
                }
            },
            None => {},
        }
        assert(bounded_at(targets@, depth@, a as int, k as int));
        k += 1;
    }
}

/// Breadth-first walk over the dependency targets, level by level, from
/// the direct entries.
fn walk(direct: &Vec<bool>, targets: &Vec<Vec<Option<usize>>>, Ghost(ps): Ghost<Seq<CargoLockPackage>>, Ghost(dn): Ghost<Seq<Seq<char>>>) -> (depth: Vec<Option<u32>>)
    requires
        ps.len() <= u32::MAX,
        flags_ok(ps, dn, direct@),
        targets_ok(ps, targets@),
    ensures
        walk_ok(ps, dn, depth@),
{
    let n = direct.len();
    let (mut depth, mut frontier, mut count) = walk_start(direct, Ghost(ps), Ghost(dn));
    proof {
        lemma_visited_bounded(depth@);
        assert forall|k: int| 0 <= k < n && (#[trigger] depth@[k]) is Some implies depth@[k]->0 <= 0
            && chain_of_len(ps, dn, k, depth@[k]->0 as int) by {
            let p = seq![k];
            assert(p[0] == k && p.last() == k);
            assert(lock_path(ps, dn, p));
        }
        assert forall|k: int| 0 <= k < n && depth@[k] == Some(0u32) implies in_list(frontier@, k) by {
            assert(lock_direct(ps, dn, k));
        }
    }
    let mut level: u32 = 0;
    while frontier.len() > 0
        invariant
            n == ps.len(),
            n <= u32::MAX,
            flags_ok(ps, dn, direct@),
            targets_ok(ps, targets@),
            depth@.len() == n,
            visited_set(depth@).len() == count,
            count <= n,
            forall|k: int| 0 <= k < n && lock_direct(ps, dn, k) ==> #[trigger] depth@[k] == Some(0u32),
            forall|k: int|
                0 <= k < n && (#[trigger] depth@[k]) is Some ==> depth@[k]->0 <= level && chain_of_len(
                    ps,
                    dn,
                    k,
                    depth@[k]->0 as int,
                ),
            forall|m: int|
                0 <= m < frontier@.len() ==> (#[trigger] frontier@[m]) < n && depth@[frontier@[m] as int] == Some(
                    level,
                ),
            forall|k: int| 0 <= k < n && depth@[k] == Some(level) ==> in_list(frontier@, k),
            forall|a: int, k: int|
                0 <= a < n && depth@[a] is Some && depth@[a]->0 < level && 0 <= k < targets@[a]@.len()
                    ==> bounded_at(targets@, depth@, a, k),
            frontier@.len() > 0 ==> level < count,
        decreases n - count, frontier@.len(),
    {
        let ghost d_start = depth@;
        let ghost c_start = count;
        let mut next: Vec<usize> = Vec::new();
        let mut m: usize = 0;
        while m < frontier.len()
            invariant
                n == ps.len(),
                n <= u32::MAX,
                targets_ok(ps, targets@),
                depth@.len() == n,
                visited_set(depth@).len() == count,
                level < c_start <= count,
                count - c_start == next@.len(),
                d_start.len() == n,
                m <= frontier@.len(),
                forall|q: int| 0 <= q < n && (#[trigger] d_start[q]) is Some ==> depth@[q] == d_start[q],
                forall|q: int|
                    0 <= q < n && (#[trigger] depth@[q]) is Some ==> depth@[q]->0 <= level + 1 && chain_of_len(
                        ps,
                        dn,
                        q,
                        depth@[q]->0 as int,
                    ),
                forall|q: int|
                    0 <= q < n && (#[trigger] depth@[q]) is Some && d_start[q] is None ==> in_list(next@, q),
                forall|q: int|
                    0 <= q < next@.len() ==> (#[trigger] next@[q]) < n && depth@[next@[q] as int] == Some(
                        (level + 1) as u32,
                    ),
                forall|q: int|
                    0 <= q < frontier@.len() ==> (#[trigger] frontier@[q]) < n && d_start[frontier@[q] as int]
                        == Some(level),
                forall|a: int, k: int|
                    0 <= a < n && d_start[a] is Some && d_start[a]->0 < level && 0 <= k < targets@[a]@.len()
                        ==> bounded_at(targets@, depth@, a, k),
                forall|q: int, k: int|
                    #![trigger bounded_at(targets@, depth@, frontier@[q] as int, k)]
                    0 <= q < m && 0 <= k < targets@[frontier@[q] as int]@.len() ==> bounded_at(
                        targets@,
                        depth@,
                        frontier@[q] as int,
                        k,
                    ),
            decreases frontier@.len() - m,
        {
            let a = frontier[m];
            let ghost d1 = depth@;
            let ghost nx1 = next@;
            visit_targets(targets, a, level, &mut depth, &mut next, &mut count, Ghost(ps), Ghost(dn));
            proof {
                assert forall|q: int|
                    0 <= q < n && (#[trigger] depth@[q]) is Some && d_start[q] is None implies in_list(next@, q) by {
                    if d1[q] is Some {
                        let mm = choose|mm: int| 0 <= mm < nx1.len() && nx1[mm] as int == q;
                        assert(next@[mm] == nx1[mm]);
                    }
                }
                assert forall|aa: int, k: int|
                    0 <= aa < n && d_start[aa] is Some && d_start[aa]->0 < level && 0 <= k < targets@[aa]@.len()
                        implies bounded_at(targets@, depth@, aa, k) by {
                    assert(bounded_at(targets@, d1, aa, k));
                    if targets@[aa]@[k] is Some {
                        lemma_last_index_range(lock_names(ps), lock_deps(ps[aa])[k]);
                    }
                }
                assert forall|q: int, k: int|
                    #![trigger bounded_at(targets@, depth@, frontier@[q] as int, k)]
                    0 <= q < m + 1 && 0 <= k < targets@[frontier@[q] as int]@.len() implies bounded_at(
                        targets@,
                        depth@,
                        frontier@[q] as int,
                        k,
                    ) by {
                    if q < m {
                        let aa = frontier@[q] as int;
                        assert(bounded_at(targets@, d1, aa, k));
                        if targets@[aa]@[k] is Some {
                            lemma_last_index_range(lock_names(ps), lock_deps(ps[aa])[k]);
                        }
                    }
                }
            }
            m += 1;
        }
        proof {
            lemma_visited_bounded(depth@);
            assert forall|k: int| 0 <= k < n && depth@[k] == Some((level + 1) as u32) implies in_list(next@, k) by {
                if d_start[k] is Some {
                    assert(depth@[k] == d_start[k]);
                }
            }
            assert forall|a: int, k: int|
                0 <= a < n && depth@[a] is Some && depth@[a]->0 < level + 1 && 0 <= k < targets@[a]@.len()
                    implies bounded_at(targets@, depth@, a, k) by {
                if d_start[a] is None {
                    assert(depth@[a] == Some((level + 1) as u32)) by {
                        let q = choose|q: int| 0 <= q < next@.len() && next@[q] as int == a;
                        assert(depth@[next@[q] as int] == Some((level + 1) as u32));
                    }
                } else if d_start[a]->0 == level {
                    let q = choose|q: int| 0 <= q < frontier@.len() && frontier@[q] as int == a;
                    assert(bounded_at(targets@, depth@, frontier@[q] as int, k));
                }
            }
            assert forall|k: int| 0 <= k < n && lock_direct(ps, dn, k) implies #[trigger] depth@[k] == Some(0u32) by {
                assert(d_start[k] == Some(0u32));
            }
        }
        frontier = next;
        level = level + 1;
    }
    proof {
        assert forall|a: int, k: int|
            0 <= a < n && depth@[a] is Some && 0 <= k < targets@[a]@.len() implies bounded_at(
            targets@,
            depth@,
            a,
            k,
        ) by {
            if depth@[a]->0 == level {
                assert(in_list(frontier@, a));
            }
        }
        assert forall|q: int| 0 <= q < n implies ((#[trigger] depth@[q]) is Some <==> lock_reachable(ps, dn, q)) by {
            if depth@[q] is Some {
                assert(chain_of_len(ps, dn, q, depth@[q]->0 as int));
                let p = choose|p: Seq<int>| #[trigger] lock_path(ps, dn, p) && p.last() == q && p.len() == depth@[q]->0 + 1;
                assert(lock_path(ps, dn, p) && p.last() == q);
            }
            if lock_reachable(ps, dn, q) {
                let p = choose|p: Seq<int>| lock_path(ps, dn, p) && p.last() == q;
                lemma_path_bound(ps, dn, targets@, depth@, p);
            }
        }
        assert forall|q: int| 0 <= q < n && (#[trigger] depth@[q]) is Some implies shortest_chain(
            ps,
            dn,
            q,
            depth@[q]->0 as int,
        ) by {
            assert forall|p: Seq<int>| #[trigger] lock_path(ps, dn, p) && p.last() == q implies depth@[q]->0 + 1
                <= p.len() by {
                lemma_path_bound(ps, dn, targets@, depth@, p);
            }
        }
    }
    depth
}

/// What the packages of a `Cargo.lock` are: per entry, in order, its
/// name, version and dependency names, direct when its name is declared;
/// its depth is the length of a shortest chain of dependencies that leads
/// to it from a direct entry (0 for a direct entry), and 1 when no chain
/// reaches it.
pub open spec fn cargo_lock_result(ps: Seq<CargoLockPackage>, dn: Seq<Seq<char>>, r: Seq<Package>) -> bool {
    &&& r.len() == ps.len()
    &&& forall|i: int|
        0 <= i < r.len() ==> made_package(
            #[trigger] r[i],
            lock_name(ps[i]),
            lock_version(ps[i]),
            Ecosystem::Rust,
            lock_direct(ps, dn, i),
            r[i].depth,
            lock_deps(ps[i]),
        )
    &&& forall|i: int|
        0 <= i < r.len() && lock_reachable(ps, dn, i) ==> shortest_chain(ps, dn, i, (#[trigger] r[i]).depth as int)
    &&& forall|i: int| 0 <= i < r.len() && lock_direct(ps, dn, i) ==> (#[trigger] r[i]).depth == 0
    &&& forall|i: int| 0 <= i < r.len() && !lock_reachable(ps, dn, i) ==> (#[trigger] r[i]).depth == 1
}

/// The packages of a `Cargo.lock`: each entry with its name, version and
/// dependency names; direct when its name is declared. A dependency name
/// stands for the last entry of that name. Each entry that the declared
/// entries reach has as depth the number of steps of a shortest chain of
/// dependencies from a declared entry (found breadth-first); entries that
/// nothing declared reaches get depth 1.
pub fn packages_from_cargo_lock(packages: &Vec<CargoLockPackage>, direct_names: &Vec<String>) -> (r:
    Vec<Package>)
    requires
        packages@.len() <= u32::MAX,
    ensures
        cargo_lock_result(packages@, texts(direct_names@), r@),
{
    let ghost ps = packages@;
    let ghost dn = texts(direct_names@);
    let n = packages.len();
    let t = lock_table(packages, direct_names);
    let targets = lock_targets(&t, Ghost(ps), Ghost(dn));
    let depth = walk(&t.direct, &targets, Ghost(ps), Ghost(dn));
    let mut r: Vec<Package> = Vec::new();
    let mut i: usize = 0;
    while i < n
        invariant
            i <= n == ps.len(),
            ps == packages@,
            dn == texts(direct_names@),
            table_ok(t, ps, dn),
            walk_ok(ps, dn, depth@),
            r@.len() == i,
            forall|k: int|
                0 <= k < i ==> made_package(
                    #[trigger] r@[k],
                    lock_name(ps[k]),
                    lock_version(ps[k]),
                    Ecosystem::Rust,
                    lock_direct(ps, dn, k),
                    r@[k].depth,
                    lock_deps(ps[k]),
                ),
            forall|k: int|
                0 <= k < i ==> (#[trigger] r@[k]).depth == match depth@[k] {
                    Some(d) => d,
                    None => 1u32,
                },
        decreases n - i,
    {
        let d = match depth[i] {
            Some(d) => d,
            None => 1,
        };
        assert(t.direct@[i as int] == lock_direct(ps, dn, i as int));
        let p = make_pkg(
            t.name_texts[i].clone(),
            t.versions[i].clone(),
            Ecosystem::Rust,
            t.direct[i],
            d,
            t.deps[i].clone(),
        );
        r.push(p);
        i += 1;
    }
    proof {
        assert forall|q: int| 0 <= q < r@.len() && lock_direct(ps, dn, q) implies (#[trigger] r@[q]).depth == 0 by {
            let p = seq![q];
            assert(p[0] == q && p.last() == q);
            assert(lock_path(ps, dn, p));
            assert(lock_reachable(ps, dn, q));
            assert(shortest_chain(ps, dn, q, depth@[q]->0 as int));
        }
    }
    r
}

// ── shared ─────────────────────────────────────────────────────────────────
/// The indices among the first `n` names at which a name occurs for the
/// first time, in order.
pub open spec fn first_indices(ns: Seq<Seq<char>>, n: int) -> Seq<int>
    decreases n,
{
    if n <= 0 {
        seq![]
    } else if ns.take(n - 1).contains(ns[n - 1]) {
        first_indices(ns, n - 1)
    } else {
        first_indices(ns, n - 1).push(n - 1)
    }
}

/// Whether the `k`th name occurs for the first time there.
fn is_first(names: &Vec<Vec<char>>, k: usize) -> (r: bool)
    requires
        k < names@.len(),
    ensures
        r == !views(names@).take(k as int).contains(views(names@)[k as int]),
{
    let mut i: usize = 0;
    while i < k
        invariant
            i <= k < names@.len(),
            forall|m: int| 0 <= m < i ==> views(names@)[m] != views(names@)[k as int],
        decreases k - i,
    {
        if chars_eq(names[i].as_slice(), names[k].as_slice()) {
            assert(views(names@).take(k as int)[i as int] == views(names@)[k as int]);
            return false;
        }
        i += 1;
    }
    assert forall|m: int| 0 <= m < views(names@).take(k as int).len() implies views(names@).take(
        k as int,
    )[m] != views(names@)[k as int] by {
        assert(views(names@).take(k as int)[m] == views(names@)[m]);
    }
    true
}

/// The packages for (name, version) pairs, in order: of the given
/// ecosystem, at depth 0, without dependencies, direct when the name is
/// among `direct`.
pub open spec fn pairs_packaged(
    r: Seq<Package>,
    ps: Seq<(Seq<char>, Seq<char>)>,
    eco: Ecosystem,
    direct: Seq<Seq<char>>,
) -> bool {
    &&& r.len() == ps.len()
    &&& forall|m: int|
        0 <= m < ps.len() ==> made_package(
            #[trigger] r[m],
            ps[m].0,
            ps[m].1,
            eco,
            direct.contains(ps[m].0),
            0,
            seq![],
        )
}

/// The packages for (name, version) pairs.
pub fn packages_from_pairs(ps: Vec<(String, String)>, eco: Ecosystem, direct_deps: &Vec<(String, String)>) -> (r: Vec<Package>)
    ensures
        pairs_packaged(r@, pairs(ps@), eco, pair_names(direct_deps@)),
{
    let mut names: Vec<String> = Vec::new();
    let mut i: usize = 0;
    while i < direct_deps.len()
        invariant
            i <= direct_deps.len(),
            texts(names@) == pair_names(direct_deps@).take(i as int),
        decreases direct_deps.len() - i,
    {
        let c = copy_text(&direct_deps[i].0);
        let ghost prev = texts(names@);
        names.push(c);
        assert(texts(names@) =~= prev.push(direct_deps@[i as int].0@));
        assert(pair_names(direct_deps@).take(i + 1) =~= pair_names(direct_deps@).take(i as int).push(
            direct_deps@[i as int].0@,
        ));
        i += 1;
    }
    assert(pair_names(direct_deps@).take(direct_deps.len() as int) =~= pair_names(direct_deps@));
    let mut r: Vec<Package> = Vec::new();
    let mut k: usize = 0;
    while k < ps.len()
        invariant
            k <= ps.len(),
            texts(names@) == pair_names(direct_deps@),
            r@.len() == k,
            forall|m: int|
                0 <= m < k ==> made_package(
                    #[trigger] r@[m],
                    pairs(ps@)[m].0,
                    pairs(ps@)[m].1,
                    eco,
                    pair_names(direct_deps@).contains(pairs(ps@)[m].0),
                    0,
                    seq![],
                ),
        decreases ps.len() - k,
    {
        let isd = name_in(&names, &ps[k].0);
        let p = make_pkg(ps[k].0.clone(), ps[k].1.clone(), eco, isd, 0, Vec::new());
        assert(texts(Seq::<String>::empty()) =~= seq![]);
        r.push(p);
        k += 1;
    }
    r
}

// ── package-lock.json ──────────────────────────────────────────────────────
/// One entry of the `packages` map of a `package-lock.json`: its path
/// (such as `node_modules/a/node_modules/b`), version and dependency names.
#[derive(Clone, Debug)]
pub struct NpmLockEntry {
    pub path: String,
    pub version: Option<String>,
    pub dependencies: Option<Vec<String>>,
}

/// The package name of a lock path: what follows the last
/// `/node_modules/` (a top-level path without its leading `node_modules/`),
/// cut to `@scope/name` for a scoped package.
pub open spec fn npm_name(path: Seq<char>) -> Seq<char> {
    let tail = split(path, "/node_modules/"@).last();
    let last = if starts_with(tail, "node_modules/"@) {
        tail.skip(13)
    } else {
        tail
    };
    if starts_with(last, "@"@) {
        let sc = split(last, "/"@);
        if sc.len() >= 2 {
            sc[0] + "/"@ + sc[1]
        } else {
            last
        }
    } else {
        last
    }
}

proof fn lemma_split_nonempty_at(s: Seq<char>, sep: Seq<char>)
    ensures
        split(s, sep).len() > 0,
{
    crate::text::lemma_split_len(s, sep, 0, 0);
}

/// The package name of a lock path.
pub fn normalize_npm_path(path: &str) -> (r: String)
    ensures
        r@ == npm_name(path@),
{
    let c = chars_of(path);
    let sep = chars_of("/node_modules/");
    proof {
        reveal_strlit("/node_modules/");
        reveal_strlit("/");
        lemma_split_nonempty_at(path@, "/node_modules/"@);
    }
    let parts = split_chars(c.as_slice(), sep.as_slice());
    let last_i = parts.len() - 1;
    assert(parts@[last_i as int]@ == split(path@, "/node_modules/"@).last());
    let tail = &parts[last_i];
    let prefix = chars_of("node_modules/");
    proof {
        reveal_strlit("node_modules/");
    }
    let last_v = if starts_with_chars(tail.as_slice(), prefix.as_slice()) {
        copy_range(tail.as_slice(), 13, tail.len())
    } else {
        copy_range(tail.as_slice(), 0, tail.len())
    };
    assert(last_v@ =~= if starts_with(tail@, "node_modules/"@) {
        tail@.skip(13)
    } else {
        tail@
    });
    let last = &last_v;
    if starts_with_chars(last.as_slice(), chars_of("@").as_slice()) {
        let slash = chars_of("/");
        let sc = split_chars(last.as_slice(), slash.as_slice());
        if sc.len() >= 2 {
            let mut v = copy_range(sc[0].as_slice(), 0, sc[0].len());
            v.push('/');
            let ghost v1 = v@;
            let mut i: usize = 0;
            while i < sc[1].len()
                invariant
                    sc@.len() >= 2,
                    i <= sc@[1]@.len(),
                    v@ == v1 + sc@[1]@.subrange(0, i as int),
                decreases sc@[1]@.len() - i,
            {
                v.push(sc[1][i]);
                i += 1;
                assert(v@ =~= v1 + sc@[1]@.subrange(0, i as int));
            }
            assert(sc@[1]@.subrange(0, sc@[1]@.len() as int) =~= sc@[1]@);
            assert(views(sc@)[0] == sc@[0]@ && views(sc@)[1] == sc@[1]@);
            assert("/"@ =~= seq!['/']);
            assert(v@ =~= sc@[0]@ + "/"@ + sc@[1]@);
            return string_of(v.as_slice());
        }
    }
    string_of(last.as_slice())
}

/// The entries of a lock with a non-empty path, among the first `n`.
pub open spec fn npm_kept(es: Seq<NpmLockEntry>, n: int) -> Seq<NpmLockEntry>
    decreases n,
{
    if n <= 0 {
        seq![]
    } else if es[n - 1].path@.len() > 0 {
        npm_kept(es, n - 1).push(es[n - 1])
    } else {
        npm_kept(es, n - 1)
    }
}

/// The package names of lock entries.
pub open spec fn npm_names(k: Seq<NpmLockEntry>) -> Seq<Seq<char>> {
    k.map_values(|e: NpmLockEntry| npm_name(e.path@))
}

/// The nesting depth of a lock entry: its `node_modules` count less one.
pub open spec fn npm_depth(e: NpmLockEntry) -> int {
    count_occurrences(e.path@, "node_modules"@) - 1
}

/// A name is declared, compared in lower case.
pub open spec fn npm_direct(direct: Seq<Seq<char>>, name: Seq<char>) -> bool {
    direct.map_values(|d: Seq<char>| lowercase(d)).contains(lowercase(name))
}

/// The dependency names of a lock entry.
pub open spec fn npm_deps(e: NpmLockEntry) -> Seq<Seq<char>> {
    match e.dependencies {
        Some(d) => texts(d@),
        None => seq![],
    }
}

/// The nesting depth of a lock path.
fn npm_path_depth(path: &str) -> (r: u32)
    requires
        1 <= count_occurrences(path@, "node_modules"@) <= u32::MAX,
    ensures
        r == count_occurrences(path@, "node_modules"@) - 1,
{
    let c = chars_of(path);
    let pat = chars_of("node_modules");
    proof {
        reveal_strlit("node_modules");
    }
    let parts = split_chars(c.as_slice(), pat.as_slice());
    assert(views(parts@).len() == parts@.len());
    (parts.len() - 2) as u32
}

/// The lower-case forms of some names.
fn lowered(names: &Vec<String>) -> (r: Vec<Vec<char>>)
    ensures
        views(r@) == texts(names@).map_values(|d: Seq<char>| lowercase(d)),
{
    let mut r: Vec<Vec<char>> = Vec::new();
    let mut i: usize = 0;
    while i < names.len()
        invariant
            i <= names.len(),
            views(r@) == texts(names@).take(i as int).map_values(|d: Seq<char>| lowercase(d)),
        decreases names.len() - i,
    {
        let l = to_lowercase(names[i].as_str());
        let ghost prev = views(r@);
        r.push(chars_of(l.as_str()));
        assert(views(r@) =~= prev.push(lowercase(names@[i as int]@)));
        assert(texts(names@).take(i + 1).map_values(|d: Seq<char>| lowercase(d)) =~= prev.push(
            lowercase(names@[i as int]@),
        ));
        i += 1;
    }
    assert(texts(names@).take(names.len() as int) =~= texts(names@));
    r
}

/// Whether some characters are among some character lists.
fn chars_in(list: &Vec<Vec<char>>, c: &[char]) -> (r: bool)
    ensures
        r == views(list@).contains(c@),
{
    let mut i: usize = 0;
    while i < list.len()
        invariant
            i <= list.len(),
            forall|k: int| 0 <= k < i ==> views(list@)[k] != c@,
        decreases list.len() - i,
    {
        if chars_eq(list[i].as_slice(), c) {
            assert(views(list@)[i as int] == c@);
            return true;
        }
        i += 1;
    }
    false
}

/// What is kept of the lock entries: name, version, dependencies, depth.
struct NpmTable {
    names: Vec<Vec<char>>,
    versions: Vec<String>,
    deps: Vec<Vec<String>>,
    depths: Vec<u32>,
}

spec fn npm_table_ok(t: NpmTable, k: Seq<NpmLockEntry>) -> bool {
    &&& views(t.names@) == npm_names(k)
    &&& t.versions@.len() == k.len()
    &&& t.deps@.len() == k.len()
    &&& t.depths@.len() == k.len()
    &&& forall|m: int| 0 <= m < k.len() ==> (#[trigger] t.versions@[m])@ == opt_text(k[m].version)
    &&& forall|m: int| 0 <= m < k.len() ==> texts((#[trigger] t.deps@[m])@) == npm_deps(k[m])
    &&& forall|m: int| 0 <= m < k.len() ==> (#[trigger] t.depths@[m]) == npm_depth(k[m])
}

fn npm_table(entries: &Vec<NpmLockEntry>) -> (t: NpmTable)
    requires
        forall|i: int|
            0 <= i < entries@.len() && (#[trigger] entries@[i]).path@.len() > 0 ==> 1
                <= count_occurrences(entries@[i].path@, "node_modules"@) <= u32::MAX,
    ensures
        npm_table_ok(t, npm_kept(entries@, entries@.len() as int)),
{
    let mut t = NpmTable { names: Vec::new(), versions: Vec::new(), deps: Vec::new(), depths: Vec::new() };
    let mut i: usize = 0;
    assert(views(t.names@) =~= npm_names(npm_kept(entries@, 0)));
    while i < entries.len()
        invariant
            i <= entries.len(),
            forall|i: int|
                0 <= i < entries@.len() && (#[trigger] entries@[i]).path@.len() > 0 ==> 1
                    <= count_occurrences(entries@[i].path@, "node_modules"@) <= u32::MAX,
            npm_table_ok(t, npm_kept(entries@, i as int)),
        decreases entries.len() - i,
    {
        let e = &entries[i];
        let ghost k0 = npm_kept(entries@, i as int);
        if !e.path.as_str().is_empty() {
            let ghost nv = views(t.names@);
            t.names.push(chars_of(normalize_npm_path(e.path.as_str()).as_str()));
            t.versions.push(text_or_empty(&e.version));
            t.deps.push(match &e.dependencies {
                Some(d) => copy_texts(d),
                None => Vec::new(),
            });
            t.depths.push(npm_path_depth(e.path.as_str()));
            let ghost k1 = npm_kept(entries@, i + 1);
            assert(k1 == k0.push(*e));
            assert(views(t.names@) =~= nv.push(npm_name(e.path@)));
            assert(npm_names(k1) =~= npm_names(k0).push(npm_name(e.path@)));
            assert forall|m: int| 0 <= m < k1.len() implies k1[m] == if m < k0.len() {
                k0[m]
            } else {
                *e
            } by {}
            assert forall|m: int| 0 <= m < k1.len() implies (#[trigger] t.versions@[m])@ == opt_text(
                k1[m].version,
            ) by {
                if m < k0.len() {
                    assert(k1[m] == k0[m]);
                }
            }
            assert forall|m: int| 0 <= m < k1.len() implies texts((#[trigger] t.deps@[m])@) == npm_deps(
                k1[m],
            ) by {
                if m < k0.len() {
                    assert(k1[m] == k0[m]);
                }
            }
            assert forall|m: int| 0 <= m < k1.len() implies (#[trigger] t.depths@[m]) == npm_depth(
                k1[m],
            ) by {
                if m < k0.len() {
                    assert(k1[m] == k0[m]);
                }
            }
            assert(views(t.names@) == npm_names(k1));
            assert(t.versions@.len() == k1.len());
            assert(npm_table_ok(t, k1));
        } else {
            assert(npm_kept(entries@, i + 1) == npm_kept(entries@, i as int));
        }
        i += 1;
    }
    t
}

/// Each entry with a non-empty path has `node_modules` in it at least once
/// (and a count that fits in `u32`).
pub open spec fn npm_paths_ok(es: Seq<NpmLockEntry>) -> bool {
    forall|i: int|
        0 <= i < es.len() && (#[trigger] es[i]).path@.len() > 0 ==> 1 <= count_occurrences(
            es[i].path@,
            "node_modules"@,
        ) <= u32::MAX
}

/// What the packages of a `package-lock.json` are: one per name, where the
/// name first occurs among the entries with a non-empty path, with the
/// version, dependencies and depth of the last entry of that name; direct
/// when the name matches a declared one in lower case.
pub open spec fn npm_lock_result(es: Seq<NpmLockEntry>, dn: Seq<Seq<char>>, r: Seq<Package>) -> bool {
    let k = npm_kept(es, es.len() as int);
    let ns = npm_names(k);
    let fi = first_indices(ns, ns.len() as int);
    &&& r.len() == fi.len()
    &&& forall|m: int|
        0 <= m < fi.len() ==> {
            let j = last_index(ns, ns[fi[m]])->0;
            made_package(
                #[trigger] r[m],
                ns[fi[m]],
                opt_text(k[j].version),
                Ecosystem::Node,
                npm_direct(dn, ns[fi[m]]),
                npm_depth(k[j]) as u32,
                npm_deps(k[j]),
            )
        }
}

/// The packages of a `package-lock.json`, given its entries (the root entry,
/// with an empty path, is skipped). Entries are named by their path; each
/// name appears once, where it first occurs, with the version, dependencies
/// and depth of its last entry. A package is direct when its name matches a
/// declared one in lower case.
pub fn packages_from_npm_lock(entries: &Vec<NpmLockEntry>, direct_names: &Vec<String>) -> (r: Vec<
    Package,
>)
    requires
        npm_paths_ok(entries@),
    ensures
        npm_lock_result(entries@, texts(direct_names@), r@),
{
    let t = npm_table(entries);
    let ghost k = npm_kept(entries@, entries@.len() as int);
    let ghost ns = npm_names(k);
    let low = lowered(direct_names);
    let mut r: Vec<Package> = Vec::new();
    let mut i: usize = 0;
    while i < t.names.len()
        invariant
            npm_table_ok(t, k),
            ns == npm_names(k),
            i <= t.names@.len(),
            views(low@) == texts(direct_names@).map_values(|d: Seq<char>| lowercase(d)),
            r@.len() == first_indices(ns, i as int).len(),
            forall|m: int|
                0 <= m < r@.len() ==> {
                    let fi = first_indices(ns, i as int);
                    let j = last_index(ns, ns[fi[m]])->0;
                    made_package(
                        #[trigger] r@[m],
                        ns[fi[m]],
                        opt_text(k[j].version),
                        Ecosystem::Node,
                        npm_direct(texts(direct_names@), ns[fi[m]]),
                        npm_depth(k[j]) as u32,
                        npm_deps(k[j]),
                    )
                },
        decreases t.names@.len() - i,
    {
        let ghost fi0 = first_indices(ns, i as int);
        assert(views(t.names@).take(i as int) == ns.take(i as int));
        if is_first(&t.names, i) {
            proof {
                lemma_last_index_found(ns, ns[i as int], i as int);
            }
            assert(t.names@[i as int]@ == ns[i as int]);
            let j = find_last(&t.names, t.names[i].as_slice()).unwrap();
            proof {
                lemma_last_index_range(ns, ns[i as int]);
            }
            let name = string_of(t.names[i].as_slice());
            let lname = to_lowercase(name.as_str());
            let isd = chars_in(&low, chars_of(lname.as_str()).as_slice());
            let p = make_pkg(name, copy_text(&t.versions[j]), Ecosystem::Node, isd, t.depths[j], copy_texts(&t.deps[j]));
            let ghost prev = r@;
            r.push(p);
            proof {
                let fi1 = first_indices(ns, i + 1);
                assert(fi1 == fi0.push(i as int));
                assert forall|m: int| 0 <= m < r@.len() implies {
                    let j = last_index(ns, ns[fi1[m]])->0;
                    made_package(
                        #[trigger] r@[m],
                        ns[fi1[m]],
                        opt_text(k[j].version),
                        Ecosystem::Node,
                        npm_direct(texts(direct_names@), ns[fi1[m]]),
                        npm_depth(k[j]) as u32,
                        npm_deps(k[j]),
                    )
                } by {
                    if m < prev.len() {
                        assert(r@[m] == prev[m]);
                        assert(fi1[m] == fi0[m]);
                    }
                }
            }
        } else {
            assert(first_indices(ns, i + 1) == fi0);
        }
        i += 1;
    }
    r
}

// ── go.sum, go.mod ─────────────────────────────────────────────────────────
/// The modules of `go.sum` lines from the `i`th on: the first two words of
/// each line with at least two, unless the second ends in `/go.mod`.
pub open spec fn go_sum_scan(ls: Seq<Seq<char>>, i: int) -> Seq<(Seq<char>, Seq<char>)>
    decreases ls.len() - i,
{
    if i < 0 || i >= ls.len() {
        seq![]
    } else {
        let ws = words(ls[i]);
        let rest = go_sum_scan(ls, i + 1);
        if ws.len() >= 2 && !ends_with(ws[1], "/go.mod"@) {
            seq![(ws[0], ws[1])] + rest
        } else {
            rest
        }
    }
}

/// The (module, version) lines of a `go.sum`.
pub open spec fn go_sum_modules(content: Seq<char>) -> Seq<(Seq<char>, Seq<char>)> {
    go_sum_scan(lines(content), 0)
}

/// The pairs whose name occurs there for the first time.
pub open spec fn first_pairs(ps: Seq<(Seq<char>, Seq<char>)>) -> Seq<(Seq<char>, Seq<char>)> {
    let ns = ps.map_values(|p: (Seq<char>, Seq<char>)| p.0);
    first_indices(ns, ns.len() as int).map_values(|k: int| ps[k])
}

/// Keeps each name's first pair.
fn first_of_each(ps: Vec<(String, String)>) -> (r: Vec<(String, String)>)
    ensures
        pairs(r@) == first_pairs(pairs(ps@)),
{
    let ghost pv = pairs(ps@);
    let ghost ns = pv.map_values(|p: (Seq<char>, Seq<char>)| p.0);
    let mut names: Vec<Vec<char>> = Vec::new();
    let mut i: usize = 0;
    while i < ps.len()
        invariant
            i <= ps.len(),
            pv == pairs(ps@),
            ns == pv.map_values(|p: (Seq<char>, Seq<char>)| p.0),
            views(names@) == ns.take(i as int),
        decreases ps.len() - i,
    {
        let ghost prev = views(names@);
        names.push(chars_of(ps[i].0.as_str()));
        assert(views(names@) =~= prev.push(ns[i as int]));
        assert(ns.take(i + 1) =~= ns.take(i as int).push(ns[i as int]));
        i += 1;
    }
    assert(ns.take(ps.len() as int) =~= ns);
    assert(names@.len() == views(names@).len());
    let mut r: Vec<(String, String)> = Vec::new();
    let mut k: usize = 0;
    while k < ps.len()
        invariant
            k <= ps.len(),
            pv == pairs(ps@),
            ns == pv.map_values(|p: (Seq<char>, Seq<char>)| p.0),
            views(names@) == ns,
            names@.len() == ps.len(),
            pairs(r@) == first_indices(ns, k as int).map_values(|m: int| pv[m]),
        decreases ps.len() - k,
    {
        assert(views(names@).take(k as int) == ns.take(k as int));
        let ghost prev = pairs(r@);
        if is_first(&names, k) {
            r.push((copy_text(&ps[k].0), copy_text(&ps[k].1)));
            assert(pairs(r@) =~= prev.push(pv[k as int]));
            assert(first_indices(ns, k + 1).map_values(|m: int| pv[m]) =~= prev.push(pv[k as int]));
        } else {
            assert(first_indices(ns, k + 1) == first_indices(ns, k as int));
        }
        k += 1;
    }
    r
}

/// The (module, version) lines of a `go.sum`.
fn go_sum_lines(content: &str) -> (r: Vec<(String, String)>)
    ensures
        pairs(r@) == go_sum_modules(content@),
{
    let c = chars_of(content);
    let ls = lines_chars(c.as_slice());
    let ghost lv = views(ls@);
    let suffix = chars_of("/go.mod");
    let mut out: Vec<(String, String)> = Vec::new();
    let mut i: usize = 0;
    while i < ls.len()
        invariant
            i <= ls.len(),
            lv == views(ls@),
            lv == lines(content@),
            suffix@ == "/go.mod"@,
            pairs(out@) + go_sum_scan(lv, i as int) == go_sum_modules(content@),
        decreases ls.len() - i,
    {
        let ws = words_chars(ls[i].as_slice());
        assert(ls@[i as int]@ == lv[i as int]);
        let ghost prev = pairs(out@);
        if ws.len() >= 2 && !ends_with_chars(ws[1].as_slice(), suffix.as_slice()) {
            assert(ws@[0]@ == words(lv[i as int])[0] && ws@[1]@ == words(lv[i as int])[1]);
            out.push((string_of(ws[0].as_slice()), string_of(ws[1].as_slice())));
            assert(pairs(out@) =~= prev.push((ws@[0]@, ws@[1]@)));
            assert(pairs(out@) + go_sum_scan(lv, i + 1) =~= prev + (seq![(ws@[0]@, ws@[1]@)]
                + go_sum_scan(lv, i + 1)));
        } else {
            assert(ws@.len() >= 2 ==> ws@[1]@ == words(lv[i as int])[1]);
        }
        i += 1;
    }
    assert(pairs(out@) =~= pairs(out@) + go_sum_scan(lv, i as int));
    out
}

/// The packages of a `go.sum`: each module once, with the version of its
/// first line, direct when declared.
pub fn packages_from_go_sum(content: &str, direct_deps: &Vec<(String, String)>) -> (r: Vec<Package>)
    ensures
        pairs_packaged(r@, first_pairs(go_sum_modules(content@)), Ecosystem::Go, pair_names(direct_deps@)),
{
    let ps = go_sum_lines(content);
    let firsts = first_of_each(ps);
    packages_from_pairs(firsts, Ecosystem::Go, direct_deps)
}

/// The packages of a `go.mod` when there is no `go.sum`: one per
/// requirement, at depth 0, direct when declared.
pub fn packages_from_go_mod(content: &str, direct_deps: &Vec<(String, String)>) -> (r: Vec<Package>)
    ensures
        pairs_packaged(r@, go_mod_deps(content@), Ecosystem::Go, pair_names(direct_deps@)),
{
    packages_from_pairs(go_mod_requirements(content), Ecosystem::Go, direct_deps)
}


// ── pom.xml ────────────────────────────────────────────────────────────────
/// The dependencies in `</dependency>`-separated blocks from the `i`th on,
/// whatever their scope: each block whose `<dependency>` element has a
/// group and an artifact id gives `group:artifact` with its version (empty
/// when there is none).
pub open spec fn pom_all_scan(bs: Seq<Seq<char>>, i: int) -> Seq<(Seq<char>, Seq<char>)>
    decreases bs.len() - i,
{
    if i < 0 || i >= bs.len() {
        seq![]
    } else {
        let b = dependency_body(bs[i]);
        let rest = pom_all_scan(bs, i + 1);
        match (xml_tag(b, "groupId"@), xml_tag(b, "artifactId"@)) {
            (Some(g), Some(a)) => seq![(maven_name(g, a), text_or(xml_tag(b, "version"@), seq![]))]
                + rest,
            _ => rest,
        }
    }
}

/// Every dependency block of a `pom.xml`, test-scoped ones included.
pub open spec fn pom_all_deps(content: Seq<char>) -> Seq<(Seq<char>, Seq<char>)> {
    pom_all_scan(split(content, "</dependency>"@), 0)
}

/// The dependency of one block, whatever its scope.
fn pom_any_block(b: &[char]) -> (r: Option<(String, String)>)
    ensures
        match r {
            Some(p) => xml_tag(b@, "groupId"@) is Some && xml_tag(b@, "artifactId"@) is Some
                && p.0@ == maven_name(xml_tag(b@, "groupId"@)->0, xml_tag(b@, "artifactId"@)->0)
                && p.1@ == text_or(xml_tag(b@, "version"@), seq![]),
            None => xml_tag(b@, "groupId"@) is None || xml_tag(b@, "artifactId"@) is None,
        },
{
    let g = extract_xml_tag(b, "groupId");
    let a = extract_xml_tag(b, "artifactId");
    let v = extract_xml_tag(b, "version");
    match (g, a) {
        (Some(g), Some(a)) => Some((maven_coordinates(&g, &a), or_empty(v))),
        _ => None,
    }
}

/// The dependencies of every `pom.xml` block, in order.
fn pom_all_pairs(xml: &str) -> (r: Vec<(String, String)>)
    ensures
        pairs(r@) == pom_all_deps(xml@),
{
    let c = chars_of(xml);
    let sep = chars_of("</dependency>");
    proof {
        reveal_strlit("</dependency>");
    }
    let bs = split_chars(c.as_slice(), sep.as_slice());
    let ghost bv = views(bs@);
    let mut deps: Vec<(String, String)> = Vec::new();
    let mut i: usize = 0;
    while i < bs.len()
        invariant
            i <= bs.len(),
            bv == views(bs@),
            bv == split(xml@, "</dependency>"@),
            pairs(deps@) + pom_all_scan(bv, i as int) == pom_all_deps(xml@),
        decreases bs.len() - i,
    {
        let ghost prev = pairs(deps@);
        assert(bs@[i as int]@ == bv[i as int]);
        let body = dependency_body_chars(bs[i].as_slice());
        assert(body@ == dependency_body(bv[i as int]));
        match pom_any_block(body.as_slice()) {
            Some(p) => {
                deps.push(p);
                assert(pairs(deps@) =~= prev.push((p.0@, p.1@)));
                assert(pairs(deps@) + pom_all_scan(bv, i + 1) =~= prev + (seq![(p.0@, p.1@)]
                    + pom_all_scan(bv, i + 1)));
            },
            None => {},
        }
        i += 1;
    }
    assert(pairs(deps@) =~= pairs(deps@) + pom_all_scan(bv, i as int));
    deps
}

/// The packages of a `pom.xml`: every dependency block with a group and an
/// artifact id, test-scoped ones included, at depth 0, direct when declared.
pub fn parse_pom_xml_deps(xml: &str, direct_deps: &Vec<(String, String)>) -> (r: Vec<Package>)
    ensures
        pairs_packaged(r@, pom_all_deps(xml@), Ecosystem::Maven, pair_names(direct_deps@)),
{
    packages_from_pairs(pom_all_pairs(xml), Ecosystem::Maven, direct_deps)
}

// ── *.csproj, packages.lock.json ───────────────────────────────────────────
/// The packages that a project file references, at depth 0, direct when
/// declared.
pub fn parse_csproj_refs(xml: &str, direct_deps: &Vec<(String, String)>) -> (r: Vec<Package>)
    ensures
        pairs_packaged(r@, csproj_deps(xml@), Ecosystem::NuGet, pair_names(direct_deps@)),
{
    packages_from_pairs(csproj_references(xml), Ecosystem::NuGet, direct_deps)
}

/// The package references of several project files, one after the other.
pub open spec fn csproj_all(files: Seq<String>) -> Seq<(Seq<char>, Seq<char>)>
    decreases files.len(),
{
    if files.len() == 0 {
        seq![]
    } else {
        csproj_all(files.drop_last()) + csproj_deps(files.last()@)
    }
}

/// The package references of several project files, one after the other.
fn csproj_all_pairs(files: &Vec<String>) -> (r: Vec<(String, String)>)
    ensures
        pairs(r@) == csproj_all(files@),
{
    let mut out: Vec<(String, String)> = Vec::new();
    let mut i: usize = 0;
    while i < files.len()
        invariant
            i <= files.len(),
            pairs(out@) == csproj_all(files@.take(i as int)),
        decreases files.len() - i,
    {
        let refs = csproj_references(files[i].as_str());
        let ghost prev = pairs(out@);
        let mut k: usize = 0;
        while k < refs.len()
            invariant
                k <= refs.len(),
                pairs(out@) == prev + pairs(refs@).take(k as int),
            decreases refs.len() - k,
        {
            let ghost before = pairs(out@);
            out.push((copy_text(&refs[k].0), copy_text(&refs[k].1)));
            assert(pairs(out@) =~= before.push(pairs(refs@)[k as int]));
            assert(pairs(refs@).take(k + 1) =~= pairs(refs@).take(k as int).push(pairs(refs@)[k as int]));
            assert(pairs(out@) =~= prev + pairs(refs@).take(k + 1));
            k += 1;
        }
        assert(pairs(refs@).take(refs.len() as int) =~= pairs(refs@));
        assert(files@.take(i + 1).drop_last() =~= files@.take(i as int));
        i += 1;
    }
    assert(files@.take(files.len() as int) =~= files@);
    out
}

/// One package of a `packages.lock.json`: its name and its `resolved`
/// version, when that is a string.
#[derive(Clone, Debug)]
pub struct NugetLockEntry {
    pub name: String,
    pub resolved: Option<String>,
}

/// The (name, version) pairs of NuGet lock entries; a missing version is
/// empty.
pub open spec fn nuget_pairs(es: Seq<NugetLockEntry>) -> Seq<(Seq<char>, Seq<char>)> {
    es.map_values(|e: NugetLockEntry| (e.name@, opt_text(e.resolved)))
}

/// The packages of a `packages.lock.json`, given its entries over all
/// targets in order: each at depth 0, with its resolved version (empty when
/// there is none), direct when declared.
pub fn packages_from_nuget_lock(entries: &Vec<NugetLockEntry>, direct_deps: &Vec<(String, String)>) -> (r: Vec<Package>)
    ensures
        pairs_packaged(r@, nuget_pairs(entries@), Ecosystem::NuGet, pair_names(direct_deps@)),
{
    let mut ps: Vec<(String, String)> = Vec::new();
    let mut i: usize = 0;
    while i < entries.len()
        invariant
            i <= entries.len(),
            pairs(ps@) == nuget_pairs(entries@).take(i as int),
        decreases entries.len() - i,
    {
        let v = text_or_empty(&entries[i].resolved);
        let ghost before = pairs(ps@);
        ps.push((copy_text(&entries[i].name), v));
        assert(pairs(ps@) =~= before.push(nuget_pairs(entries@)[i as int]));
        assert(nuget_pairs(entries@).take(i + 1) =~= nuget_pairs(entries@).take(i as int).push(
            nuget_pairs(entries@)[i as int],
        ));
        i += 1;
    }
    assert(nuget_pairs(entries@).take(entries.len() as int) =~= nuget_pairs(entries@));
    packages_from_pairs(ps, Ecosystem::NuGet, direct_deps)
}


// ── resolution ─────────────────────────────────────────────────────────────
/// What was found next to a manifest to resolve its dependencies from.
#[derive(Clone, Debug)]
pub enum LockData {
    /// Nothing usable was found.
    Missing,
    /// The entries of a `package-lock.json`.
    NpmLock(Vec<NpmLockEntry>),
    /// The packages of a `Cargo.lock`.
    CargoLock(Vec<CargoLockPackage>),
    /// The text of a `go.sum`.
    GoSum(String),
    /// The text of a `go.mod` (when there is no `go.sum`).
    GoMod(String),
    /// The text of a `pom.xml`.
    Pom(String),
    /// The entries of a `packages.lock.json`.
    NugetLock(Vec<NugetLockEntry>),
    /// The texts of the project files (`*.csproj`) of a directory.
    ProjectFiles(Vec<String>),
}

/// What may be resolved from: npm lock paths with `node_modules` in them,
/// a `Cargo.lock` whose entries can be counted in `u32`.
pub open spec fn lock_data_ok(eco: Ecosystem, data: LockData) -> bool {
    match (eco, data) {
        (Ecosystem::Node, LockData::NpmLock(es)) => npm_paths_ok(es@),
        (Ecosystem::Rust, LockData::CargoLock(ps)) => ps@.len() <= u32::MAX,
        _ => true,
    }
}

/// The packages that `r` holds for a project of ecosystem `eco` with the
/// declared dependencies `d`, given what was found: Python projects and
/// projects where nothing fitting was found give the declared dependencies;
/// otherwise the lock file or project file decides. Project files that
/// reference nothing count as nothing found.
pub open spec fn resolution(eco: Ecosystem, d: Seq<(String, String)>, data: LockData, r: Seq<Package>) -> bool {
    let dn = pair_names(d);
    match (eco, data) {
        (Ecosystem::Node, LockData::NpmLock(es)) => npm_lock_result(es@, dn, r),
        (Ecosystem::Rust, LockData::CargoLock(ps)) => cargo_lock_result(ps@, dn, r),
        (Ecosystem::Go, LockData::GoSum(c)) => pairs_packaged(r, first_pairs(go_sum_modules(c@)), eco, dn),
        (Ecosystem::Go, LockData::GoMod(c)) => pairs_packaged(r, go_mod_deps(c@), eco, dn),
        (Ecosystem::Maven, LockData::Pom(c)) => pairs_packaged(r, pom_all_deps(c@), eco, dn),
        (Ecosystem::NuGet, LockData::NugetLock(es)) => pairs_packaged(r, nuget_pairs(es@), eco, dn),
        (Ecosystem::NuGet, LockData::ProjectFiles(fs)) => if csproj_all(fs@).len() > 0 {
            pairs_packaged(r, csproj_all(fs@), eco, dn)
        } else {
            as_declared(r, d, eco)
        },
        _ => as_declared(r, d, eco),
    }
}

/// The names of the declared dependencies.
fn declared_names(direct_deps: &Vec<(String, String)>) -> (r: Vec<String>)
    ensures
        texts(r@) == pair_names(direct_deps@),
{
    let mut names: Vec<String> = Vec::new();
    let mut i: usize = 0;
    while i < direct_deps.len()
        invariant
            i <= direct_deps.len(),
            texts(names@) == pair_names(direct_deps@).take(i as int),
        decreases direct_deps.len() - i,
    {
        let ghost prev = texts(names@);
        names.push(copy_text(&direct_deps[i].0));
        assert(texts(names@) =~= prev.push(direct_deps@[i as int].0@));
        assert(pair_names(direct_deps@).take(i + 1) =~= pair_names(direct_deps@).take(i as int).push(
            direct_deps@[i as int].0@,
        ));
        i += 1;
    }
    assert(pair_names(direct_deps@).take(direct_deps.len() as int) =~= pair_names(direct_deps@));
    names
}

/// The installed packages of a project, from its declared dependencies and
/// what was found next to its manifest.
pub fn resolve(eco: Ecosystem, direct_deps: &Vec<(String, String)>, data: LockData) -> (r: Vec<Package>)
    requires
        lock_data_ok(eco, data),
    ensures
        resolution(eco, direct_deps@, data, r@),
{
    match (eco, data) {
        (Ecosystem::Node, LockData::NpmLock(es)) => packages_from_npm_lock(&es, &declared_names(direct_deps)),
        (Ecosystem::Rust, LockData::CargoLock(ps)) => packages_from_cargo_lock(&ps, &declared_names(direct_deps)),
        (Ecosystem::Go, LockData::GoSum(c)) => packages_from_go_sum(c.as_str(), direct_deps),
        (Ecosystem::Go, LockData::GoMod(c)) => packages_from_go_mod(c.as_str(), direct_deps),
        (Ecosystem::Maven, LockData::Pom(c)) => parse_pom_xml_deps(c.as_str(), direct_deps),
        (Ecosystem::NuGet, LockData::NugetLock(es)) => packages_from_nuget_lock(&es, direct_deps),
        (Ecosystem::NuGet, LockData::ProjectFiles(fs)) => {
            let refs = csproj_all_pairs(&fs);
            if refs.len() > 0 {
                packages_from_pairs(refs, eco, direct_deps)
            } else {
                packages_from_direct(direct_deps, eco)
            }
        },
        _ => packages_from_direct(direct_deps, eco),
    }
}

// ── lock files ─────────────────────────────────────────────────────────────
/// The places where a lock file is looked for, in order: each candidate in
/// the project's directory (the path itself when it is a directory, else
/// its parent), then each in that directory's parent. None when the path
/// has no directory.
pub open spec fn lock_places(path: Seq<char>, is_dir: bool, candidates: Seq<Seq<char>>) -> Seq<Seq<char>> {
    let dir = if is_dir {
        Some(path)
    } else {
        path_parent_of(path)
    };
    match dir {
        None => seq![],
        Some(d) => candidates.map_values(|c: Seq<char>| join_path(d, c)) + match path_parent_of(d) {
            Some(p) => candidates.map_values(|c: Seq<char>| join_path(p, c)),
            None => seq![],
        },
    }
}

/// Each candidate joined to a directory.
fn joined_all(dir: &str, candidates: &Vec<String>, out: &mut Vec<String>)
    ensures
        texts(final(out)@) == texts(old(out)@) + texts(candidates@).map_values(
            |c: Seq<char>| join_path(dir@, c),
        ),
{
    let ghost start = texts(out@);
    let mut i: usize = 0;
    while i < candidates.len()
        invariant
            i <= candidates.len(),
            texts(out@) == start + texts(candidates@).map_values(|c: Seq<char>| join_path(dir@, c)).take(
                i as int,
            ),
        decreases candidates.len() - i,
    {
        let ghost prev = texts(out@);
        out.push(join(dir, candidates[i].as_str()));
        assert(texts(out@) =~= prev.push(join_path(dir@, candidates@[i as int]@)));
        assert(texts(candidates@).map_values(|c: Seq<char>| join_path(dir@, c)).take(i + 1)
            =~= texts(candidates@).map_values(|c: Seq<char>| join_path(dir@, c)).take(i as int).push(
            join_path(dir@, candidates@[i as int]@),
        ));
        i += 1;
    }
    assert(texts(candidates@).map_values(|c: Seq<char>| join_path(dir@, c)).take(
        candidates.len() as int,
    ) =~= texts(candidates@).map_values(|c: Seq<char>| join_path(dir@, c)));
}

/// The places where a lock file named by one of `candidates` is looked
/// for, in order.
pub fn lock_file_places(project_path: &str, is_dir: bool, candidates: &Vec<String>) -> (r: Vec<String>)
    ensures
        texts(r@) == lock_places(project_path@, is_dir, texts(candidates@)),
{
    let dir = if is_dir {
        Some(string_of(chars_of(project_path).as_slice()))
    } else {
        path_parent(project_path)
    };
    let mut out: Vec<String> = Vec::new();
    match dir {
        None => {
            assert(texts(out@) =~= Seq::<Seq<char>>::empty());
        },
        Some(d) => {
            joined_all(d.as_str(), candidates, &mut out);
            match path_parent(d.as_str()) {
                Some(p) => {
                    joined_all(p.as_str(), candidates, &mut out);
                },
                None => {},
            }
            assert(texts(out@) =~= lock_places(project_path@, is_dir, texts(candidates@)));
        },
    }
    out
}

/// The first place from the `i`th on that exists (`exists[k]` tells
/// whether the `k`th place does).
pub open spec fn first_existing(places: Seq<Seq<char>>, exists: Seq<bool>, i: int) -> Option<Seq<char>>
    decreases places.len() - i,
{
    if i < 0 || i >= places.len() {
        None
    } else if i < exists.len() && exists[i] {
        Some(places[i])
    } else {
        first_existing(places, exists, i + 1)
    }
}

/// The lock file to read: the first of the places that exists.
pub fn find_lock_file(places: &Vec<String>, exists: &Vec<bool>) -> (r: Option<String>)
    ensures
        opt_view(r) == first_existing(texts(places@), exists@, 0),
{
    let mut i: usize = 0;
    while i < places.len()
        invariant
            i <= places.len(),
            first_existing(texts(places@), exists@, 0) == first_existing(texts(places@), exists@, i as int),
        decreases places.len() - i,
    {
        if i < exists.len() && exists[i] {
            return Some(copy_text(&places[i]));
        }
        i += 1;
    }
    None
}


// ── registry replies ───────────────────────────────────────────────────────
/// What the npm registry says of a package.
#[derive(Clone, Debug)]
pub struct NpmRegistryResponse {
    pub name: String,
    pub description: String,
    pub license: Option<String>,
    pub maintainers: Vec<Maintainer>,
    pub dist: Option<DistInfo>,
}

/// A maintainer of an npm package.
#[derive(Clone, Debug)]
pub struct Maintainer {
    pub name: String,
}

/// The distribution facts of an npm package.
#[derive(Clone, Debug)]
pub struct DistInfo {
    pub unpacked_size: Option<u64>,
}

/// What crates.io says of a crate.
#[derive(Clone, Debug)]
pub struct CratesIoResponse {
    pub crate_data: Option<CrateInfo>,
}

/// The facts that crates.io gives of a crate.
#[derive(Clone, Debug)]
pub struct CrateInfo {
    pub name: String,
    pub description: String,
    pub license: Option<String>,
    pub downloads: u64,
    pub recent_downloads: Option<u64>,
}


// ── laws ───────────────────────────────────────────────────────────────────
pub(crate) proof fn lemma_first_indices_props(ns: Seq<Seq<char>>, n: int)
    requires
        0 <= n <= ns.len(),
    ensures
        forall|m: int| 0 <= m < first_indices(ns, n).len() ==> 0 <= #[trigger] first_indices(ns, n)[m] < n,
        forall|m1: int, m2: int|
            0 <= m1 < m2 < first_indices(ns, n).len() ==> ns[first_indices(ns, n)[m1]] != ns[first_indices(
                ns,
                n,
            )[m2]],
    decreases n,
{
    if n > 0 {
        lemma_first_indices_props(ns, n - 1);
        let fi0 = first_indices(ns, n - 1);
        if !ns.take(n - 1).contains(ns[n - 1]) {
            let fi = first_indices(ns, n);
            assert(fi == fi0.push(n - 1));
            assert forall|m1: int, m2: int| 0 <= m1 < m2 < fi.len() implies ns[fi[m1]] != ns[fi[m2]] by {
                if m2 == fi.len() - 1 {
                    let q = fi0[m1];
                    assert(ns.take(n - 1)[q] == ns[q]);
                }
            }
        }
    }
}

/// The packages of a `go.sum` carry each module name once.
pub proof fn lemma_go_sum_names_unique(content: Seq<char>, direct: Seq<Seq<char>>, r: Seq<Package>)
    requires
        pairs_packaged(r, first_pairs(go_sum_modules(content)), Ecosystem::Go, direct),
    ensures
        forall|i: int, j: int| 0 <= i < j < r.len() ==> r[i].name@ != r[j].name@,
{
    let ps = go_sum_modules(content);
    let ns = ps.map_values(|p: (Seq<char>, Seq<char>)| p.0);
    lemma_first_indices_props(ns, ns.len() as int);
    let fi = first_indices(ns, ns.len() as int);
    assert forall|i: int, j: int| 0 <= i < j < r.len() implies r[i].name@ != r[j].name@ by {
        assert(r[i].name@ == first_pairs(ps)[i].0);
        assert(r[j].name@ == first_pairs(ps)[j].0);
        assert(first_pairs(ps)[i] == ps[fi[i]]);
        assert(first_pairs(ps)[j] == ps[fi[j]]);
        assert(ns[fi[i]] == ps[fi[i]].0);
        assert(ns[fi[j]] == ps[fi[j]].0);
    }
}

/// The packages of a `package-lock.json` carry each name once.
pub proof fn lemma_npm_names_unique(es: Seq<NpmLockEntry>, direct: Seq<Seq<char>>, r: Seq<Package>)
    requires
        npm_lock_result(es, direct, r),
    ensures
        forall|i: int, j: int| 0 <= i < j < r.len() ==> r[i].name@ != r[j].name@,
{
    let k = npm_kept(es, es.len() as int);
    let ns = npm_names(k);
    lemma_first_indices_props(ns, ns.len() as int);
    let fi = first_indices(ns, ns.len() as int);
    assert forall|i: int, j: int| 0 <= i < j < r.len() implies r[i].name@ != r[j].name@ by {
        assert(r[i].name@ == ns[fi[i]]);
        assert(r[j].name@ == ns[fi[j]]);
    }
}


pub(crate) proof fn lemma_first_indices_cover(ns: Seq<Seq<char>>, n: int, j: int)
    requires
        0 <= j < n <= ns.len(),
    ensures
        exists|m: int|
            0 <= m < first_indices(ns, n).len() && 0 <= first_indices(ns, n)[m] < n && ns[#[trigger] first_indices(ns, n)[m]] == ns[j],
    decreases n,
{
    let fi = first_indices(ns, n);
    let fi0 = first_indices(ns, n - 1);
    if j < n - 1 {
        lemma_first_indices_cover(ns, n - 1, j);
        let m = choose|m: int| 0 <= m < fi0.len() && 0 <= fi0[m] < n - 1 && ns[fi0[m]] == ns[j];
        if !ns.take(n - 1).contains(ns[n - 1]) {
            assert(fi == fi0.push(n - 1));
            assert(fi[m] == fi0[m]);
        }
    } else {
        if ns.take(n - 1).contains(ns[n - 1]) {
            let t = ns.take(n - 1);
            let q = choose|q: int| 0 <= q < t.len() && #[trigger] t[q] == ns[n - 1];
            assert(t[q] == ns[q]);
            lemma_first_indices_cover(ns, n - 1, q);
        } else {
            assert(fi == fi0.push(n - 1));
            assert(fi[fi0.len() as int] == n - 1);
        }
    }
}

proof fn lemma_kept_has(es: Seq<NpmLockEntry>, n: int, i: int)
    requires
        0 <= i < n <= es.len(),
        es[i].path@.len() > 0,
    ensures
        exists|t: int| 0 <= t < npm_kept(es, n).len() && #[trigger] npm_kept(es, n)[t] == es[i],
    decreases n,
{
    let k0 = npm_kept(es, n - 1);
    let k = npm_kept(es, n);
    if i < n - 1 {
        lemma_kept_has(es, n - 1, i);
        let t = choose|t: int| 0 <= t < k0.len() && #[trigger] k0[t] == es[i];
        if es[n - 1].path@.len() > 0 {
            assert(k == k0.push(es[n - 1]));
            assert(k[t] == k0[t]);
        } else {
            assert(k == k0);
        }
        assert(0 <= t < k.len() && k[t] == es[i]);
    } else {
        assert(k == k0.push(es[n - 1]));
        let t = k0.len() as int;
        assert(0 <= t < k.len() && k[t] == es[i]);
    }
}

proof fn lemma_kept_from(es: Seq<NpmLockEntry>, n: int, t: int)
    requires
        0 <= n <= es.len(),
        0 <= t < npm_kept(es, n).len(),
    ensures
        exists|i: int| 0 <= i < n && es[i].path@.len() > 0 && #[trigger] es[i] == npm_kept(es, n)[t],
    decreases n,
{
    if n > 0 {
        if es[n - 1].path@.len() > 0 && t == npm_kept(es, n - 1).len() {
            assert(es[n - 1] == npm_kept(es, n)[t]);
        } else {
            if es[n - 1].path@.len() > 0 {
                assert(npm_kept(es, n)[t] == npm_kept(es, n - 1)[t]);
            }
            lemma_kept_from(es, n - 1, t);
        }
    }
}

/// The packages of a `package-lock.json` are those of its entries: every
/// entry other than the root gives a package of its name, every package is
/// named after an entry, with that entry's version and dependencies, no two
/// packages share a name, and a package is direct when its name is declared.
pub proof fn lemma_npm_lock_lists_every_entry(es: Seq<NpmLockEntry>, dn: Seq<Seq<char>>, r: Seq<Package>)
    requires
        npm_lock_result(es, dn, r),
    ensures
        forall|i: int|
            0 <= i < es.len() && es[i].path@.len() > 0 ==> exists|m: int|
                0 <= m < r.len() && (#[trigger] r[m]).name@ == npm_name(es[i].path@),
        forall|m: int|
            0 <= m < r.len() ==> exists|i: int|
                0 <= i < es.len() && es[i].path@.len() > 0 && npm_name(es[i].path@) == (#[trigger] r[m]).name@
                    && r[m].version@ == opt_text(es[i].version) && texts(r[m].dependencies@) == npm_deps(es[i])
                    && r[m].ecosystem == Ecosystem::Node,
        forall|m: int| 0 <= m < r.len() ==> (#[trigger] r[m]).direct == npm_direct(dn, r[m].name@),
        forall|m1: int, m2: int| 0 <= m1 < m2 < r.len() ==> (#[trigger] r[m1]).name@ != (#[trigger] r[m2]).name@,
{
    let k = npm_kept(es, es.len() as int);
    let ns = npm_names(k);
    let fi = first_indices(ns, ns.len() as int);
    lemma_first_indices_props(ns, ns.len() as int);
    assert forall|i: int| 0 <= i < es.len() && es[i].path@.len() > 0 implies exists|m: int|
        0 <= m < r.len() && (#[trigger] r[m]).name@ == npm_name(es[i].path@) by {
        lemma_kept_has(es, es.len() as int, i);
        let t = choose|t: int| 0 <= t < k.len() && #[trigger] k[t] == es[i];
        assert(ns[t] == npm_name(es[i].path@));
        lemma_first_indices_cover(ns, ns.len() as int, t);
        let m = choose|m: int| 0 <= m < fi.len() && 0 <= fi[m] < ns.len() && ns[#[trigger] fi[m]] == ns[t];
        assert(r[m].name@ == ns[fi[m]]);
    }
    assert forall|m: int| 0 <= m < r.len() implies exists|i: int|
        0 <= i < es.len() && es[i].path@.len() > 0 && npm_name(es[i].path@) == (#[trigger] r[m]).name@
            && r[m].version@ == opt_text(es[i].version) && texts(r[m].dependencies@) == npm_deps(es[i])
            && r[m].ecosystem == Ecosystem::Node by {
        let x = ns[fi[m]];
        lemma_last_index_found(ns, x, fi[m]);
        let j = last_index(ns, x)->0;
        lemma_kept_from(es, es.len() as int, j);
        let i = choose|i: int| 0 <= i < es.len() && es[i].path@.len() > 0 && #[trigger] es[i] == k[j];
        assert(ns[j] == npm_name(k[j].path@));
    }
    assert forall|m1: int, m2: int| 0 <= m1 < m2 < r.len() implies (#[trigger] r[m1]).name@
        != (#[trigger] r[m2]).name@ by {
        assert(r[m1].name@ == ns[fi[m1]]);
        assert(r[m2].name@ == ns[fi[m2]]);
    }
}

/// Resolving a Node project from its `package-lock.json` lists the packages
/// of the lock, not the declared dependencies: every entry other than the
/// root gives a package of its name, each with the version and dependencies
/// of an entry of that name; no two packages share a name, and a package is
/// direct when its name is declared.
pub proof fn lemma_node_resolution_reads_the_lock(d: Seq<(String, String)>, es: Vec<NpmLockEntry>, r: Seq<Package>)
    requires
        resolution(Ecosystem::Node, d, LockData::NpmLock(es), r),
    ensures
        forall|i: int|
            0 <= i < es@.len() && es@[i].path@.len() > 0 ==> exists|m: int|
                0 <= m < r.len() && (#[trigger] r[m]).name@ == npm_name(es@[i].path@),
        forall|m: int|
            0 <= m < r.len() ==> exists|i: int|
                0 <= i < es@.len() && es@[i].path@.len() > 0 && npm_name(es@[i].path@) == (#[trigger] r[m]).name@
                    && r[m].version@ == opt_text(es@[i].version) && texts(r[m].dependencies@) == npm_deps(es@[i])
                    && r[m].ecosystem == Ecosystem::Node,
        forall|m: int| 0 <= m < r.len() ==> (#[trigger] r[m]).direct == npm_direct(pair_names(d), r[m].name@),
        forall|m1: int, m2: int| 0 <= m1 < m2 < r.len() ==> (#[trigger] r[m1]).name@ != (#[trigger] r[m2]).name@,
{
    assert(npm_lock_result(es@, pair_names(d), r));
    lemma_npm_lock_lists_every_entry(es@, pair_names(d), r);
}

} // verus!
