//! The dependency tree as ASCII art: each direct package with its
//! dependencies nested below it, a package expanded only the first time it
//! is shown and marked "(already listed)" after that.
use vstd::prelude::*;
use vstd::set_lib::{lemma_len_subset};
use crate::models::{AnalysisResult, Package};
use crate::resolver::{find_last, last_index, lemma_last_index_found, lemma_last_index_range};
use crate::text::{append_chars, chars_eq, chars_of, string_of, texts, views};

verus! {

/// The names of the packages, in order.
pub open spec fn pkg_names(pkgs: Seq<Package>) -> Seq<Seq<char>> {
    pkgs.map_values(|p: Package| p.name@)
}

/// The package that a name stands for: the last one with that name.
pub open spec fn pkg_for(pkgs: Seq<Package>, name: Seq<char>) -> Option<int> {
    last_index(pkg_names(pkgs), name)
}

/// The connector in front of an entry.
pub open spec fn conn(last: bool) -> Seq<char> {
    if last {
        "└── "@
    } else {
        "├── "@
    }
}

/// The indentation continued below an entry.
pub open spec fn indent_step(last: bool) -> Seq<char> {
    if last {
        "    "@
    } else {
        "│   "@
    }
}

/// How a package already shown is named again: `name@version` of the
/// package that the name stands for (the name alone if there is none).
pub open spec fn listed_label(pkgs: Seq<Package>, name: Seq<char>) -> Seq<char> {
    match pkg_for(pkgs, name) {
        Some(j) => name + "@"@ + pkgs[j].version@,
        None => name,
    }
}

/// The lines for the dependencies `deps[i..]` below an entry, added to `out`;
/// `shown` holds the names already expanded. `fuel` bounds the nesting.
pub open spec fn children_text(
    pkgs: Seq<Package>,
    deps: Seq<Seq<char>>,
    i: int,
    indent: Seq<char>,
    out: Seq<char>,
    shown: Set<Seq<char>>,
    fuel: nat,
) -> (Seq<char>, Set<Seq<char>>)
    decreases fuel, deps.len() - i,
{
    if fuel == 0 || i < 0 || i >= deps.len() {
        (out, shown)
    } else {
        let last = i == deps.len() - 1;
        let name = deps[i];
        if shown.contains(name) {
            children_text(
                pkgs,
                deps,
                i + 1,
                indent,
                out + indent + conn(last) + listed_label(pkgs, name) + " (already listed)\n"@,
                shown,
                fuel,
            )
        } else {
            match pkg_for(pkgs, name) {
                Some(j) => {
                    let p = pkgs[j];
                    let out1 = out + indent + conn(last) + p.name@ + "@"@ + p.version@ + "\n"@;
                    let shown1 = shown.insert(p.name@);
                    let inner = if p.dependencies@.len() > 0 {
                        children_text(
                            pkgs,
                            texts(p.dependencies@),
                            0,
                            indent + indent_step(last),
                            out1,
                            shown1,
                            (fuel - 1) as nat,
                        )
                    } else {
                        (out1, shown1)
                    };
                    children_text(pkgs, deps, i + 1, indent, inner.0, inner.1, fuel)
                },
                None => children_text(
                    pkgs,
                    deps,
                    i + 1,
                    indent,
                    out + indent + conn(last) + name + "\n"@,
                    shown,
                    fuel,
                ),
            }
        }
    }
}

/// The indices of the direct packages among the first `n`.
pub open spec fn roots(pkgs: Seq<Package>, n: int) -> Seq<int>
    decreases n,
{
    if n <= 0 {
        seq![]
    } else if pkgs[n - 1].direct {
        roots(pkgs, n - 1).push(n - 1)
    } else {
        roots(pkgs, n - 1)
    }
}

/// The tree from the `i`th direct package on, added to `out`.
pub open spec fn render_roots(
    pkgs: Seq<Package>,
    rs: Seq<int>,
    i: int,
    out: Seq<char>,
    shown: Set<Seq<char>>,
) -> Seq<char>
    decreases rs.len() - i,
{
    if i < 0 || i >= rs.len() {
        out
    } else {
        let last = i == rs.len() - 1;
        let p = pkgs[pkg_for(pkgs, pkgs[rs[i]].name@)->0];
        let out1 = out + conn(last) + p.name@ + "@"@ + p.version@ + "\n"@;
        let inner = if p.dependencies@.len() > 0 {
            children_text(
                pkgs,
                texts(p.dependencies@),
                0,
                indent_step(last),
                out1,
                shown,
                (pkgs.len() + 1) as nat,
            )
        } else {
            (out1, shown)
        };
        render_roots(pkgs, rs, i + 1, inner.0, inner.1.insert(p.name@))
    }
}

/// The whole tree of a list of packages.
pub open spec fn render_tree(pkgs: Seq<Package>) -> Seq<char> {
    render_roots(pkgs, roots(pkgs, pkgs.len() as int), 0, seq![], Set::empty())
}

/// How many package names have not been expanded yet.
pub open spec fn unshown(pkgs: Seq<Package>, shown: Set<Seq<char>>) -> nat {
    pkg_names(pkgs).to_set().difference(shown).len()
}

proof fn lemma_unshown_insert(pkgs: Seq<Package>, shown: Set<Seq<char>>, j: int)
    requires
        0 <= j < pkgs.len(),
        !shown.contains(pkgs[j].name@),
    ensures
        unshown(pkgs, shown.insert(pkgs[j].name@)) + 1 == unshown(pkgs, shown),
{
    let a = pkg_names(pkgs).to_set();
    let x = pkgs[j].name@;
    assert(pkg_names(pkgs)[j] == x);
    assert(a.contains(x));
    vstd::seq_lib::seq_to_set_is_finite(pkg_names(pkgs));
    assert(a.difference(shown.insert(x)) =~= a.difference(shown).remove(x));
}

proof fn lemma_unshown_subset(pkgs: Seq<Package>, s1: Set<Seq<char>>, s2: Set<Seq<char>>)
    requires
        s1.subset_of(s2),
    ensures
        unshown(pkgs, s2) <= unshown(pkgs, s1),
{
    let a = pkg_names(pkgs).to_set();
    vstd::seq_lib::seq_to_set_is_finite(pkg_names(pkgs));
    lemma_len_subset(a.difference(s2), a.difference(s1));
}

proof fn lemma_unshown_bound(pkgs: Seq<Package>, shown: Set<Seq<char>>)
    ensures
        unshown(pkgs, shown) <= pkgs.len(),
{
    let a = pkg_names(pkgs).to_set();
    vstd::seq_lib::seq_to_set_is_finite(pkg_names(pkgs));
    pkg_names(pkgs).lemma_cardinality_of_set();
    lemma_len_subset(a.difference(shown), a);
}

/// A copy of some characters.
fn copy_chars(v: &Vec<char>) -> (r: Vec<char>)
    ensures
        r@ == v@,
{
    let mut r: Vec<char> = Vec::new();
    append_chars(&mut r, v.as_slice());
    assert(r@ =~= v@);
    r
}

/// Whether a name was already expanded.
fn is_shown(shown: &Vec<Vec<char>>, name: &[char]) -> (r: bool)
    ensures
        r == views(shown@).to_set().contains(name@),
{
    let mut i: usize = 0;
    while i < shown.len()
        invariant
            i <= shown.len(),
            forall|k: int| 0 <= k < i ==> shown@[k]@ != name@,
        decreases shown.len() - i,
    {
        if chars_eq(shown[i].as_slice(), name) {
            assert(views(shown@)[i as int] == name@);
            return true;
        }
        i += 1;
    }
    assert(!views(shown@).contains(name@)) by {
        assert forall|k: int| 0 <= k < views(shown@).len() implies views(shown@)[k] != name@ by {
            assert(views(shown@)[k] == shown@[k]@);
        }
    }
    false
}

/// The connector in front of an entry.
fn conn_chars(last: bool) -> (r: Vec<char>)
    ensures
        r@ == conn(last),
{
    if last {
        chars_of("└── ")
    } else {
        chars_of("├── ")
    }
}

/// The indentation continued below an entry.
fn indent_chars(last: bool) -> (r: Vec<char>)
    ensures
        r@ == indent_step(last),
{
    if last {
        chars_of("    ")
    } else {
        chars_of("│   ")
    }
}

/// Renders the dependencies `deps` below an entry.
fn render_children(
    pkgs: &Vec<Package>,
    names: &Vec<Vec<char>>,
    deps: &Vec<String>,
    indent: &Vec<char>,
    shown: &mut Vec<Vec<char>>,
    out: &mut Vec<char>,
    fuel: usize,
)
    requires
        views(names@) == pkg_names(pkgs@),
        fuel > unshown(pkgs@, views(old(shown)@).to_set()),
    ensures
        (final(out)@, views(final(shown)@).to_set()) == children_text(
            pkgs@,
            texts(deps@),
            0,
            indent@,
            old(out)@,
            views(old(shown)@).to_set(),
            fuel as nat,
        ),
        views(old(shown)@).to_set().subset_of(views(final(shown)@).to_set()),
    decreases fuel,
{
    let ghost ds = texts(deps@);
    let ghost whole = children_text(
        pkgs@,
        ds,
        0,
        indent@,
        out@,
        views(shown@).to_set(),
        fuel as nat,
    );
    let ghost shown0 = views(shown@).to_set();
    let count = deps.len();
    let mut i: usize = 0;
    while i < count
        invariant
            count == deps@.len(),
            ds == texts(deps@),
            i <= count,
            views(names@) == pkg_names(pkgs@),
            fuel > unshown(pkgs@, views(shown@).to_set()),
            shown0.subset_of(views(shown@).to_set()),
            children_text(pkgs@, ds, i as int, indent@, out@, views(shown@).to_set(), fuel as nat)
                == whole,
        decreases count - i,
    {
        let last = i == count - 1;
        let name = chars_of(deps[i].as_str());
        let ghost o = out@;
        let ghost sh = views(shown@).to_set();
        assert(name@ == ds[i as int]);
        let c = conn_chars(last);
        if is_shown(shown, name.as_slice()) {
            append_chars(out, indent.as_slice());
            append_chars(out, c.as_slice());
            append_chars(out, name.as_slice());
            match find_last(names, name.as_slice()) {
                Some(j) => {
                    proof {
                        lemma_last_index_range(pkg_names(pkgs@), name@);
                    }
                    append_chars(out, chars_of("@").as_slice());
                    append_chars(out, chars_of(pkgs[j].version.as_str()).as_slice());
                },
                None => {},
            }
            append_chars(out, chars_of(" (already listed)\n").as_slice());
            assert(out@ == o + indent@ + conn(last) + listed_label(pkgs@, ds[i as int])
                + " (already listed)\n"@);
        } else {
            match find_last(names, name.as_slice()) {
                Some(j) => {
                    proof {
                        lemma_last_index_range(pkg_names(pkgs@), name@);
                        assert(pkg_names(pkgs@)[j as int] == pkgs@[j as int].name@);
                    }
                    let p = &pkgs[j];
                    append_chars(out, indent.as_slice());
                    append_chars(out, c.as_slice());
                    append_chars(out, chars_of(p.name.as_str()).as_slice());
                    append_chars(out, chars_of("@").as_slice());
                    append_chars(out, chars_of(p.version.as_str()).as_slice());
                    append_chars(out, chars_of("\n").as_slice());
                    let ghost out1 = out@;
                    assert(out1 == o + indent@ + conn(last) + p.name@ + "@"@ + p.version@ + "\n"@);
                    let ghost prev_shown = shown@;
                    shown.push(chars_of(p.name.as_str()));
                    let ghost shown1 = views(shown@).to_set();
                    proof {
                        assert(views(shown@) =~= views(prev_shown).push(p.name@));
                        views(prev_shown).lemma_push_to_set_commute(p.name@);
                        assert(shown1 =~= sh.insert(p.name@));
                        lemma_unshown_insert(pkgs@, sh, j as int);
                    }
                    if p.dependencies.len() > 0 {
                        let mut child = copy_chars(indent);
                        append_chars(&mut child, indent_chars(last).as_slice());
                        render_children(pkgs, names, &p.dependencies, &child, shown, out, fuel - 1);
                        proof {
                            lemma_unshown_subset(pkgs@, shown1, views(shown@).to_set());
                        }
                    }
                },
                None => {
                    append_chars(out, indent.as_slice());
                    append_chars(out, c.as_slice());
                    append_chars(out, name.as_slice());
                    append_chars(out, chars_of("\n").as_slice());
                    assert(out@ == o + indent@ + conn(last) + ds[i as int] + "\n"@);
                },
            }
        }
        i += 1;
    }
}

/// The indices of the direct packages.
fn direct_roots(pkgs: &Vec<Package>) -> (r: Vec<usize>)
    ensures
        r@.map_values(|x: usize| x as int) == roots(pkgs@, pkgs@.len() as int),
        forall|k: int| 0 <= k < r@.len() ==> (#[trigger] r@[k]) < pkgs@.len(),
{
    let mut r: Vec<usize> = Vec::new();
    let mut i: usize = 0;
    while i < pkgs.len()
        invariant
            i <= pkgs.len(),
            r@.map_values(|x: usize| x as int) == roots(pkgs@, i as int),
            forall|k: int| 0 <= k < r@.len() ==> (#[trigger] r@[k]) < i,
        decreases pkgs.len() - i,
    {
        if pkgs[i].direct {
            let ghost prev = r@;
            r.push(i);
            assert(r@.map_values(|x: usize| x as int) =~= prev.map_values(|x: usize| x as int).push(
                i as int,
            ));
        }
        i += 1;
    }
    r
}

/// The dependency tree of an analysis: each direct package, in order, as
/// `name@version` after a `├── ` or (last) `└── ` connector, its
/// dependencies nested below it; a package shown a second time appears as
/// `name@version (already listed)` and is not expanded again, a dependency
/// that is no package is shown by name.
pub fn render(result: &AnalysisResult) -> (r: String)
    requires
        result.packages@.len() < usize::MAX,
    ensures
        r@ == render_tree(result.packages@),
{
    let pkgs = &result.packages;
    let n = pkgs.len();
    let mut names: Vec<Vec<char>> = Vec::new();
    let mut i: usize = 0;
    while i < n
        invariant
            i <= n == pkgs@.len(),
            views(names@) == pkg_names(pkgs@).take(i as int),
        decreases n - i,
    {
        let ghost prev = views(names@);
        names.push(chars_of(pkgs[i].name.as_str()));
        assert(views(names@) =~= prev.push(pkgs@[i as int].name@));
        assert(pkg_names(pkgs@).take(i + 1) =~= pkg_names(pkgs@).take(i as int).push(
            pkgs@[i as int].name@,
        ));
        i += 1;
    }
    assert(pkg_names(pkgs@).take(n as int) =~= pkg_names(pkgs@));
    let rs = direct_roots(pkgs);
    let ghost rv = rs@.map_values(|x: usize| x as int);
    let mut out: Vec<char> = Vec::new();
    let mut shown: Vec<Vec<char>> = Vec::new();
    assert(views(shown@).to_set() =~= Set::<Seq<char>>::empty());
    let mut k: usize = 0;
    while k < rs.len()
        invariant
            n == pkgs@.len(),
            n < usize::MAX,
            views(names@) == pkg_names(pkgs@),
            rv == rs@.map_values(|x: usize| x as int),
            rv == roots(pkgs@, n as int),
            forall|m: int| 0 <= m < rs@.len() ==> (#[trigger] rs@[m]) < n,
            k <= rs.len(),
            render_roots(pkgs@, rv, k as int, out@, views(shown@).to_set()) == render_tree(pkgs@),
        decreases rs.len() - k,
    {
        let last = k == rs.len() - 1;
        let root = rs[k];
        assert(rv[k as int] == root as int);
        let name = chars_of(pkgs[root].name.as_str());
        proof {
            assert(pkg_names(pkgs@)[root as int] == name@);
            lemma_last_index_found(pkg_names(pkgs@), name@, root as int);
        }
        let j = find_last(&names, name.as_slice()).unwrap();
        let p = &pkgs[j];
        let ghost o = out@;
        append_chars(&mut out, conn_chars(last).as_slice());
        append_chars(&mut out, chars_of(p.name.as_str()).as_slice());
        append_chars(&mut out, chars_of("@").as_slice());
        append_chars(&mut out, chars_of(p.version.as_str()).as_slice());
        append_chars(&mut out, chars_of("\n").as_slice());
        assert(out@ == o + conn(last) + p.name@ + "@"@ + p.version@ + "\n"@);
        if p.dependencies.len() > 0 {
            proof {
                lemma_unshown_bound(pkgs@, views(shown@).to_set());
            }
            render_children(pkgs, &names, &p.dependencies, &indent_chars(last), &mut shown, &mut out, n + 1);
        }
        let ghost prev_shown = shown@;
        shown.push(chars_of(p.name.as_str()));
        proof {
            views(prev_shown).lemma_push_to_set_commute(p.name@);
            assert(views(shown@) =~= views(prev_shown).push(p.name@));
        }
        k += 1;
    }
    string_of(out.as_slice())
}

/// The direct packages are the first two when no later package is direct.
proof fn lemma_roots_first_two(pkgs: Seq<Package>, n: int)
    requires
        2 <= n <= pkgs.len(),
        pkgs[0].direct,
        pkgs[1].direct,
        forall|k: int| 2 <= k < pkgs.len() ==> !(#[trigger] pkgs[k]).direct,
    ensures
        roots(pkgs, n) == seq![0int, 1int],
    decreases n,
{
    if n > 2 {
        lemma_roots_first_two(pkgs, n - 1);
    } else {
        reveal_with_fuel(roots, 3);
        assert(roots(pkgs, 0) =~= Seq::<int>::empty());
        assert(roots(pkgs, 2) =~= seq![0int, 1int]);
    }
}

/// A direct package is expanded once: when a later direct package depends
/// on it, it appears there as `name@version (already listed)`, with nothing
/// below it. Here the first direct package has no dependencies, the second
/// depends on the first alone, and no other package is direct or shares
/// their names.
pub proof fn lemma_direct_package_listed_once(pkgs: Seq<Package>)
    requires
        pkgs.len() >= 2,
        pkgs[0].direct,
        pkgs[0].dependencies@.len() == 0,
        pkgs[1].direct,
        pkgs[1].dependencies@.len() == 1,
        pkgs[1].dependencies@[0]@ == pkgs[0].name@,
        pkgs[0].name@ != pkgs[1].name@,
        forall|k: int|
            2 <= k < pkgs.len() ==> !(#[trigger] pkgs[k]).direct && pkgs[k].name@ != pkgs[0].name@
                && pkgs[k].name@ != pkgs[1].name@,
    ensures
        render_tree(pkgs) == "├── "@ + pkgs[0].name@ + "@"@ + pkgs[0].version@ + "\n"@ + "└── "@
            + pkgs[1].name@ + "@"@ + pkgs[1].version@ + "\n"@ + "    "@ + "└── "@ + pkgs[0].name@
            + "@"@ + pkgs[0].version@ + " (already listed)\n"@,
{
    let a = pkgs[0];
    let d = pkgs[1];
    let names = pkg_names(pkgs);
    lemma_roots_first_two(pkgs, pkgs.len() as int);
    let rs = roots(pkgs, pkgs.len() as int);
    assert(names[0] == a.name@);
    assert(names[1] == d.name@);
    lemma_last_index_found(names, a.name@, 0);
    lemma_last_index_found(names, d.name@, 1);
    lemma_last_index_range(names, a.name@);
    lemma_last_index_range(names, d.name@);
    assert(pkg_for(pkgs, a.name@) == Some(0int)) by {
        let j = pkg_for(pkgs, a.name@)->0;
        if j != 0 {
            assert(names[j] == pkgs[j].name@);
        }
    }
    assert(pkg_for(pkgs, d.name@) == Some(1int)) by {
        let j = pkg_for(pkgs, d.name@)->0;
        if j != 1 {
            assert(names[j] == pkgs[j].name@);
        }
    }
    let out1 = "├── "@ + a.name@ + "@"@ + a.version@ + "\n"@;
    let shown1 = Set::<Seq<char>>::empty().insert(a.name@);
    assert(render_tree(pkgs) == render_roots(pkgs, rs, 1, out1, shown1));
    let out2 = out1 + "└── "@ + d.name@ + "@"@ + d.version@ + "\n"@;
    let ds = texts(d.dependencies@);
    assert(ds =~= seq![a.name@]);
    let fuel = (pkgs.len() + 1) as nat;
    let out3 = out2 + "    "@ + "└── "@ + listed_label(pkgs, a.name@) + " (already listed)\n"@;
    assert(children_text(pkgs, ds, 1, "    "@, out3, shown1, fuel) == (out3, shown1));
    assert(children_text(pkgs, ds, 0, "    "@, out2, shown1, fuel) == (out3, shown1));
    assert(render_roots(pkgs, rs, 2, out3, shown1.insert(d.name@)) == out3);
    assert(render_roots(pkgs, rs, 1, out1, shown1) == out3);
    assert(listed_label(pkgs, a.name@) == a.name@ + "@"@ + a.version@);
    assert(out3 =~= "├── "@ + a.name@ + "@"@ + a.version@ + "\n"@ + "└── "@ + d.name@ + "@"@
        + d.version@ + "\n"@ + "    "@ + "└── "@ + a.name@ + "@"@ + a.version@
        + " (already listed)\n"@);
}

/// The direct packages are the first and the third when no other is direct.
proof fn lemma_roots_first_and_third(pkgs: Seq<Package>, n: int)
    requires
        3 <= n <= pkgs.len(),
        pkgs[0].direct,
        !pkgs[1].direct,
        pkgs[2].direct,
        forall|k: int| 3 <= k < pkgs.len() ==> !(#[trigger] pkgs[k]).direct,
    ensures
        roots(pkgs, n) == seq![0int, 2int],
    decreases n,
{
    if n > 3 {
        lemma_roots_first_and_third(pkgs, n - 1);
    } else {
        reveal_with_fuel(roots, 4);
        assert(roots(pkgs, 0) =~= Seq::<int>::empty());
        assert(roots(pkgs, 3) =~= seq![0int, 2int]);
    }
}

/// A dependency is expanded once: when two direct packages depend on the
/// same package, it is shown with its version below the first and as
/// `name@version (already listed)` below the second. Here each of the two
/// direct packages depends on that package alone, it has no dependencies,
/// it sits between them, and no other package is direct or shares the
/// three names.
pub proof fn lemma_shared_dependency_listed_once(pkgs: Seq<Package>)
    requires
        pkgs.len() >= 3,
        pkgs[0].direct,
        pkgs[0].dependencies@.len() == 1,
        pkgs[0].dependencies@[0]@ == pkgs[1].name@,
        !pkgs[1].direct,
        pkgs[1].dependencies@.len() == 0,
        pkgs[2].direct,
        pkgs[2].dependencies@.len() == 1,
        pkgs[2].dependencies@[0]@ == pkgs[1].name@,
        pkgs[0].name@ != pkgs[1].name@,
        pkgs[0].name@ != pkgs[2].name@,
        pkgs[1].name@ != pkgs[2].name@,
        forall|k: int|
            3 <= k < pkgs.len() ==> !(#[trigger] pkgs[k]).direct && pkgs[k].name@ != pkgs[0].name@
                && pkgs[k].name@ != pkgs[1].name@ && pkgs[k].name@ != pkgs[2].name@,
    ensures
        render_tree(pkgs) == "├── "@ + pkgs[0].name@ + "@"@ + pkgs[0].version@ + "\n"@ + "│   "@
            + "└── "@ + pkgs[1].name@ + "@"@ + pkgs[1].version@ + "\n"@ + "└── "@ + pkgs[2].name@
            + "@"@ + pkgs[2].version@ + "\n"@ + "    "@ + "└── "@ + pkgs[1].name@ + "@"@
            + pkgs[1].version@ + " (already listed)\n"@,
{
    let a = pkgs[0];
    let b = pkgs[1];
    let d = pkgs[2];
    let names = pkg_names(pkgs);
    lemma_roots_first_and_third(pkgs, pkgs.len() as int);
    let rs = roots(pkgs, pkgs.len() as int);
    assert(names[0] == a.name@);
    assert(names[1] == b.name@);
    assert(names[2] == d.name@);
    lemma_last_index_found(names, a.name@, 0);
    lemma_last_index_found(names, b.name@, 1);
    lemma_last_index_found(names, d.name@, 2);
    lemma_last_index_range(names, a.name@);
    lemma_last_index_range(names, b.name@);
    lemma_last_index_range(names, d.name@);
    assert(pkg_for(pkgs, a.name@) == Some(0int)) by {
        let j = pkg_for(pkgs, a.name@)->0;
        assert(names[j] == pkgs[j].name@);
    }
    assert(pkg_for(pkgs, b.name@) == Some(1int)) by {
        let j = pkg_for(pkgs, b.name@)->0;
        assert(names[j] == pkgs[j].name@);
    }
    assert(pkg_for(pkgs, d.name@) == Some(2int)) by {
        let j = pkg_for(pkgs, d.name@)->0;
        assert(names[j] == pkgs[j].name@);
    }
    let fuel = (pkgs.len() + 1) as nat;
    let empty = Set::<Seq<char>>::empty();
    let sb = empty.insert(b.name@);
    let ds_a = texts(a.dependencies@);
    let ds_d = texts(d.dependencies@);
    assert(ds_a =~= seq![b.name@]);
    assert(ds_d =~= seq![b.name@]);
    let out1 = "├── "@ + a.name@ + "@"@ + a.version@ + "\n"@;
    let out2 = out1 + "│   "@ + "└── "@ + b.name@ + "@"@ + b.version@ + "\n"@;
    assert(children_text(pkgs, ds_a, 1, "│   "@, out2, sb, fuel) == (out2, sb));
    assert(children_text(pkgs, ds_a, 0, "│   "@, out1, empty, fuel) == (out2, sb));
    let sab = sb.insert(a.name@);
    assert(render_tree(pkgs) == render_roots(pkgs, rs, 1, out2, sab));
    let out3 = out2 + "└── "@ + d.name@ + "@"@ + d.version@ + "\n"@;
    let out4 = out3 + "    "@ + "└── "@ + listed_label(pkgs, b.name@) + " (already listed)\n"@;
    assert(sab.contains(b.name@));
    assert(children_text(pkgs, ds_d, 1, "    "@, out4, sab, fuel) == (out4, sab));
    assert(children_text(pkgs, ds_d, 0, "    "@, out3, sab, fuel) == (out4, sab));
    assert(render_roots(pkgs, rs, 2, out4, sab.insert(d.name@)) == out4);
    assert(render_roots(pkgs, rs, 1, out2, sab) == out4);
    assert(listed_label(pkgs, b.name@) == b.name@ + "@"@ + b.version@);
    assert(out4 =~= "├── "@ + a.name@ + "@"@ + a.version@ + "\n"@ + "│   "@ + "└── "@ + b.name@
        + "@"@ + b.version@ + "\n"@ + "└── "@ + d.name@ + "@"@ + d.version@ + "\n"@ + "    "@
        + "└── "@ + b.name@ + "@"@ + b.version@ + " (already listed)\n"@);
}

} // verus!
