//! Comparing two stored analyses: which packages were added, removed or
//! changed in version.
use vstd::prelude::*;
use crate::models::{DbPackage, DiffChange, DiffEntry, DiffResult};
use crate::resolver::{find_last, last_index, lemma_last_index_found, lemma_last_index_range};
use crate::text::{chars_eq, chars_of, views};

verus! {

/// The names of some stored packages.
pub open spec fn db_names(ps: Seq<DbPackage>) -> Seq<Seq<char>> {
    ps.map_values(|p: DbPackage| p.name@)
}

/// The packages, in order, whose name is not among `names`.
pub open spec fn missing_from(names: Seq<Seq<char>>, ps: Seq<DbPackage>) -> Seq<DbPackage>
    decreases ps.len(),
{
    if ps.len() == 0 {
        seq![]
    } else {
        let rest = missing_from(names, ps.drop_last());
        if last_index(names, ps.last().name@) is None {
            rest.push(ps.last())
        } else {
            rest
        }
    }
}

/// The packages of `new`, in order, whose name is among the `old` ones with
/// another version than the last `old` package of that name; each paired
/// with that `old` package.
pub open spec fn changed_pairs(old: Seq<DbPackage>, new: Seq<DbPackage>) -> Seq<(DbPackage, DbPackage)>
    decreases new.len(),
{
    if new.len() == 0 {
        seq![]
    } else {
        let rest = changed_pairs(old, new.drop_last());
        let p = new.last();
        match last_index(db_names(old), p.name@) {
            Some(j) => if old[j].version@ != p.version@ {
                rest.push((old[j], p))
            } else {
                rest
            },
            None => rest,
        }
    }
}

/// A stored size as a size in bytes.
pub open spec fn size_u64(o: Option<i64>) -> Option<u64> {
    match o {
        Some(s) => Some(s as u64),
        None => None,
    }
}

/// A text as an optional text.
pub open spec fn some_text(s: String) -> Option<Seq<char>> {
    Some(s@)
}

/// The view of an optional text.
pub open spec fn text_view(o: Option<String>) -> Option<Seq<char>> {
    match o {
        Some(s) => Some(s@),
        None => None,
    }
}

/// `e` reports package `p` as added.
pub open spec fn added_entry(e: DiffEntry, p: DbPackage) -> bool {
    &&& e.change == DiffChange::Added
    &&& e.name@ == p.name@
    &&& text_view(e.old_version) is None
    &&& text_view(e.new_version) == some_text(p.version)
    &&& e.old_size is None
    &&& e.new_size == size_u64(p.installed_size)
}

/// `e` reports package `p` as removed.
pub open spec fn removed_entry(e: DiffEntry, p: DbPackage) -> bool {
    &&& e.change == DiffChange::Removed
    &&& e.name@ == p.name@
    &&& text_view(e.old_version) == some_text(p.version)
    &&& text_view(e.new_version) is None
    &&& e.old_size == size_u64(p.installed_size)
    &&& e.new_size is None
}

/// `e` reports that package `o` became package `n`.
pub open spec fn changed_entry(e: DiffEntry, o: DbPackage, n: DbPackage) -> bool {
    &&& e.change == DiffChange::Upgraded
    &&& e.name@ == n.name@
    &&& text_view(e.old_version) == some_text(o.version)
    &&& text_view(e.new_version) == some_text(n.version)
    &&& e.old_size == size_u64(o.installed_size)
    &&& e.new_size == size_u64(n.installed_size)
}

/// What a comparison of `old` with `new` reports: the `new` packages whose
/// name `old` lacks, as added; the `old` packages whose name `new` lacks, as
/// removed; and the `new` packages whose version differs from the last
/// `old` package of their name, as changed; each in the order of its list.
pub open spec fn diff_of(old: Seq<DbPackage>, new: Seq<DbPackage>, d: DiffResult) -> bool {
    let added = missing_from(db_names(old), new);
    let removed = missing_from(db_names(new), old);
    let changed = changed_pairs(old, new);
    &&& d.added@.len() == added.len()
    &&& forall|i: int| 0 <= i < added.len() ==> added_entry(#[trigger] d.added@[i], added[i])
    &&& d.removed@.len() == removed.len()
    &&& forall|i: int| 0 <= i < removed.len() ==> removed_entry(#[trigger] d.removed@[i], removed[i])
    &&& d.changed@.len() == changed.len()
    &&& forall|i: int|
        0 <= i < changed.len() ==> changed_entry(#[trigger] d.changed@[i], changed[i].0, changed[i].1)
}

/// The names of some stored packages.
fn names_of(ps: &Vec<DbPackage>) -> (r: Vec<Vec<char>>)
    ensures
        views(r@) == db_names(ps@),
{
    let mut r: Vec<Vec<char>> = Vec::new();
    let mut i: usize = 0;
    while i < ps.len()
        invariant
            i <= ps.len(),
            views(r@) == db_names(ps@).take(i as int),
        decreases ps.len() - i,
    {
        let ghost prev = views(r@);
        r.push(chars_of(ps[i].name.as_str()));
        assert(views(r@) =~= prev.push(ps@[i as int].name@));
        assert(db_names(ps@).take(i + 1) =~= db_names(ps@).take(i as int).push(ps@[i as int].name@));
        i += 1;
    }
    assert(db_names(ps@).take(ps.len() as int) =~= db_names(ps@));
    r
}

/// A stored size as a size in bytes.
fn size_of(o: Option<i64>) -> (r: Option<u64>)
    ensures
        r == size_u64(o),
{
    match o {
        Some(s) => Some(s as u64),
        None => None,
    }
}

/// The packages of `ps` whose name `names` lacks, as added or removed
/// entries.
fn entries_missing(names: &Vec<Vec<char>>, ps: &Vec<DbPackage>, added: bool) -> (r: Vec<DiffEntry>)
    ensures
        r@.len() == missing_from(views(names@), ps@).len(),
        forall|i: int|
            0 <= i < r@.len() ==> if added {
                added_entry(#[trigger] r@[i], missing_from(views(names@), ps@)[i])
            } else {
                removed_entry(#[trigger] r@[i], missing_from(views(names@), ps@)[i])
            },
{
    let ghost nv = views(names@);
    let mut r: Vec<DiffEntry> = Vec::new();
    let mut k: usize = 0;
    while k < ps.len()
        invariant
            k <= ps.len(),
            nv == views(names@),
            r@.len() == missing_from(nv, ps@.take(k as int)).len(),
            forall|i: int|
                0 <= i < r@.len() ==> if added {
                    added_entry(#[trigger] r@[i], missing_from(nv, ps@.take(k as int))[i])
                } else {
                    removed_entry(#[trigger] r@[i], missing_from(nv, ps@.take(k as int))[i])
                },
        decreases ps.len() - k,
    {
        let ghost pre = ps@.take(k as int);
        let ghost pre1 = ps@.take(k + 1);
        assert(pre1.drop_last() =~= pre);
        assert(pre1.last() == ps@[k as int]);
        let p = &ps[k];
        if find_last(names, chars_of(p.name.as_str()).as_slice()).is_none() {
            let e = if added {
                DiffEntry {
                    change: DiffChange::Added,
                    name: p.name.clone(),
                    old_version: None,
                    new_version: Some(p.version.clone()),
                    old_size: None,
                    new_size: size_of(p.installed_size),
                }
            } else {
                DiffEntry {
                    change: DiffChange::Removed,
                    name: p.name.clone(),
                    old_version: Some(p.version.clone()),
                    new_version: None,
                    old_size: size_of(p.installed_size),
                    new_size: None,
                }
            };
            let ghost prev = r@;
            r.push(e);
            assert(missing_from(nv, pre1) == missing_from(nv, pre).push(ps@[k as int]));
            assert forall|i: int| 0 <= i < r@.len() implies if added {
                added_entry(#[trigger] r@[i], missing_from(nv, pre1)[i])
            } else {
                removed_entry(#[trigger] r@[i], missing_from(nv, pre1)[i])
            } by {
                if i < prev.len() {
                    assert(r@[i] == prev[i]);
                }
            }
        }
        k += 1;
    }
    assert(ps@.take(ps.len() as int) =~= ps@);
    r
}

/// The packages of `new` whose version differs from the last `old` package
/// of their name, as changed entries.
fn entries_changed(old: &Vec<DbPackage>, old_names: &Vec<Vec<char>>, new: &Vec<DbPackage>) -> (r: Vec<DiffEntry>)
    requires
        views(old_names@) == db_names(old@),
    ensures
        r@.len() == changed_pairs(old@, new@).len(),
        forall|i: int|
            0 <= i < r@.len() ==> changed_entry(
                #[trigger] r@[i],
                changed_pairs(old@, new@)[i].0,
                changed_pairs(old@, new@)[i].1,
            ),
{
    let mut r: Vec<DiffEntry> = Vec::new();
    let mut k: usize = 0;
    while k < new.len()
        invariant
            k <= new.len(),
            views(old_names@) == db_names(old@),
            r@.len() == changed_pairs(old@, new@.take(k as int)).len(),
            forall|i: int|
                0 <= i < r@.len() ==> changed_entry(
                    #[trigger] r@[i],
                    changed_pairs(old@, new@.take(k as int))[i].0,
                    changed_pairs(old@, new@.take(k as int))[i].1,
                ),
        decreases new.len() - k,
    {
        let ghost pre = new@.take(k as int);
        let ghost pre1 = new@.take(k + 1);
        assert(pre1.drop_last() =~= pre);
        assert(pre1.last() == new@[k as int]);
        let p = &new[k];
        match find_last(old_names, chars_of(p.name.as_str()).as_slice()) {
            Some(j) => {
                proof {
                    lemma_last_index_range(db_names(old@), p.name@);
                }
                let o = &old[j];
                if !chars_eq(chars_of(o.version.as_str()).as_slice(), chars_of(p.version.as_str()).as_slice()) {
                    let e = DiffEntry {
                        change: DiffChange::Upgraded,
                        name: p.name.clone(),
                        old_version: Some(o.version.clone()),
                        new_version: Some(p.version.clone()),
                        old_size: size_of(o.installed_size),
                        new_size: size_of(p.installed_size),
                    };
                    let ghost prev = r@;
                    r.push(e);
                    assert(changed_pairs(old@, pre1) == changed_pairs(old@, pre).push((old@[j as int], new@[k as int])));
                    assert forall|i: int| 0 <= i < r@.len() implies changed_entry(
                        #[trigger] r@[i],
                        changed_pairs(old@, pre1)[i].0,
                        changed_pairs(old@, pre1)[i].1,
                    ) by {
                        if i < prev.len() {
                            assert(r@[i] == prev[i]);
                        }
                    }
                }
            },
            None => {},
        }
        k += 1;
    }
    assert(new@.take(new.len() as int) =~= new@);
    r
}

/// Compares the packages of an older analysis with those of a newer one.
pub fn compute_diff(old_id: String, new_id: String, old: &Vec<DbPackage>, new: &Vec<DbPackage>) -> (r: DiffResult)
    ensures
        r.old_analysis_id == old_id,
        r.new_analysis_id == new_id,
        diff_of(old@, new@, r),
{
    let old_names = names_of(old);
    let new_names = names_of(new);
    let added = entries_missing(&old_names, new, true);
    let changed = entries_changed(old, &old_names, new);
    let removed = entries_missing(&new_names, old, false);
    DiffResult { old_analysis_id: old_id, new_analysis_id: new_id, added, removed, changed }
}

proof fn lemma_all_present(ps: Seq<DbPackage>, names: Seq<Seq<char>>)
    requires
        forall|i: int| 0 <= i < ps.len() ==> names.contains(#[trigger] ps[i].name@),
    ensures
        missing_from(names, ps).len() == 0,
    decreases ps.len(),
{
    if ps.len() > 0 {
        let n = ps.last().name@;
        assert(names.contains(ps[ps.len() - 1].name@));
        let k = choose|k: int| 0 <= k < names.len() && names[k] == n;
        lemma_last_index_found(names, n, k);
        lemma_all_present(ps.drop_last(), names);
    }
}

proof fn lemma_none_changed(ps: Seq<DbPackage>, n: int)
    requires
        0 <= n <= ps.len(),
        forall|i: int, j: int| 0 <= i < j < ps.len() ==> ps[i].name@ != ps[j].name@,
    ensures
        changed_pairs(ps, ps.take(n)).len() == 0,
    decreases n,
{
    if n > 0 {
        let pre = ps.take(n);
        assert(pre.drop_last() =~= ps.take(n - 1));
        assert(pre.last() == ps[n - 1]);
        assert(db_names(ps)[n - 1] == ps[n - 1].name@);
        lemma_last_index_found(db_names(ps), ps[n - 1].name@, n - 1);
        lemma_none_changed(ps, n - 1);
    }
}

/// Comparing an analysis whose package names are all different with
/// itself reports nothing added, removed or changed.
pub proof fn lemma_diff_with_itself(ps: Seq<DbPackage>, d: DiffResult)
    requires
        forall|i: int, j: int| 0 <= i < j < ps.len() ==> ps[i].name@ != ps[j].name@,
        diff_of(ps, ps, d),
    ensures
        d.added@.len() == 0,
        d.removed@.len() == 0,
        d.changed@.len() == 0,
{
    assert forall|i: int| 0 <= i < ps.len() implies db_names(ps).contains(#[trigger] ps[i].name@) by {
        assert(db_names(ps)[i] == ps[i].name@);
    }
    lemma_all_present(ps, db_names(ps));
    lemma_none_changed(ps, ps.len() as int);
    assert(ps.take(ps.len() as int) =~= ps);
}

/// What a comparison of `a` with `b` reports as added is what a
/// comparison of `b` with `a` reports as removed: the same packages, in the
/// same order, with the new version of one the old version of the other.
pub proof fn lemma_added_mirrors_removed(a: Seq<DbPackage>, b: Seq<DbPackage>, d1: DiffResult, d2: DiffResult)
    requires
        diff_of(a, b, d1),
        diff_of(b, a, d2),
    ensures
        d1.added@.len() == d2.removed@.len(),
        forall|i: int|
            0 <= i < d1.added@.len() ==> (#[trigger] d1.added@[i]).name@ == d2.removed@[i].name@
                && text_view(d1.added@[i].new_version) == text_view(d2.removed@[i].old_version)
                && d1.added@[i].new_size == d2.removed@[i].old_size,
{
}

} // verus!
