//! File paths: the parts of a path that decide ecosystems and project names.
use vstd::prelude::*;
use crate::text::{chars_of, string_of};

verus! {

/// What `Path::parent` gives for a path (`None` for a root or an empty path).
pub uninterp spec fn path_parent_of(p: Seq<char>) -> Option<Seq<char>>;

/// What `Path::file_name` gives for a path (`None` when it ends in `..`).
pub uninterp spec fn file_name_of(p: Seq<char>) -> Option<Seq<char>>;

/// The index of the last `.` in a file name.
pub open spec fn last_dot(n: Seq<char>) -> Option<int>
    decreases n.len(),
{
    if n.len() == 0 {
        None
    } else if n.last() == '.' {
        Some(n.len() - 1)
    } else {
        last_dot(n.drop_last())
    }
}

/// The extension of a file name: what follows its last `.`; none when it
/// has no `.` or only a leading one.
pub open spec fn name_extension(n: Seq<char>) -> Option<Seq<char>> {
    match last_dot(n) {
        Some(i) => if i > 0 {
            Some(n.skip(i + 1))
        } else {
            None
        },
        None => None,
    }
}

/// What `Path::extension` gives for a path: the extension of its file
/// name, none without a file name.
pub open spec fn extension_of(p: Seq<char>) -> Option<Seq<char>> {
    match file_name_of(p) {
        Some(n) => name_extension(n),
        None => None,
    }
}

/// Calls `Path::parent`; its result is named `path_parent_of`.
#[verifier::external_body]
pub(crate) fn path_parent(p: &str) -> (r: Option<String>)
    ensures
        match r {
            Some(q) => path_parent_of(p@) == Some(q@),
            None => path_parent_of(p@) is None,
        },
{
    std::path::Path::new(p).parent().and_then(|q| q.to_str()).map(|q| q.to_string())
}

/// Calls `Path::file_name`; its result is named `file_name_of`.
#[verifier::external_body]
pub(crate) fn file_name(p: &str) -> (r: Option<String>)
    ensures
        match r {
            Some(q) => file_name_of(p@) == Some(q@),
            None => file_name_of(p@) is None,
        },
{
    std::path::Path::new(p).file_name().and_then(|q| q.to_str()).map(|q| q.to_string())
}

/// Calls `Path::extension`, which its documentation gives as the part of
/// the file name after the last `.`: none without a file name, without a
/// `.`, or when the only `.` leads the name.
#[verifier::external_body]
pub(crate) fn extension(p: &str) -> (r: Option<String>)
    ensures
        match r {
            Some(q) => extension_of(p@) == Some(q@),
            None => extension_of(p@) is None,
        },
{
    std::path::Path::new(p).extension().and_then(|q| q.to_str()).map(|q| q.to_string())
}

/// A text that may be missing, `d` when it is.
pub open spec fn text_or(o: Option<Seq<char>>, d: Seq<char>) -> Seq<char> {
    match o {
        Some(s) => s,
        None => d,
    }
}

/// The name of the directory that holds a file, or "project" when there is
/// none.
pub open spec fn fallback_project_name(path: Seq<char>) -> Seq<char> {
    match path_parent_of(path) {
        Some(q) => text_or(file_name_of(q), "project"@),
        None => "project"@,
    }
}

/// The name of the directory that holds a file, or "project".
pub fn dir_name_or_project(path: &str) -> (r: String)
    ensures
        r@ == fallback_project_name(path@),
{
    match path_parent(path) {
        Some(q) => match file_name(q.as_str()) {
            Some(n) => n,
            None => string_of(chars_of("project").as_slice()),
        },
        None => string_of(chars_of("project").as_slice()),
    }
}

/// `dir` joined with a relative `name` as `Path::join` does it: a `/` in
/// between unless `dir` is empty or already ends with one.
pub open spec fn join_path(dir: Seq<char>, name: Seq<char>) -> Seq<char> {
    if dir.len() == 0 || dir.last() == '/' {
        dir + name
    } else {
        dir + seq!['/'] + name
    }
}

/// A relative `name` joined to `dir`.
pub fn join(dir: &str, name: &str) -> (r: String)
    ensures
        r@ == join_path(dir@, name@),
{
    let mut d = chars_of(dir);
    let n = chars_of(name);
    if d.len() > 0 && d[d.len() - 1] != '/' {
        d.push('/');
    }
    let ghost d1 = d@;
    let mut i: usize = 0;
    while i < n.len()
        invariant
            i <= n.len(),
            d@ == d1 + n@.subrange(0, i as int),
        decreases n.len() - i,
    {
        d.push(n[i]);
        i += 1;
        assert(d@ =~= d1 + n@.subrange(0, i as int));
    }
    assert(n@.subrange(0, n.len() as int) =~= n@);
    proof {
        if !(dir@.len() == 0 || dir@.last() == '/') {
            assert(d1 =~= dir@ + seq!['/']);
        } else {
            assert(d1 =~= dir@);
        }
    }
    string_of(d.as_slice())
}


/// Where the built web interface is looked for, in order.
pub open spec fn ui_dirs() -> Seq<Seq<char>> {
    seq!["./ui/dist"@, "../ui/dist"@, "/usr/share/deepdeps/ui"@, "/usr/local/share/deepdeps/ui"@]
}

/// Where the built web interface is looked for, in order.
pub fn ui_dir_candidates() -> (r: Vec<String>)
    ensures
        r@.len() == 4,
        forall|k: int| 0 <= k < 4 ==> (#[trigger] r@[k])@ == ui_dirs()[k],
{
    let mut r: Vec<String> = Vec::new();
    r.push(string_of(chars_of("./ui/dist").as_slice()));
    r.push(string_of(chars_of("../ui/dist").as_slice()));
    r.push(string_of(chars_of("/usr/share/deepdeps/ui").as_slice()));
    r.push(string_of(chars_of("/usr/local/share/deepdeps/ui").as_slice()));
    r
}

/// The first place from the `k`th on that holds an `index.html`
/// (`has_index[k]` tells whether the `k`th does).
pub open spec fn first_ui_dir(has_index: Seq<bool>, k: int) -> Option<int>
    decreases 4 - k,
{
    if k < 0 || k >= 4 {
        None
    } else if k < has_index.len() && has_index[k] {
        Some(k)
    } else {
        first_ui_dir(has_index, k + 1)
    }
}

/// The directory of the web interface: the first candidate that holds an
/// `index.html`, else `./ui/dist`.
pub fn find_ui_dir(has_index: &Vec<bool>) -> (r: String)
    ensures
        r@ == match first_ui_dir(has_index@, 0) {
            Some(k) => ui_dirs()[k],
            None => "./ui/dist"@,
        },
{
    let c = ui_dir_candidates();
    let mut k: usize = 0;
    while k < 4
        invariant
            k <= 4,
            c@.len() == 4,
            forall|q: int| 0 <= q < 4 ==> (#[trigger] c@[q])@ == ui_dirs()[q],
            first_ui_dir(has_index@, 0) == first_ui_dir(has_index@, k as int),
        decreases 4 - k,
    {
        if k < has_index.len() && has_index[k] {
            return string_of(chars_of(c[k].as_str()).as_slice());
        }
        k += 1;
    }
    string_of(chars_of("./ui/dist").as_slice())
}

} // verus!
