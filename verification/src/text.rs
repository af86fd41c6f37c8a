//! Character-level text handling: trimming, searching, splitting and
//! tokenising, stated over `Seq<char>` and carried out on `&[char]`.
use vstd::prelude::*;

verus! {

/// Unicode `White_Space`: the characters that `char::is_whitespace` accepts.
pub open spec fn is_ws(c: char) -> bool {
    let u = c as u32;
    ||| u == 0x09 || u == 0x0A || u == 0x0B || u == 0x0C || u == 0x0D || u == 0x20
    ||| u == 0x85 || u == 0xA0 || u == 0x1680
    ||| 0x2000 <= u && u <= 0x200A
    ||| u == 0x2028 || u == 0x2029 || u == 0x202F || u == 0x205F || u == 0x3000
}

/// The characters that a strip removes: white space, or double quotes.
pub open spec fn is_strip_char(c: char, quotes: bool) -> bool {
    if quotes {
        c == '"'
    } else {
        is_ws(c)
    }
}

/// `s` without its leading strip characters.
pub open spec fn strip_lead(s: Seq<char>, quotes: bool) -> Seq<char>
    decreases s.len(),
{
    if s.len() > 0 && is_strip_char(s[0], quotes) {
        strip_lead(s.drop_first(), quotes)
    } else {
        s
    }
}

/// `s` without its trailing strip characters.
pub open spec fn strip_trail(s: Seq<char>, quotes: bool) -> Seq<char>
    decreases s.len(),
{
    if s.len() > 0 && is_strip_char(s.last(), quotes) {
        strip_trail(s.drop_last(), quotes)
    } else {
        s
    }
}

/// `str::trim`: `s` without leading and trailing white space.
pub open spec fn trim(s: Seq<char>) -> Seq<char> {
    strip_trail(strip_lead(s, false), false)
}

/// `str::trim_matches('"')`: `s` without leading and trailing double quotes.
pub open spec fn trim_quotes(s: Seq<char>) -> Seq<char> {
    strip_trail(strip_lead(s, true), true)
}

/// `p` occurs in `s` starting at index `i`.
pub open spec fn occurs_at(s: Seq<char>, p: Seq<char>, i: int) -> bool {
    0 <= i && i + p.len() <= s.len() && s.subrange(i, i + p.len()) == p
}

/// The first index at or after `i` where `p` occurs in `s`.
pub open spec fn find_from(s: Seq<char>, p: Seq<char>, i: int) -> Option<int>
    decreases s.len() - i,
{
    if i < 0 || i + p.len() > s.len() {
        None
    } else if occurs_at(s, p, i) {
        Some(i)
    } else if i >= s.len() {
        None
    } else {
        find_from(s, p, i + 1)
    }
}

/// `str::find`: the first index where `p` occurs in `s`.
pub open spec fn find(s: Seq<char>, p: Seq<char>) -> Option<int> {
    find_from(s, p, 0)
}

/// `str::contains`.
pub open spec fn contains(s: Seq<char>, p: Seq<char>) -> bool {
    find(s, p) is Some
}

/// `str::starts_with`.
pub open spec fn starts_with(s: Seq<char>, p: Seq<char>) -> bool {
    occurs_at(s, p, 0)
}

/// `str::ends_with`.
pub open spec fn ends_with(s: Seq<char>, p: Seq<char>) -> bool {
    p.len() <= s.len() && occurs_at(s, p, s.len() - p.len())
}

/// The pieces of `s[start..]` between the occurrences of `sep` found by a
/// left-to-right scan that has reached index `i`.
pub open spec fn split_scan(s: Seq<char>, sep: Seq<char>, start: int, i: int) -> Seq<Seq<char>>
    decreases s.len() - i,
{
    if sep.len() == 0 || start < 0 || i < start || i + sep.len() > s.len() {
        seq![s.subrange(start, s.len() as int)]
    } else if occurs_at(s, sep, i) {
        seq![s.subrange(start, i)] + split_scan(s, sep, i + sep.len(), i + sep.len())
    } else {
        split_scan(s, sep, start, i + 1)
    }
}

/// `str::split` by a non-empty separator: the pieces between its
/// non-overlapping occurrences, left to right.
pub open spec fn split(s: Seq<char>, sep: Seq<char>) -> Seq<Seq<char>> {
    split_scan(s, sep, 0, 0)
}

/// How many non-overlapping occurrences of `p` a left-to-right scan finds.
pub open spec fn count_occurrences(s: Seq<char>, p: Seq<char>) -> int {
    split(s, p).len() - 1
}

/// The white-space separated words of `s[i..]`; `start` is where the word
/// being scanned began, or -1 between words.
pub open spec fn words_scan(s: Seq<char>, i: int, start: int) -> Seq<Seq<char>>
    decreases s.len() - i,
{
    if i < 0 || i >= s.len() {
        if 0 <= start {
            seq![s.subrange(start, s.len() as int)]
        } else {
            seq![]
        }
    } else if is_ws(s[i]) {
        if 0 <= start {
            seq![s.subrange(start, i)] + words_scan(s, i + 1, -1)
        } else {
            words_scan(s, i + 1, -1)
        }
    } else if 0 <= start {
        words_scan(s, i + 1, start)
    } else {
        words_scan(s, i + 1, i)
    }
}

/// `str::split_whitespace`.
pub open spec fn words(s: Seq<char>) -> Seq<Seq<char>> {
    words_scan(s, 0, -1)
}

/// A line as `str::lines` yields it: without a final carriage return.
pub open spec fn drop_cr(l: Seq<char>) -> Seq<char> {
    if l.len() > 0 && l.last() == '\r' {
        l.drop_last()
    } else {
        l
    }
}

/// `str::lines`: the pieces between line feeds, a carriage return before a
/// line feed removed, and no empty last line after a final line feed.
pub open spec fn lines(s: Seq<char>) -> Seq<Seq<char>> {
    let p = split(s, seq!['\n']);
    let body = p.take(p.len() - 1).map_values(|l: Seq<char>| drop_cr(l));
    if p.last().len() == 0 {
        body
    } else {
        body.push(p.last())
    }
}

/// The contents of a sequence of character vectors.
pub open spec fn views(v: Seq<Vec<char>>) -> Seq<Seq<char>> {
    v.map_values(|x: Vec<char>| x@)
}

/// The contents of a sequence of texts.
pub open spec fn texts(v: Seq<String>) -> Seq<Seq<char>> {
    v.map_values(|x: String| x@)
}

/// ASCII lower case of one character.
pub open spec fn ascii_lower(c: char) -> char {
    if 'A' <= c && c <= 'Z' {
        ((c as u32) + 32) as char
    } else {
        c
    }
}

/// `str::eq_ignore_ascii_case`.
pub open spec fn eq_ignore_ascii_case(a: Seq<char>, b: Seq<char>) -> bool {
    a.len() == b.len() && forall|i: int| 0 <= i < a.len() ==> ascii_lower(a[i]) == ascii_lower(b[i])
}

/// What `str::to_lowercase` gives for a text (Unicode lower case mapping).
pub uninterp spec fn lowercase(s: Seq<char>) -> Seq<char>;

/// Calls `str::to_lowercase`; its result is named `lowercase`. Text made of
/// ASCII characters is lowered character by character (`A`–`Z` to `a`–`z`),
/// as the Unicode lower-case mapping does for ASCII.
#[verifier::external_body]
pub(crate) fn to_lowercase(s: &str) -> (r: String)
    ensures
        r@ == lowercase(s@),
        (forall|i: int| 0 <= i < s@.len() ==> (s@[i] as u32) < 128) ==> r@ == s@.map_values(
            |c: char| ascii_lower(c),
        ),
{
    s.to_lowercase()
}

/// Calls `String::push`: appends one character.
#[verifier::external_body]
fn push_char(s: &mut String, c: char)
    ensures
        final(s)@ == old(s)@.push(c),
{
    s.push(c);
}

/// `char::is_whitespace`.
pub fn is_whitespace(c: char) -> (b: bool)
    ensures
        b == is_ws(c),
{
    let u = c as u32;
    u == 0x09 || u == 0x0A || u == 0x0B || u == 0x0C || u == 0x0D || u == 0x20 || u == 0x85 || u
        == 0xA0 || u == 0x1680 || (0x2000 <= u && u <= 0x200A) || u == 0x2028 || u == 0x2029 || u
        == 0x202F || u == 0x205F || u == 0x3000
}

fn is_strip(c: char, quotes: bool) -> (b: bool)
    ensures
        b == is_strip_char(c, quotes),
{
    if quotes {
        c == '"'
    } else {
        is_whitespace(c)
    }
}

/// The characters of a text.
pub fn chars_of(s: &str) -> (v: Vec<char>)
    ensures
        v@ == s@,
{
    let mut v: Vec<char> = Vec::new();
    let mut it = s.chars();
    loop
        invariant
            v@ + vstd::std_specs::iter::IteratorSpec::remaining(&it) == s@,
        ensures
            v@ == s@,
        decreases s@.len() - v@.len(),
    {
        match it.next() {
            Some(c) => {
                v.push(c);
            },
            None => {
                assert(v@ =~= s@);
                break ;
            },
        }
    }
    v
}

/// The text made of some characters.
pub fn string_of(v: &[char]) -> (s: String)
    ensures
        s@ == v@,
{
    let mut s = String::new();
    let mut i: usize = 0;
    while i < v.len()
        invariant
            i <= v.len(),
            s@ == v@.subrange(0, i as int),
        decreases v.len() - i,
    {
        push_char(&mut s, v[i]);
        i += 1;
        assert(s@ =~= v@.subrange(0, i as int));
    }
    assert(v@.subrange(0, v.len() as int) =~= v@);
    s
}

/// A copy of `s[a..b]`.
pub fn copy_range(s: &[char], a: usize, b: usize) -> (v: Vec<char>)
    requires
        a <= b <= s.len(),
    ensures
        v@ == s@.subrange(a as int, b as int),
{
    let mut v: Vec<char> = Vec::new();
    let mut i = a;
    while i < b
        invariant
            a <= i <= b <= s.len(),
            v@ == s@.subrange(a as int, i as int),
        decreases b - i,
    {
        v.push(s[i]);
        i += 1;
        assert(v@ =~= s@.subrange(a as int, i as int));
    }
    v
}

/// Character-wise equality.
pub fn chars_eq(a: &[char], b: &[char]) -> (r: bool)
    ensures
        r == (a@ == b@),
{
    if a.len() != b.len() {
        return false;
    }
    let mut i: usize = 0;
    while i < a.len()
        invariant
            i <= a.len() == b.len(),
            forall|k: int| 0 <= k < i ==> a@[k] == b@[k],
        decreases a.len() - i,
    {
        if a[i] != b[i] {
            return false;
        }
        i += 1;
    }
    assert(a@ =~= b@);
    true
}

proof fn lemma_strip_lead_step(s: Seq<char>, i: int, quotes: bool)
    requires
        0 <= i < s.len(),
        is_strip_char(s[i], quotes),
    ensures
        strip_lead(s.subrange(i, s.len() as int), quotes) == strip_lead(
            s.subrange(i + 1, s.len() as int),
            quotes,
        ),
{
    assert(s.subrange(i, s.len() as int).drop_first() =~= s.subrange(i + 1, s.len() as int));
}

proof fn lemma_strip_trail_step(s: Seq<char>, i: int, j: int, quotes: bool)
    requires
        0 <= i < j <= s.len(),
        is_strip_char(s[j - 1], quotes),
    ensures
        strip_trail(s.subrange(i, j), quotes) == strip_trail(s.subrange(i, j - 1), quotes),
{
    assert(s.subrange(i, j).drop_last() =~= s.subrange(i, j - 1));
}

/// `s` trimmed of white space (`quotes == false`) or of double quotes.
pub fn strip(s: &[char], quotes: bool) -> (r: Vec<char>)
    ensures
        r@ == strip_trail(strip_lead(s@, quotes), quotes),
{
    let n = s.len();
    let mut i: usize = 0;
    assert(s@.subrange(0, n as int) =~= s@);
    while i < n && is_strip(s[i], quotes)
        invariant
            i <= n == s.len(),
            strip_lead(s@.subrange(i as int, n as int), quotes) == strip_lead(s@, quotes),
        decreases n - i,
    {
        proof {
            lemma_strip_lead_step(s@, i as int, quotes);
        }
        i += 1;
    }
    assert(strip_lead(s@, quotes) == s@.subrange(i as int, n as int));
    let mut j: usize = n;
    while j > i && is_strip(s[j - 1], quotes)
        invariant
            i <= j <= n == s.len(),
            strip_lead(s@, quotes) == s@.subrange(i as int, n as int),
            strip_trail(s@.subrange(i as int, j as int), quotes) == strip_trail(
                strip_lead(s@, quotes),
                quotes,
            ),
        decreases j - i,
    {
        proof {
            lemma_strip_trail_step(s@, i as int, j as int, quotes);
        }
        j -= 1;
    }
    copy_range(s, i, j)
}

/// `str::trim`.
pub fn trim_chars(s: &[char]) -> (r: Vec<char>)
    ensures
        r@ == trim(s@),
{
    strip(s, false)
}

/// Whether `p` occurs in `s` at index `i`.
pub fn occurs(s: &[char], p: &[char], i: usize) -> (r: bool)
    ensures
        r == occurs_at(s@, p@, i as int),
{
    if i > s.len() || p.len() > s.len() - i {
        return false;
    }
    let mut k: usize = 0;
    while k < p.len()
        invariant
            i + p.len() <= s.len(),
            k <= p.len(),
            forall|m: int| 0 <= m < k ==> s@[i + m] == p@[m],
        decreases p.len() - k,
    {
        if s[i + k] != p[k] {
            assert(s@.subrange(i as int, i + p.len())[k as int] != p@[k as int]);
            return false;
        }
        k += 1;
    }
    assert(s@.subrange(i as int, i + p.len()) =~= p@);
    true
}

/// `str::find` from index `from` on.
pub fn find_chars(s: &[char], p: &[char], from: usize) -> (r: Option<usize>)
    ensures
        r matches Some(j) ==> from <= j && j + p@.len() <= s@.len(),
        match r {
            Some(j) => find_from(s@, p@, from as int) == Some(j as int),
            None => find_from(s@, p@, from as int) is None,
        },
{
    let mut i = from;
    while i <= s.len()
        invariant
            from <= i,
            find_from(s@, p@, i as int) == find_from(s@, p@, from as int),
        decreases s.len() + 1 - i,
    {
        if p.len() > s.len() - i {
            return None;
        }
        if occurs(s, p, i) {
            return Some(i);
        }
        if i == s.len() {
            return None;
        }
        i += 1;
    }
    None
}

/// `str::contains`.
pub fn contains_chars(s: &[char], p: &[char]) -> (r: bool)
    ensures
        r == contains(s@, p@),
{
    find_chars(s, p, 0).is_some()
}

/// `str::starts_with`.
pub fn starts_with_chars(s: &[char], p: &[char]) -> (r: bool)
    ensures
        r == starts_with(s@, p@),
{
    occurs(s, p, 0)
}

/// `str::ends_with`.
pub fn ends_with_chars(s: &[char], p: &[char]) -> (r: bool)
    ensures
        r == ends_with(s@, p@),
{
    if p.len() > s.len() {
        false
    } else {
        occurs(s, p, s.len() - p.len())
    }
}

/// `str::split` by a non-empty separator.
pub fn split_chars(s: &[char], sep: &[char]) -> (r: Vec<Vec<char>>)
    requires
        sep.len() > 0,
    ensures
        views(r@) == split(s@, sep@),
{
    let mut r: Vec<Vec<char>> = Vec::new();
    let mut start: usize = 0;
    let mut i: usize = 0;
    while i <= s.len() && sep.len() <= s.len() - i
        invariant
            start <= i <= s.len(),
            sep.len() > 0,
            views(r@) + split_scan(s@, sep@, start as int, i as int) == split(s@, sep@),
        decreases s.len() - i,
    {
        if occurs(s, sep, i) {
            let piece = copy_range(s, start, i);
            let ghost prev = views(r@);
            let ghost pv = s@.subrange(start as int, i as int);
            let ghost next = i + sep.len();
            assert(split_scan(s@, sep@, start as int, i as int) == seq![pv] + split_scan(
                s@,
                sep@,
                next,
                next,
            ));
            r.push(piece);
            assert(views(r@) =~= prev.push(pv));
            i = i + sep.len();
            start = i;
            assert(views(r@) + split_scan(s@, sep@, start as int, i as int) =~= prev + (seq![pv]
                + split_scan(s@, sep@, start as int, i as int)));
        } else {
            i += 1;
        }
    }
    let piece = copy_range(s, start, s.len());
    let ghost prev = views(r@);
    assert(split_scan(s@, sep@, start as int, i as int) == seq![
        s@.subrange(start as int, s.len() as int),
    ]);
    r.push(piece);
    assert(views(r@) =~= prev.push(s@.subrange(start as int, s.len() as int)));
    assert(views(r@) =~= prev + split_scan(s@, sep@, start as int, i as int));
    r
}

/// `str::split_whitespace`.
pub fn words_chars(s: &[char]) -> (r: Vec<Vec<char>>)
    ensures
        views(r@) == words(s@),
{
    let mut r: Vec<Vec<char>> = Vec::new();
    let mut in_word = false;
    let mut start: usize = 0;
    let mut i: usize = 0;
    while i < s.len()
        invariant
            i <= s.len(),
            in_word ==> start < i,
            views(r@) + words_scan(s@, i as int, if in_word { start as int } else { -1 }) == words(
                s@,
            ),
        decreases s.len() - i,
    {
        let ghost prev = views(r@);
        if is_whitespace(s[i]) {
            if in_word {
                let ghost pv = s@.subrange(start as int, i as int);
                let piece = copy_range(s, start, i);
                r.push(piece);
                assert(views(r@) =~= prev.push(pv));
                assert(views(r@) + words_scan(s@, i + 1, -1) =~= prev + (seq![pv] + words_scan(
                    s@,
                    i + 1,
                    -1,
                )));
            }
            in_word = false;
        } else if !in_word {
            in_word = true;
            start = i;
        }
        i += 1;
    }
    if in_word {
        let ghost prev = views(r@);
        let ghost pv = s@.subrange(start as int, s.len() as int);
        let piece = copy_range(s, start, s.len());
        r.push(piece);
        assert(views(r@) =~= prev.push(pv));
        assert(views(r@) =~= prev + words_scan(s@, i as int, start as int));
    } else {
        assert(views(r@) =~= views(r@) + words_scan(s@, i as int, -1));
    }
    r
}

/// A line without a final carriage return.
fn drop_cr_chars(l: Vec<char>) -> (r: Vec<char>)
    ensures
        r@ == drop_cr(l@),
{
    let ghost l0 = l@;
    let mut l = l;
    if l.len() > 0 && l[l.len() - 1] == '\r' {
        l.pop();
        assert(l@ =~= l0.drop_last());
    }
    l
}

/// `str::lines`.
pub fn lines_chars(s: &[char]) -> (r: Vec<Vec<char>>)
    ensures
        views(r@) == lines(s@),
{
    let nl = vec!['\n'];
    let mut pieces = split_chars(s, nl.as_slice());
    assert(nl@ =~= seq!['\n']);
    let ghost p = split(s@, seq!['\n']);
    proof {
        lemma_split_len(s@, seq!['\n'], 0, 0);
    }
    let last = pieces.pop().unwrap();
    assert(last@ == p.last());
    let ghost body = p.take(p.len() - 1);
    assert(views(pieces@) =~= body);
    let mut r: Vec<Vec<char>> = Vec::new();
    let mut k: usize = 0;
    while k < pieces.len()
        invariant
            k <= pieces.len(),
            views(pieces@) == body,
            views(r@) == body.take(k as int).map_values(|l: Seq<char>| drop_cr(l)),
        decreases pieces.len() - k,
    {
        let l = copy_range(pieces[k].as_slice(), 0, pieces[k].len());
        assert(l@ =~= body[k as int]);
        let ghost prev = views(r@);
        r.push(drop_cr_chars(l));
        assert(body.take(k + 1).map_values(|l: Seq<char>| drop_cr(l)) =~= prev.push(
            drop_cr(body[k as int]),
        ));
        k += 1;
        assert(views(r@) =~= prev.push(drop_cr(body[k - 1])));
    }
    assert(body.take(k as int) =~= body);
    if last.len() > 0 {
        let ghost prev = views(r@);
        r.push(last);
        assert(views(r@) =~= prev.push(p.last()));
    }
    r
}

pub proof fn lemma_split_len(s: Seq<char>, sep: Seq<char>, start: int, i: int)
    ensures
        split_scan(s, sep, start, i).len() > 0,
    decreases s.len() - i,
{
    if sep.len() == 0 || start < 0 || i < start || i + sep.len() > s.len() {
    } else if occurs_at(s, sep, i) {
        lemma_split_len(s, sep, i + sep.len(), i + sep.len());
    } else {
        lemma_split_len(s, sep, start, i + 1);
    }
}

/// `str::eq_ignore_ascii_case`.
pub fn eq_ignore_case_chars(a: &[char], b: &[char]) -> (r: bool)
    ensures
        r == eq_ignore_ascii_case(a@, b@),
{
    if a.len() != b.len() {
        return false;
    }
    let mut i: usize = 0;
    while i < a.len()
        invariant
            i <= a.len() == b.len(),
            forall|k: int| 0 <= k < i ==> ascii_lower(a@[k]) == ascii_lower(b@[k]),
        decreases a.len() - i,
    {
        if lower_ascii(a[i]) != lower_ascii(b[i]) {
            return false;
        }
        i += 1;
    }
    true
}

fn lower_ascii(c: char) -> (r: char)
    ensures
        r == ascii_lower(c),
{
    if 'A' <= c && c <= 'Z' {
        ((c as u8) + 32) as char
    } else {
        c
    }
}


/// Appends some characters.
pub fn append_chars(out: &mut Vec<char>, s: &[char])
    ensures
        final(out)@ == old(out)@ + s@,
{
    let mut i: usize = 0;
    let ghost o = out@;
    while i < s.len()
        invariant
            i <= s.len(),
            out@ == o + s@.subrange(0, i as int),
        decreases s.len() - i,
    {
        out.push(s[i]);
        i += 1;
        assert(out@ =~= o + s@.subrange(0, i as int));
    }
    assert(s@.subrange(0, s.len() as int) =~= s@);
}

} // verus!
