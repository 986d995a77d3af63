//! Unix path arithmetic on character sequences, following `std::path`:
//! file name, file stem, extension, `join` of a relative path, and
//! `with_extension`.
use vstd::prelude::*;
use crate::text::{lower, lower_char, ascii_lower};

verus! {

/// Length of `p` once trailing separators and trailing `.` components are
/// dropped (they are not components of the path).
pub open spec fn trim_len(p: Seq<char>) -> int
    decreases p.len(),
{
    if p.len() > 0 && p.last() == '/' {
        trim_len(p.drop_last())
    } else if p.len() >= 2 && p.last() == '.' && p[p.len() - 2] == '/' {
        trim_len(p.take(p.len() - 2))
    } else {
        p.len() as int
    }
}

/// Index of the last occurrence of `c` in `s`, or -1.
pub open spec fn last_index(s: Seq<char>, c: char) -> int
    decreases s.len(),
{
    if s.len() == 0 {
        -1
    } else if s.last() == c {
        s.len() - 1
    } else {
        last_index(s.drop_last(), c)
    }
}

/// `p` without trailing separators and trailing `.` components.
pub open spec fn trimmed(p: Seq<char>) -> Seq<char> {
    p.take(trim_len(p))
}

/// Index where the last component of `p` starts.
pub open spec fn name_start(p: Seq<char>) -> int {
    last_index(trimmed(p), '/') + 1
}

/// The text of the last component of `p`, whatever its kind.
pub open spec fn last_component(p: Seq<char>) -> Seq<char> {
    trimmed(p).subrange(name_start(p), trim_len(p))
}

/// `Path::file_name`: the last component when it is a normal one.
pub open spec fn file_name(p: Seq<char>) -> Option<Seq<char>> {
    let n = last_component(p);
    if n.len() == 0 || n == seq!['.'] || n == seq!['.', '.'] {
        None
    } else {
        Some(n)
    }
}

/// The stem of a file name: the part before the last `.`, unless that `.`
/// is the first character or absent.
pub open spec fn name_stem(n: Seq<char>) -> Seq<char> {
    let k = last_index(n, '.');
    if k <= 0 {
        n
    } else {
        n.take(k)
    }
}

/// The extension of a file name: the part after the last `.`, when that `.`
/// is not the first character.
pub open spec fn name_ext(n: Seq<char>) -> Option<Seq<char>> {
    let k = last_index(n, '.');
    if k <= 0 {
        None
    } else {
        Some(n.skip(k + 1))
    }
}

/// `Path::file_stem`.
pub open spec fn file_stem(p: Seq<char>) -> Option<Seq<char>> {
    match file_name(p) {
        Some(n) => Some(name_stem(n)),
        None => None,
    }
}

/// `Path::extension`.
pub open spec fn extension(p: Seq<char>) -> Option<Seq<char>> {
    match file_name(p) {
        Some(n) => name_ext(n),
        None => None,
    }
}

/// `Path::join` of a relative path `b` onto `a`.
pub open spec fn join(a: Seq<char>, b: Seq<char>) -> Seq<char> {
    if a.len() == 0 {
        b
    } else if a.last() == '/' {
        a + b
    } else {
        a.push('/') + b
    }
}

/// `Path::with_extension`: the path cut after its file stem, followed by
/// `.` and `ext` when `ext` is not empty; unchanged when there is no file name.
pub open spec fn with_extension(p: Seq<char>, ext: Seq<char>) -> Seq<char> {
    match file_stem(p) {
        None => p,
        Some(stem) => {
            let cut = trimmed(p).take(name_start(p) + stem.len());
            if ext.len() == 0 {
                cut
            } else {
                cut.push('.') + ext
            }
        },
    }
}

/// Whether `name` occurs in `p` as a whole component, ignoring ASCII case.
pub open spec fn component_at_ci(p: Seq<char>, name: Seq<char>, i: int) -> bool {
    &&& 0 <= i
    &&& i + name.len() <= p.len()
    &&& (i == 0 || p[i - 1] == '/')
    &&& (i + name.len() == p.len() || p[i + name.len()] == '/')
    &&& lower(p.subrange(i, i + name.len())) == lower(name)
}

/// Whether some component of `p` equals `name`, ignoring ASCII case.
pub open spec fn has_component_ci(p: Seq<char>, name: Seq<char>) -> bool {
    exists|i: int| component_at_ci(p, name, i)
}

/// Length of `v` once trailing separators and trailing `.` components are dropped.
fn trimmed_len(v: &Vec<char>) -> (l: usize)
    ensures
        l == trim_len(v@),
        l <= v.len(),
{
    let mut l = v.len();
    assert(v@.take(l as int) =~= v@);
    loop
        invariant
            l <= v.len(),
            trim_len(v@) == trim_len(v@.take(l as int)),
        decreases l,
    {
        let ghost t = v@.take(l as int);
        if l > 0 && v[l - 1] == '/' {
            assert(t.drop_last() =~= v@.take(l - 1));
            l = l - 1;
        } else if l >= 2 && v[l - 1] == '.' && v[l - 2] == '/' {
            assert(t.take(t.len() - 2) =~= v@.take(l - 2));
            l = l - 2;
        } else {
            return l;
        }
    }
}

/// Index of the last `c` among the first `end` characters of `v`, or `None`.
fn last_index_before(v: &Vec<char>, c: char, end: usize) -> (r: Option<usize>)
    requires
        end <= v.len(),
    ensures
        match r {
            Some(k) => k as int == last_index(v@.take(end as int), c),
            None => last_index(v@.take(end as int), c) == -1,
        },
{
    let mut k = end;
    loop
        invariant
            k <= end <= v.len(),
            last_index(v@.take(end as int), c) == last_index(v@.take(k as int), c),
        decreases k,
    {
        if k == 0 {
            return None;
        }
        let ghost t = v@.take(k as int);
        if v[k - 1] == c {
            return Some(k - 1);
        }
        assert(t.drop_last() =~= v@.take(k - 1));
        k = k - 1;
    }
}

/// Where the last component of `v` starts and ends.
fn component_bounds(v: &Vec<char>) -> (r: (usize, usize))
    ensures
        r.0 == name_start(v@),
        r.1 == trim_len(v@),
        r.0 <= r.1 <= v.len(),
{
    let end = trimmed_len(v);
    proof {
        lemma_trim_len_bounds(v@);
    }
    proof {
        lemma_last_index_bounds(v@.take(end as int), '/');
    }
    let start = match last_index_before(v, '/', end) {
        Some(k) => k + 1,
        None => 0,
    };
    (start, end)
}

/// `last_index` is -1 or an index of `c`.
pub proof fn lemma_last_index_bounds(s: Seq<char>, c: char)
    ensures
        -1 <= last_index(s, c) < s.len(),
        last_index(s, c) >= 0 ==> s[last_index(s, c)] == c,
        forall|j: int| last_index(s, c) < j < s.len() ==> s[j] != c,
    decreases s.len(),
{
    if s.len() > 0 && s.last() != c {
        lemma_last_index_bounds(s.drop_last(), c);
        assert forall|j: int| last_index(s, c) < j < s.len() implies s[j] != c by {
            if j < s.len() - 1 {
                assert(s[j] == s.drop_last()[j]);
            }
        }
    }
}

/// `trim_len` stays within the path.
pub proof fn lemma_trim_len_bounds(p: Seq<char>)
    ensures
        0 <= trim_len(p) <= p.len(),
    decreases p.len(),
{
    if p.len() > 0 && p.last() == '/' {
        lemma_trim_len_bounds(p.drop_last());
    } else if p.len() >= 2 && p.last() == '.' && p[p.len() - 2] == '/' {
        lemma_trim_len_bounds(p.take(p.len() - 2));
    }
}

/// The last component, and the stem inside it, lie within the trimmed path.
pub proof fn lemma_stem_fits(p: Seq<char>)
    ensures
        0 <= name_start(p) <= trim_len(p) <= p.len(),
        file_stem(p) is Some ==> name_start(p) + file_stem(p)->0.len() <= trim_len(p),
        file_name(p) is Some ==> file_name(p)->0 == trimmed(p).subrange(name_start(p), trim_len(p)),
{
    lemma_trim_len_bounds(p);
    lemma_last_index_bounds(trimmed(p), '/');
    if file_name(p) is Some {
        lemma_last_index_bounds(last_component(p), '.');
    }
}

/// The characters of `v` from `lo` up to `hi`.
fn slice_chars(v: &Vec<char>, lo: usize, hi: usize) -> (r: Vec<char>)
    requires
        lo <= hi <= v.len(),
    ensures
        r@ == v@.subrange(lo as int, hi as int),
{
    let mut r: Vec<char> = Vec::new();
    let mut i = lo;
    while i < hi
        invariant
            lo <= i <= hi <= v.len(),
            r@ == v@.subrange(lo as int, i as int),
        decreases hi - i,
    {
        r.push(v[i]);
        assert(v@.subrange(lo as int, i + 1) =~= v@.subrange(lo as int, i as int).push(v@[i as int]));
        i = i + 1;
    }
    r
}

/// The file name of the path `v`.
pub fn file_name_of(v: &Vec<char>) -> (r: Option<Vec<char>>)
    ensures
        match r {
            Some(n) => file_name(v@) == Some(n@),
            None => file_name(v@) is None,
        },
{
    let (start, end) = component_bounds(v);
    let n = slice_chars(v, start, end);
    assert(n@ =~= last_component(v@));
    if n.len() == 0 || (n.len() == 1 && n[0] == '.') || (n.len() == 2 && n[0] == '.' && n[1] == '.') {
        assert(n.len() == 1 ==> n@ =~= seq!['.']);
        assert(n.len() == 2 ==> n@ =~= seq!['.', '.']);
        None
    } else {
        assert(n@ != seq!['.'] && n@ != seq!['.', '.']) by {
            if n.len() == 1 {
                assert(n@[0] != seq!['.'][0]);
            }
            if n.len() == 2 {
                assert(n@[0] != seq!['.', '.'][0] || n@[1] != seq!['.', '.'][1]);
            }
        }
        Some(n)
    }
}

/// Splits a file name into its stem and, when there is one, its extension.
pub fn split_name(n: &Vec<char>) -> (r: (Vec<char>, Option<Vec<char>>))
    ensures
        r.0@ == name_stem(n@),
        match r.1 {
            Some(e) => name_ext(n@) == Some(e@),
            None => name_ext(n@) is None,
        },
{
    proof {
        lemma_last_index_bounds(n@, '.');
    }
    assert(n@.take(n.len() as int) =~= n@);
    match last_index_before(n, '.', n.len()) {
        Some(k) if k > 0 => {
            let stem = slice_chars(n, 0, k);
            let ext = slice_chars(n, k + 1, n.len());
            assert(stem@ =~= n@.take(k as int));
            assert(ext@ =~= n@.skip(k + 1));
            (stem, Some(ext))
        },
        _ => {
            let stem = slice_chars(n, 0, n.len());
            assert(stem@ =~= n@);
            (stem, None)
        },
    }
}

/// The file stem of the path `v`.
pub fn file_stem_of(v: &Vec<char>) -> (r: Option<Vec<char>>)
    ensures
        match r {
            Some(s) => file_stem(v@) == Some(s@),
            None => file_stem(v@) is None,
        },
{
    match file_name_of(v) {
        Some(n) => {
            let (stem, _) = split_name(&n);
            Some(stem)
        },
        None => None,
    }
}

/// The extension of the path `v`.
pub fn extension_of(v: &Vec<char>) -> (r: Option<Vec<char>>)
    ensures
        match r {
            Some(e) => extension(v@) == Some(e@),
            None => extension(v@) is None,
        },
{
    match file_name_of(v) {
        Some(n) => {
            let (_, e) = split_name(&n);
            e
        },
        None => None,
    }
}

/// `a` joined with the relative path `b`.
pub fn join_chars(a: &Vec<char>, b: &Vec<char>) -> (r: Vec<char>)
    ensures
        r@ == join(a@, b@),
{
    let mut r: Vec<char> = Vec::new();
    let mut i: usize = 0;
    while i < a.len()
        invariant
            i <= a.len(),
            r@ == a@.take(i as int),
        decreases a.len() - i,
    {
        r.push(a[i]);
        assert(a@.take(i + 1) =~= a@.take(i as int).push(a@[i as int]));
        i = i + 1;
    }
    assert(a@.take(i as int) =~= a@);
    if a.len() > 0 && a[a.len() - 1] != '/' {
        r.push('/');
    }
    let ghost base = r@;
    let mut j: usize = 0;
    while j < b.len()
        invariant
            j <= b.len(),
            r@ == base + b@.take(j as int),
        decreases b.len() - j,
    {
        r.push(b[j]);
        assert(b@.take(j + 1) =~= b@.take(j as int).push(b@[j as int]));
        j = j + 1;
    }
    assert(b@.take(j as int) =~= b@);
    r
}

/// The path `v` with its extension replaced by `ext`.
pub fn with_extension_of(v: &Vec<char>, ext: &Vec<char>) -> (r: Vec<char>)
    ensures
        r@ == with_extension(v@, ext@),
{
    match file_stem_of(v) {
        None => {
            let r = slice_chars(v, 0, v.len());
            assert(r@ =~= v@);
            r
        },
        Some(stem) => {
            let (start, end) = component_bounds(v);
            proof {
                lemma_stem_fits(v@);
            }
            let mut r = slice_chars(v, 0, start + stem.len());
            assert(r@ =~= trimmed(v@).take(name_start(v@) + stem@.len()));
            if ext.len() > 0 {
                r.push('.');
                let ghost base = r@;
                let mut j: usize = 0;
                while j < ext.len()
                    invariant
                        j <= ext.len(),
                        r@ == base + ext@.take(j as int),
                    decreases ext.len() - j,
                {
                    r.push(ext[j]);
                    assert(ext@.take(j + 1) =~= ext@.take(j as int).push(ext@[j as int]));
                    j = j + 1;
                }
                assert(ext@.take(j as int) =~= ext@);
            }
            r
        },
    }
}

/// Whether some component of `v` equals `name`, ignoring ASCII case.
pub fn has_component_ci_of(v: &Vec<char>, name: &Vec<char>) -> (r: bool)
    ensures
        r == has_component_ci(v@, name@),
{
    if name.len() > v.len() {
        return false;
    }
    let last = v.len() - name.len();
    let mut i: usize = 0;
    loop
        invariant
            last == v.len() - name.len(),
            name.len() <= v.len(),
            i <= last,
            forall|k: int| 0 <= k < i ==> !component_at_ci(v@, name@, k),
        decreases last - i,
    {
        let left_ok = i == 0 || v[i - 1] == '/';
        let right_ok = i + name.len() == v.len() || v[i + name.len()] == '/';
        if left_ok && right_ok {
            let mut j: usize = 0;
            let mut same = true;
            while j < name.len()
                invariant
                    i + name.len() <= v.len(),
                    j <= name.len(),
                    same ==> forall|k: int| 0 <= k < j ==> lower_char(v@[i + k]) == lower_char(name@[k]),
                    !same ==> lower(v@.subrange(i as int, i + name.len())) != lower(name@),
                decreases name.len() - j,
            {
                if same && ascii_lower(v[i + j]) != ascii_lower(name[j]) {
                    assert(lower(v@.subrange(i as int, i + name.len()))[j as int] != lower(name@)[j as int]);
                    same = false;
                }
                j = j + 1;
            }
            if same {
                assert(lower(v@.subrange(i as int, i + name.len())) =~= lower(name@));
                assert(component_at_ci(v@, name@, i as int));
                return true;
            }
        }
        if i == last {
            return false;
        }
        i = i + 1;
    }
}

/// A file name's extension is the text after its last `.`, provided that
/// `.` is not the name's first character: the extension holds no `.`, and the
/// stem, a `.` and the extension make up the name again. A name without such
/// a `.` has no extension and is its own stem.
pub proof fn law_extension_after_last_dot(n: Seq<char>)
    ensures
        name_ext(n) matches Some(e) ==> exists|k: int|
            0 < k < n.len() && #[trigger] n[k] == '.' && (forall|j: int| k < j < n.len() ==> n[j]
                != '.') && e == n.skip(k + 1),
        name_ext(n) matches Some(e) ==> forall|i: int| 0 <= i < e.len() ==> #[trigger] e[i] != '.',
        name_ext(n) matches Some(e) ==> name_stem(n) + seq!['.'] + e == n,
        name_ext(n) is None ==> forall|k: int| 0 < k < n.len() ==> #[trigger] n[k] != '.',
        name_ext(n) is None ==> name_stem(n) == n,
{
    lemma_last_index_bounds(n, '.');
    let k = last_index(n, '.');
    if k > 0 {
        let e = n.skip(k + 1);
        assert(n[k] == '.');
        assert forall|i: int| 0 <= i < e.len() implies #[trigger] e[i] != '.' by {
            assert(e[i] == n[k + 1 + i]);
        }
        assert(n.take(k) + seq!['.'] + e =~= n);
    }
}

/// A path's extension is the one of its file name, and the file stem, a `.`
/// and the extension make up that name again.
pub proof fn law_path_extension(p: Seq<char>)
    ensures
        extension(p) is Some ==> file_name(p) is Some && file_stem(p) is Some && file_stem(p)->0
            + seq!['.'] + extension(p)->0 == file_name(p)->0,
        extension(p) matches Some(e) ==> forall|i: int| 0 <= i < e.len() ==> #[trigger] e[i] != '.',
{
    if let Some(n) = file_name(p) {
        law_extension_after_last_dot(n);
    }
}

/// A file name is a whole last component of the path: never empty, `.` or
/// `..`, holding no `/`, and the path (less trailing `/` and `/.`) ends with
/// it, right after a `/` or at the path's start.
pub proof fn law_file_name(p: Seq<char>)
    ensures
        file_name(p) matches Some(n) ==> n.len() > 0 && n != seq!['.'] && n != seq!['.', '.']
            && forall|i: int| 0 <= i < n.len() ==> #[trigger] n[i] != '/',
        file_name(p) matches Some(n) ==> ({
            let t = trimmed(p);
            &&& t.len() >= n.len()
            &&& t.skip(t.len() - n.len()) == n
            &&& (t.len() == n.len() || t[t.len() - n.len() - 1] == '/')
        }),
{
    lemma_trim_len_bounds(p);
    let t = trimmed(p);
    lemma_last_index_bounds(t, '/');
    if let Some(n) = file_name(p) {
        let s = name_start(p);
        assert(t.len() == trim_len(p));
        assert(n == t.subrange(s, t.len() as int));
        assert forall|i: int| 0 <= i < n.len() implies #[trigger] n[i] != '/' by {
            assert(n[i] == t[s + i]);
        }
        assert(t.skip(t.len() - n.len()) =~= n);
    }
}

/// Joining keeps both parts whole: the result starts with `a` and ends with
/// `b`, with exactly one `/` added between them unless `a` already ends in
/// one (or is empty, when the result is `b`).
pub proof fn law_join(a: Seq<char>, b: Seq<char>)
    ensures
        a.len() == 0 ==> join(a, b) == b,
        a.len() > 0 ==> join(a, b).take(a.len() as int) == a,
        join(a, b).len() >= b.len() && join(a, b).skip(join(a, b).len() - b.len()) == b,
        a.len() > 0 && a.last() == '/' ==> join(a, b).len() == a.len() + b.len(),
        a.len() > 0 && a.last() != '/' ==> join(a, b).len() == a.len() + 1 + b.len() && join(a, b)[a.len() as int]
            == '/',
{
    let j = join(a, b);
    if a.len() > 0 {
        assert(j.take(a.len() as int) =~= a);
    }
    assert(j.skip(j.len() - b.len()) =~= b);
}

/// Changing the extension keeps the folder and the file stem: the result is
/// the trimmed path up to the file name, the stem, and then `.` and the new
/// extension (nothing when it is empty). A path without a file name is kept.
pub proof fn law_with_extension(p: Seq<char>, ext: Seq<char>)
    ensures
        file_stem(p) is None ==> with_extension(p, ext) == p,
        file_stem(p) matches Some(stem) ==> with_extension(p, ext) == trimmed(p).take(name_start(p))
            + stem + (if ext.len() == 0 {
            Seq::<char>::empty()
        } else {
            seq!['.'] + ext
        }),
{
    lemma_stem_fits(p);
    if let Some(stem) = file_stem(p) {
        let t = trimmed(p);
        let ns = name_start(p);
        let n = file_name(p)->0;
        lemma_last_index_bounds(n, '.');
        assert(stem == name_stem(n));
        assert(stem.len() <= n.len());
        assert(stem =~= n.take(stem.len() as int));
        assert(t.take(ns + stem.len()) =~= t.take(ns) + stem);
        if ext.len() > 0 {
            assert(t.take(ns + stem.len()).push('.') + ext =~= t.take(ns) + stem + (seq!['.'] + ext));
        } else {
            assert(t.take(ns) + stem + Seq::<char>::empty() =~= t.take(ns) + stem);
        }
    }
}

} // verus!
