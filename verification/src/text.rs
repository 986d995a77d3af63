//! Character-level string helpers shared by the rest of the library.
//!
//! Strings are viewed as `Seq<char>`; every helper here states its result over
//! that view.
use vstd::prelude::*;

verus! {

/// Appends one character to a `String` (wraps `String::push`).
///
/// Trusted: `String::push` appends the character at the end, as its
/// documentation says; nothing else is claimed.
#[verifier::external_body]
pub(crate) fn push_char(s: &mut String, c: char)
    ensures
        final(s)@ == old(s)@.push(c),
{
    s.push(c);
}

/// The characters of `s`, in order.
pub fn chars_of(s: &str) -> (v: Vec<char>)
    ensures
        v@ == s@,
{
    let mut v: Vec<char> = Vec::new();
    for c in it: s.chars()
        invariant
            v@ == it.seq().take(it.index() as int),
    {
        v.push(c);
    }
    v
}

/// Appends every character of `t` to `s`.
pub fn push_str(s: &mut String, t: &str)
    ensures
        final(s)@ == old(s)@ + t@,
{
    let ghost start = s@;
    for c in it: t.chars()
        invariant
            s@ == start + it.seq().take(it.index() as int),
    {
        push_char(s, c);
    }
}

/// Appends every character of `v` to `s`.
pub fn push_chars(s: &mut String, v: &Vec<char>)
    ensures
        final(s)@ == old(s)@ + v@,
{
    let ghost start = s@;
    let mut i: usize = 0;
    while i < v.len()
        invariant
            i <= v.len(),
            s@ == start + v@.take(i as int),
        decreases v.len() - i,
    {
        push_char(s, v[i]);
        assert(v@.take(i + 1) =~= v@.take(i as int).push(v@[i as int]));
        i = i + 1;
    }
    assert(v@.take(i as int) =~= v@);
}

/// A `String` holding exactly the characters of `v`.
pub fn string_from_chars(v: &Vec<char>) -> (s: String)
    ensures
        s@ == v@,
{
    let mut s = String::new();
    push_chars(&mut s, v);
    s
}

/// A `String` holding exactly the characters of `t`.
pub fn owned(t: &str) -> (s: String)
    ensures
        s@ == t@,
{
    let mut s = String::new();
    push_str(&mut s, t);
    s
}

/// The views of a sequence of strings.
pub open spec fn strings_view(s: Seq<String>) -> Seq<Seq<char>> {
    s.map_values(|x: String| x@)
}

/// `a` followed by `b`.
pub fn concat(a: &str, b: &str) -> (r: String)
    ensures
        r@ == a@ + b@,
{
    let mut r = owned(a);
    push_str(&mut r, b);
    r
}

/// Whether two strings hold the same characters.
pub fn str_eq(a: &str, b: &str) -> (r: bool)
    ensures
        r == (a@ == b@),
{
    let va = chars_of(a);
    let vb = chars_of(b);
    chars_eq(&va, &vb)
}

/// Whether two character vectors are equal.
pub fn chars_eq(a: &Vec<char>, b: &Vec<char>) -> (r: bool)
    ensures
        r == (a@ == b@),
{
    if a.len() != b.len() {
        return false;
    }
    let mut i: usize = 0;
    while i < a.len()
        invariant
            a.len() == b.len(),
            i <= a.len(),
            forall|j: int| 0 <= j < i ==> a@[j] == b@[j],
        decreases a.len() - i,
    {
        if a[i] != b[i] {
            return false;
        }
        i = i + 1;
    }
    assert(a@ =~= b@);
    true
}

/// Unicode `White_Space`, the property that `char::is_whitespace` tests.
pub open spec fn is_ws(c: char) -> bool {
    ||| ('\u{9}' <= c && c <= '\u{d}')
    ||| c == ' '
    ||| c == '\u{85}'
    ||| c == '\u{a0}'
    ||| c == '\u{1680}'
    ||| ('\u{2000}' <= c && c <= '\u{200a}')
    ||| c == '\u{2028}'
    ||| c == '\u{2029}'
    ||| c == '\u{202f}'
    ||| c == '\u{205f}'
    ||| c == '\u{3000}'
}

/// Whether `c` is Unicode white space.
pub fn is_whitespace(c: char) -> (b: bool)
    ensures
        b == is_ws(c),
{
    ('\u{9}' <= c && c <= '\u{d}') || c == ' ' || c == '\u{85}' || c == '\u{a0}' || c == '\u{1680}'
        || ('\u{2000}' <= c && c <= '\u{200a}') || c == '\u{2028}' || c == '\u{2029}' || c
        == '\u{202f}' || c == '\u{205f}' || c == '\u{3000}'
}

/// ASCII lower-casing of one character; every other character is kept.
pub open spec fn lower_char(c: char) -> char {
    if 'A' <= c && c <= 'Z' {
        ((c as u32) + 32) as char
    } else {
        c
    }
}

/// ASCII lower-casing of a whole sequence (`to_ascii_lowercase`).
pub open spec fn lower(s: Seq<char>) -> Seq<char> {
    s.map_values(|c: char| lower_char(c))
}

/// ASCII lower-casing of one character.
pub fn ascii_lower(c: char) -> (r: char)
    ensures
        r == lower_char(c),
{
    if 'A' <= c && c <= 'Z' {
        let v: u8 = (c as u8) + 32;
        v as char
    } else {
        c
    }
}

/// ASCII lower-casing of a character vector.
pub fn ascii_lowercase(v: &Vec<char>) -> (r: Vec<char>)
    ensures
        r@ == lower(v@),
{
    let mut r: Vec<char> = Vec::new();
    let mut i: usize = 0;
    while i < v.len()
        invariant
            i <= v.len(),
            r@ == lower(v@.take(i as int)),
        decreases v.len() - i,
    {
        let c = ascii_lower(v[i]);
        r.push(c);
        assert(lower(v@.take(i + 1)) =~= lower(v@.take(i as int)).push(lower_char(v@[i as int])));
        i = i + 1;
    }
    assert(v@.take(i as int) =~= v@);
    r
}

/// Whether `t` occurs in `s` starting at index `i`.
pub open spec fn occurs_at(s: Seq<char>, t: Seq<char>, i: int) -> bool {
    0 <= i && i + t.len() <= s.len() && s.subrange(i, i + t.len()) == t
}

/// Whether `t` occurs anywhere in `s` (`str::contains`).
pub open spec fn contains_seq(s: Seq<char>, t: Seq<char>) -> bool {
    exists|i: int| occurs_at(s, t, i)
}

/// Whether `t` occurs in `s` at index `i`.
fn matches_at(s: &Vec<char>, t: &Vec<char>, i: usize) -> (r: bool)
    requires
        i + t.len() <= s.len(),
    ensures
        r == occurs_at(s@, t@, i as int),
{
    let mut j: usize = 0;
    while j < t.len()
        invariant
            i + t.len() <= s.len(),
            j <= t.len(),
            forall|k: int| 0 <= k < j ==> s@[i + k] == t@[k],
        decreases t.len() - j,
    {
        if s[i + j] != t[j] {
            assert(s@.subrange(i as int, i + t.len())[j as int] != t@[j as int]);
            return false;
        }
        j = j + 1;
    }
    assert(s@.subrange(i as int, i + t.len()) =~= t@);
    true
}

/// Whether `t` occurs anywhere in `s`.
pub fn contains_chars(s: &Vec<char>, t: &Vec<char>) -> (r: bool)
    ensures
        r == contains_seq(s@, t@),
{
    if t.len() > s.len() {
        return false;
    }
    let last = s.len() - t.len();
    let mut i: usize = 0;
    loop
        invariant
            last == s.len() - t.len(),
            t.len() <= s.len(),
            i <= last,
            forall|k: int| 0 <= k < i ==> !occurs_at(s@, t@, k),
        decreases last - i,
    {
        if matches_at(s, t, i) {
            return true;
        }
        if i == last {
            return false;
        }
        i = i + 1;
    }
}

/// One step of white-space collapsing: the output so far and whether a
/// separating space is pending before the next word.
pub open spec fn ws_state(s: Seq<char>) -> (Seq<char>, bool)
    decreases s.len(),
{
    if s.len() == 0 {
        (Seq::empty(), false)
    } else {
        let (o, p) = ws_state(s.drop_last());
        let c = s.last();
        if is_ws(c) {
            (o, o.len() > 0)
        } else if p {
            (o.push(' ').push(c), false)
        } else {
            (o.push(c), false)
        }
    }
}

/// `s` split at runs of white space and the words joined with single spaces
/// (`split_whitespace().collect::<Vec<_>>().join(" ")`).
pub open spec fn collapse_ws(s: Seq<char>) -> Seq<char> {
    ws_state(s).0
}

/// Collapses white space: words of `v` joined by single spaces.
pub fn collapse_whitespace(v: &Vec<char>) -> (r: Vec<char>)
    ensures
        r@ == collapse_ws(v@),
{
    let mut out: Vec<char> = Vec::new();
    let mut pending = false;
    let mut i: usize = 0;
    while i < v.len()
        invariant
            i <= v.len(),
            (out@, pending) == ws_state(v@.take(i as int)),
        decreases v.len() - i,
    {
        let c = v[i];
        assert(v@.take(i + 1).drop_last() =~= v@.take(i as int));
        if is_whitespace(c) {
            pending = out.len() > 0;
        } else {
            if pending {
                out.push(' ');
            }
            out.push(c);
            pending = false;
        }
        i = i + 1;
    }
    assert(v@.take(i as int) =~= v@);
    out
}

/// `s` holds no white space but single spaces between other characters, and
/// none at either end.
pub open spec fn ws_normalized(s: Seq<char>) -> bool {
    &&& forall|i: int| 0 <= i < s.len() ==> (!is_ws(#[trigger] s[i]) || s[i] == ' ')
    &&& s.len() > 0 ==> s[0] != ' ' && s.last() != ' '
    &&& forall|i: int| 0 <= i < s.len() - 1 ==> !(#[trigger] s[i] == ' ' && s[i + 1] == ' ')
}

/// Collapsing produces normalized text, and a pending space only after a word.
pub proof fn lemma_ws_state_normalized(s: Seq<char>)
    ensures
        ws_normalized(ws_state(s).0),
        ws_state(s).1 ==> ws_state(s).0.len() > 0,
        forall|i: int|
            0 <= i < ws_state(s).0.len() ==> (#[trigger] ws_state(s).0[i] == ' ' || s.contains(
                ws_state(s).0[i],
            )),
    decreases s.len(),
{
    if s.len() > 0 {
        let prev = s.drop_last();
        lemma_ws_state_normalized(prev);
        let (o, p) = ws_state(prev);
        let c = s.last();
        assert(s[s.len() - 1] == c);
        assert forall|x: char| prev.contains(x) implies s.contains(x) by {
            let j = choose|j: int| 0 <= j < prev.len() && prev[j] == x;
            assert(s[j] == x);
        }
        if !is_ws(c) {
            let n = ws_state(s).0;
            if p {
                assert(n == o.push(' ').push(c));
            } else {
                assert(n == o.push(c));
            }
            assert forall|i: int| 0 <= i < n.len() implies (#[trigger] n[i] == ' ' || s.contains(n[i])) by {
                if i < o.len() {
                    assert(n[i] == o[i]);
                }
            }
        }
    }
}

/// Collapsing leaves normalized text unchanged.
pub proof fn lemma_collapse_normalized(t: Seq<char>)
    requires
        ws_normalized(t),
    ensures
        collapse_ws(t) == t,
{
    lemma_collapse_prefix(t, t.len() as int);
    assert(t.take(t.len() as int) =~= t);
}

proof fn lemma_collapse_prefix(t: Seq<char>, i: int)
    requires
        ws_normalized(t),
        0 <= i <= t.len(),
    ensures
        ws_state(t.take(i)) == (if i > 0 && t[i - 1] == ' ' {
            (t.take(i - 1), true)
        } else {
            (t.take(i), false)
        }),
    decreases i,
{
    if i > 0 {
        lemma_collapse_prefix(t, i - 1);
        assert(t.take(i).drop_last() =~= t.take(i - 1));
        assert(t.take(i).last() == t[i - 1]);
        let c = t[i - 1];
        if c == ' ' {
            assert(i - 1 > 0);
            assert(t[i - 2] != ' ');
        } else {
            assert(!is_ws(c));
            if i - 1 > 0 && t[i - 2] == ' ' {
                assert(t.take(i - 2).push(' ').push(c) =~= t.take(i));
            } else {
                assert(t.take(i - 1).push(c) =~= t.take(i));
            }
        }
    } else {
        assert(t.take(0) =~= Seq::<char>::empty());
    }
}

/// White-space collapsing is idempotent and yields normalized text made of
/// spaces and characters of the input.
pub proof fn law_collapse_ws(s: Seq<char>)
    ensures
        ws_normalized(collapse_ws(s)),
        collapse_ws(collapse_ws(s)) == collapse_ws(s),
        forall|i: int|
            0 <= i < collapse_ws(s).len() ==> (#[trigger] collapse_ws(s)[i] == ' ' || s.contains(
                collapse_ws(s)[i],
            )),
{
    lemma_ws_state_normalized(s);
    lemma_collapse_normalized(collapse_ws(s));
}

/// `parts` joined with `sep` between neighbours.
pub open spec fn join_sep(parts: Seq<Seq<char>>, sep: Seq<char>) -> Seq<char>
    decreases parts.len(),
{
    if parts.len() == 0 {
        Seq::empty()
    } else if parts.len() == 1 {
        parts[0]
    } else {
        join_sep(parts.drop_last(), sep) + sep + parts.last()
    }
}

/// The words of `s` (maximal runs of non-white-space characters) and whether
/// the last character read belongs to a word.
pub open spec fn words_state(s: Seq<char>) -> (Seq<Seq<char>>, bool)
    decreases s.len(),
{
    if s.len() == 0 {
        (Seq::empty(), false)
    } else {
        let (w, inside) = words_state(s.drop_last());
        let c = s.last();
        if is_ws(c) {
            (w, false)
        } else if inside && w.len() > 0 {
            (w.update(w.len() - 1, w.last().push(c)), true)
        } else {
            (w.push(seq![c]), true)
        }
    }
}

/// `str::split_whitespace`: the maximal runs of non-white-space characters.
pub open spec fn words(s: Seq<char>) -> Seq<Seq<char>> {
    words_state(s).0
}

/// The view of a sequence of character vectors.
pub open spec fn char_vecs_view(v: Seq<Vec<char>>) -> Seq<Seq<char>> {
    v.map_values(|x: Vec<char>| x@)
}

/// Splits `v` at runs of white space (`split_whitespace`).
pub fn split_whitespace(v: &Vec<char>) -> (r: Vec<Vec<char>>)
    ensures
        char_vecs_view(r@) == words(v@),
{
    let mut done: Vec<Vec<char>> = Vec::new();
    let mut cur: Vec<char> = Vec::new();
    let mut i: usize = 0;
    while i < v.len()
        invariant
            i <= v.len(),
            words_state(v@.take(i as int)) == (if cur.len() > 0 {
                (char_vecs_view(done@).push(cur@), true)
            } else {
                (char_vecs_view(done@), false)
            }),
        decreases v.len() - i,
    {
        let c = v[i];
        assert(v@.take(i + 1).drop_last() =~= v@.take(i as int));
        let ghost w = char_vecs_view(done@);
        if is_whitespace(c) {
            if cur.len() > 0 {
                let finished = cur;
                done.push(finished);
                cur = Vec::new();
                assert(char_vecs_view(done@) =~= w.push(finished@));
            }
        } else {
            let ghost old_cur = cur@;
            cur.push(c);
            proof {
                if old_cur.len() > 0 {
                    assert(w.push(old_cur).update(w.len() as int, old_cur.push(c)) =~= w.push(cur@));
                } else {
                    assert(cur@ =~= seq![c]);
                }
            }
        }
        i = i + 1;
    }
    assert(v@.take(i as int) =~= v@);
    if cur.len() > 0 {
        let ghost w = char_vecs_view(done@);
        done.push(cur);
        assert(char_vecs_view(done@) =~= w.push(cur@));
    }
    done
}

proof fn lemma_join_push(w: Seq<Seq<char>>, x: Seq<char>, sep: Seq<char>)
    requires
        w.len() > 0,
    ensures
        join_sep(w.push(x), sep) == join_sep(w, sep) + sep + x,
{
    assert(w.push(x).drop_last() =~= w);
}

proof fn lemma_join_extend_last(w: Seq<Seq<char>>, c: char, sep: Seq<char>)
    requires
        w.len() > 0,
    ensures
        join_sep(w.update(w.len() - 1, w.last().push(c)), sep) == join_sep(w, sep).push(c),
{
    let u = w.update(w.len() - 1, w.last().push(c));
    if w.len() == 1 {
        assert(join_sep(u, sep) == u[0]);
    } else {
        assert(u.drop_last() =~= w.drop_last());
        assert(join_sep(u, sep) == join_sep(w.drop_last(), sep) + sep + w.last().push(c));
        assert(join_sep(u, sep) =~= join_sep(w, sep).push(c));
    }
}

proof fn lemma_collapse_words(s: Seq<char>)
    ensures
        ws_state(s).0 == join_sep(words_state(s).0, seq![' ']),
        ws_state(s).0.len() > 0 <==> words_state(s).0.len() > 0,
        words_state(s).1 ==> words_state(s).0.len() > 0,
        ws_state(s).1 == (!words_state(s).1 && words_state(s).0.len() > 0),
    decreases s.len(),
{
    if s.len() > 0 {
        let prev = s.drop_last();
        lemma_collapse_words(prev);
        let (w, inside) = words_state(prev);
        let (o, p) = ws_state(prev);
        let c = s.last();
        if !is_ws(c) {
            if p {
                lemma_join_push(w, seq![c], seq![' ']);
                assert(o.push(' ').push(c) =~= o + seq![' '] + seq![c]);
            } else if inside && w.len() > 0 {
                lemma_join_extend_last(w, c, seq![' ']);
            } else {
                assert(w.len() == 0);
                assert(w.push(seq![c]) =~= seq![seq![c]]);
                assert(o =~= Seq::<char>::empty());
                assert(o.push(c) =~= seq![c]);
            }
        }
    } else {
        assert(join_sep(Seq::<Seq<char>>::empty(), seq![' ']) =~= Seq::<char>::empty());
    }
}

/// Collapsing white space is splitting into words and joining them with
/// single spaces.
pub proof fn law_collapse_is_words_joined(s: Seq<char>)
    ensures
        collapse_ws(s) == join_sep(words(s), seq![' ']),
{
    lemma_collapse_words(s);
}

/// Strict lexicographic order on character sequences, comparing code points
/// (the order of `str`'s `Ord`).
pub open spec fn lex_lt(a: Seq<char>, b: Seq<char>) -> bool
    decreases a.len(),
{
    if a.len() == 0 {
        b.len() > 0
    } else if b.len() == 0 {
        false
    } else if a[0] != b[0] {
        (a[0] as int) < (b[0] as int)
    } else {
        lex_lt(a.drop_first(), b.drop_first())
    }
}

/// No sequence is below itself.
pub proof fn lemma_lex_irreflexive(a: Seq<char>)
    ensures
        !lex_lt(a, a),
    decreases a.len(),
{
    if a.len() > 0 {
        lemma_lex_irreflexive(a.drop_first());
    }
}

/// Any two sequences are equal or ordered one way, and never both ways.
pub proof fn lemma_lex_total(a: Seq<char>, b: Seq<char>)
    ensures
        a == b || lex_lt(a, b) || lex_lt(b, a),
        !(lex_lt(a, b) && lex_lt(b, a)),
    decreases a.len(),
{
    if a.len() > 0 && b.len() > 0 && a[0] == b[0] {
        lemma_lex_total(a.drop_first(), b.drop_first());
        if a.drop_first() == b.drop_first() {
            assert(a =~= seq![a[0]] + a.drop_first());
            assert(b =~= seq![b[0]] + b.drop_first());
        }
    } else if a.len() > 0 && b.len() > 0 {
        assert((a[0] as int) != (b[0] as int));
    } else if a.len() == 0 && b.len() == 0 {
        assert(a =~= b);
    }
}

/// The order is transitive.
pub proof fn lemma_lex_transitive(a: Seq<char>, b: Seq<char>, c: Seq<char>)
    requires
        lex_lt(a, b),
        lex_lt(b, c),
    ensures
        lex_lt(a, c),
    decreases a.len(),
{
    if a.len() > 0 && b.len() > 0 && c.len() > 0 && a[0] == b[0] && b[0] == c[0] {
        lemma_lex_transitive(a.drop_first(), b.drop_first(), c.drop_first());
    }
}

/// Whether `a` is strictly below `b` in lexicographic order.
pub fn chars_lt(a: &Vec<char>, b: &Vec<char>) -> (r: bool)
    ensures
        r == lex_lt(a@, b@),
{
    let mut i: usize = 0;
    assert(a@.skip(0) =~= a@);
    assert(b@.skip(0) =~= b@);
    loop
        invariant
            i <= a.len(),
            i <= b.len(),
            lex_lt(a@, b@) == lex_lt(a@.skip(i as int), b@.skip(i as int)),
        decreases a.len() - i,
    {
        if i == a.len() {
            return i < b.len();
        }
        if i == b.len() {
            return false;
        }
        if a[i] != b[i] {
            return a[i] < b[i];
        }
        assert(a@.skip(i as int).drop_first() =~= a@.skip(i + 1));
        assert(b@.skip(i as int).drop_first() =~= b@.skip(i + 1));
        i = i + 1;
    }
}

/// ASCII lower-casing keeps the length, moves each upper-case ASCII letter to
/// its lower-case letter, leaves every other character alone, and changes
/// nothing when applied again.
pub proof fn law_lower(s: Seq<char>)
    ensures
        lower(s).len() == s.len(),
        forall|i: int|
            0 <= i < s.len() && 'A' <= #[trigger] s[i] <= 'Z' ==> lower(s)[i] as int == s[i] as int
                + 32 && 'a' <= lower(s)[i] <= 'z',
        forall|i: int|
            0 <= i < s.len() && !('A' <= #[trigger] s[i] <= 'Z') ==> lower(s)[i] == s[i],
        lower(lower(s)) == lower(s),
{
    assert forall|i: int| 0 <= i < s.len() && 'A' <= #[trigger] s[i] <= 'Z' implies lower(s)[i] as int
        == s[i] as int + 32 && 'a' <= lower(s)[i] <= 'z' by {
        assert(lower(s)[i] == lower_char(s[i]));
    }
    assert(lower(lower(s)) =~= lower(s));
}

/// The order is the dictionary order of code points: `a` is below `b`
/// exactly when `a` is a proper prefix of `b`, or at the first position where
/// they differ `a` has the smaller code point.
pub proof fn law_lex_order(a: Seq<char>, b: Seq<char>)
    ensures
        lex_lt(a, b) <==> (a.len() < b.len() && b.take(a.len() as int) == a) || exists|k: int|
            0 <= k < a.len() && k < b.len() && a.take(k) == b.take(k) && (#[trigger] a[k] as int) < (
            b[k] as int),
    decreases a.len(),
{
    if a.len() == 0 {
        assert(b.take(0) =~= a);
    } else if b.len() == 0 {
    } else if a[0] != b[0] {
        assert(a.take(0) =~= b.take(0));
        assert forall|k: int|
            0 <= k < a.len() && k < b.len() && a.take(k) == b.take(k) implies k == 0 by {
            if k > 0 {
                assert(a.take(k)[0] == b.take(k)[0]);
            }
        }
        if a.len() < b.len() && b.take(a.len() as int) == a {
            assert(b.take(a.len() as int)[0] == a[0]);
        }
    } else {
        let a1 = a.drop_first();
        let b1 = b.drop_first();
        law_lex_order(a1, b1);
        if a1.len() < b1.len() && b1.take(a1.len() as int) == a1 {
            assert(b.take(a.len() as int) =~= seq![a[0]] + b1.take(a1.len() as int));
            assert(a =~= seq![a[0]] + a1);
        }
        if a.len() < b.len() && b.take(a.len() as int) == a {
            assert(b1.take(a1.len() as int) =~= b.take(a.len() as int).drop_first());
            assert(a1 =~= a.drop_first());
        }
        if exists|k: int|
            0 <= k < a1.len() && k < b1.len() && a1.take(k) == b1.take(k) && (#[trigger] a1[k] as int)
                < (b1[k] as int) {
            let k = choose|k: int|
                0 <= k < a1.len() && k < b1.len() && a1.take(k) == b1.take(k) && (#[trigger] a1[k] as int)
                    < (b1[k] as int);
            assert(a.take(k + 1) =~= seq![a[0]] + a1.take(k));
            assert(b.take(k + 1) =~= seq![b[0]] + b1.take(k));
            assert(a[k + 1] == a1[k]);
            assert(b[k + 1] == b1[k]);
        }
        if exists|k: int|
            0 <= k < a.len() && k < b.len() && a.take(k) == b.take(k) && (#[trigger] a[k] as int) < (
            b[k] as int) {
            let k = choose|k: int|
                0 <= k < a.len() && k < b.len() && a.take(k) == b.take(k) && (#[trigger] a[k] as int) < (
                b[k] as int);
            assert(k > 0);
            assert(a1.take(k - 1) =~= a.take(k).drop_first());
            assert(b1.take(k - 1) =~= b.take(k).drop_first());
            assert(a1[k - 1] == a[k]);
            assert(b1[k - 1] == b[k]);
        }
    }
}

} // verus!
