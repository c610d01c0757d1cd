//! Character-level building blocks: conversion between strings and character
//! vectors, trimming, splitting and searching.

use vstd::prelude::*;

verus! {

/// `String::push` of the standard library: the character is appended at the
/// end and nothing else changes.
pub assume_specification[ String::push ](s: &mut String, c: char)
    ensures
        final(s)@ == old(s)@.push(c),
;

/// The views of the items of `s`, item by item.
pub open spec fn views<T: View>(s: Seq<T>) -> Seq<T::V> {
    Seq::new(s.len(), |i: int| s[i]@)
}

/// The view of what `o` holds, if it holds anything.
pub open spec fn opt_view<T: View>(o: Option<T>) -> Option<T::V> {
    match o {
        Some(x) => Some(x@),
        None => None,
    }
}

/// The characters of `s`, in order.
pub fn chars_of(s: &str) -> (v: Vec<char>)
    ensures
        v@ == s@,
{
    let mut v: Vec<char> = Vec::new();
    for c in it: s.chars()
        invariant
            it.seq() == s@,
            v@ == it.seq().take(it.index() as int),
    {
        v.push(c);
    }
    v
}

/// The string made of the characters of `v`.
pub fn string_of(v: &Vec<char>) -> (s: String)
    ensures
        s@ == v@,
{
    let mut s = String::new();
    let mut i: usize = 0;
    while i < v.len()
        invariant
            i <= v.len(),
            s@ == v@.take(i as int),
        decreases v.len() - i,
    {
        s.push(v[i]);
        i += 1;
    }
    s
}

/// The characters of `v` from `lo` up to `hi`.
pub fn copy_range(v: &Vec<char>, lo: usize, hi: usize) -> (r: Vec<char>)
    requires
        lo <= hi <= v.len(),
    ensures
        r@ == v@.subrange(lo as int, hi as int),
{
    let mut r: Vec<char> = Vec::new();
    let mut i: usize = lo;
    while i < hi
        invariant
            lo <= i <= hi <= v.len(),
            r@ == v@.subrange(lo as int, i as int),
        decreases hi - i,
    {
        r.push(v[i]);
        i += 1;
    }
    r
}

/// True when `a` and `b` hold the same characters.
pub fn same_chars(a: &Vec<char>, b: &Vec<char>) -> (r: bool)
    ensures
        r == (a@ == b@),
{
    if a.len() != b.len() {
        return false;
    }
    let mut i: usize = 0;
    while i < a.len()
        invariant
            a.len() == b.len(),
            i <= a.len(),
            forall|k: int| 0 <= k < i ==> a@[k] == b@[k],
        decreases a.len() - i,
    {
        if a[i] != b[i] {
            return false;
        }
        i += 1;
    }
    assert(a@ =~= b@);
    true
}

/// True when `a` and `b` read the same.
pub fn same_text(a: &str, b: &str) -> (r: bool)
    ensures
        r == (a@ == b@),
{
    let x = chars_of(a);
    let y = chars_of(b);
    same_chars(&x, &y)
}

/// True when some item of `list` reads `x`.
pub fn list_contains(list: &Vec<String>, x: &String) -> (b: bool)
    ensures
        b == views(list@).contains(x@),
{
    let mut i: usize = 0;
    while i < list.len()
        invariant
            i <= list.len(),
            forall|k: int| 0 <= k < i ==> views(list@)[k] != x@,
        decreases list.len() - i,
    {
        if list[i] == *x {
            assert(views(list@)[i as int] == x@);
            return true;
        }
        i += 1;
    }
    false
}

/// The code points with the Unicode property `White_Space`.
pub open spec fn is_space(c: char) -> bool {
    ||| '\u{9}' <= c <= '\u{D}'
    ||| c == ' '
    ||| c == '\u{85}'
    ||| c == '\u{A0}'
    ||| c == '\u{1680}'
    ||| '\u{2000}' <= c <= '\u{200A}'
    ||| c == '\u{2028}'
    ||| c == '\u{2029}'
    ||| c == '\u{202F}'
    ||| c == '\u{205F}'
    ||| c == '\u{3000}'
}

/// True for the ten ASCII digits.
pub open spec fn is_digit(c: char) -> bool {
    '0' <= c <= '9'
}

/// True for the twenty-six ASCII capital letters.
pub open spec fn is_upper(c: char) -> bool {
    'A' <= c <= 'Z'
}

/// True when `s` is one or more ASCII digits.
pub open spec fn is_number(s: Seq<char>) -> bool {
    s.len() > 0 && forall|k: int| 0 <= k < s.len() ==> is_digit(#[trigger] s[k])
}

/// True for the code points with the Unicode property `White_Space`.
pub fn space(c: char) -> (b: bool)
    ensures
        b == is_space(c),
{
    ('\u{9}' <= c && c <= '\u{D}') || c == ' ' || c == '\u{85}' || c == '\u{A0}' || c == '\u{1680}'
        || ('\u{2000}' <= c && c <= '\u{200A}') || c == '\u{2028}' || c == '\u{2029}' || c
        == '\u{202F}' || c == '\u{205F}' || c == '\u{3000}'
}

/// True for the ten ASCII digits.
pub fn digit(c: char) -> (b: bool)
    ensures
        b == is_digit(c),
{
    '0' <= c && c <= '9'
}

/// True for the twenty-six ASCII capital letters.
pub fn upper(c: char) -> (b: bool)
    ensures
        b == is_upper(c),
{
    'A' <= c && c <= 'Z'
}

/// True when the characters of `v` from `lo` up to `hi` are one or more ASCII
/// digits.
pub fn number_in(v: &Vec<char>, lo: usize, hi: usize) -> (b: bool)
    requires
        lo <= hi <= v.len(),
    ensures
        b == is_number(v@.subrange(lo as int, hi as int)),
{
    let ghost part = v@.subrange(lo as int, hi as int);
    if lo == hi {
        return false;
    }
    let mut i: usize = lo;
    while i < hi
        invariant
            lo <= i <= hi <= v.len(),
            part == v@.subrange(lo as int, hi as int),
            forall|k: int| 0 <= k < i - lo ==> is_digit(#[trigger] part[k]),
        decreases hi - i,
    {
        if !digit(v[i]) {
            assert(part[i - lo] == v@[i as int]);
            return false;
        }
        assert(part[i - lo] == v@[i as int]);
        i += 1;
    }
    true
}

/// Index of the first character of `s` at or after `from` that is not
/// whitespace, or the length of `s` where there is none.
pub open spec fn skip_spaces(s: Seq<char>, from: int) -> int
    decreases s.len() - from,
{
    if from < 0 || from >= s.len() {
        s.len() as int
    } else if !is_space(s[from]) {
        from
    } else {
        skip_spaces(s, from + 1)
    }
}

/// End of the part of `s` that starts at `lo` once trailing whitespace before
/// `hi` is dropped.
pub open spec fn drop_spaces(s: Seq<char>, lo: int, hi: int) -> int
    decreases hi - lo,
{
    if hi <= lo || hi > s.len() {
        lo
    } else if !is_space(s[hi - 1]) {
        hi
    } else {
        drop_spaces(s, lo, hi - 1)
    }
}

/// `s` without its leading and trailing whitespace.
pub open spec fn trim(s: Seq<char>) -> Seq<char> {
    let lo = skip_spaces(s, 0);
    s.subrange(lo, drop_spaces(s, lo, s.len() as int))
}

/// True when `s` neither starts nor ends with whitespace.
pub open spec fn is_trimmed(s: Seq<char>) -> bool {
    s.len() > 0 ==> !is_space(s.first()) && !is_space(s.last())
}

/// The characters of `v` without leading and trailing whitespace.
pub fn trim_chars(v: &Vec<char>) -> (r: Vec<char>)
    ensures
        r@ == trim(v@),
{
    let n = v.len();
    let mut lo: usize = 0;
    while lo < n && space(v[lo])
        invariant
            n == v.len(),
            lo <= n,
            skip_spaces(v@, 0) == skip_spaces(v@, lo as int),
        decreases n - lo,
    {
        lo += 1;
    }
    let mut hi: usize = n;
    while hi > lo && space(v[hi - 1])
        invariant
            n == v.len(),
            lo <= hi <= n,
            drop_spaces(v@, lo as int, n as int) == drop_spaces(v@, lo as int, hi as int),
        decreases hi - lo,
    {
        hi -= 1;
    }
    copy_range(v, lo, hi)
}

/// Where `skip_spaces` stops: everything before is whitespace, and the
/// character there, if any, is not.
pub proof fn lemma_skip_spaces(s: Seq<char>, from: int)
    requires
        0 <= from <= s.len(),
    ensures
        from <= skip_spaces(s, from) <= s.len(),
        forall|k: int| from <= k < skip_spaces(s, from) ==> is_space(#[trigger] s[k]),
        skip_spaces(s, from) < s.len() ==> !is_space(s[skip_spaces(s, from)]),
    decreases s.len() - from,
{
    if from < s.len() && is_space(s[from]) {
        lemma_skip_spaces(s, from + 1);
    }
}

/// Where `drop_spaces` stops: everything after is whitespace, and the
/// character before, if any, is not.
pub proof fn lemma_drop_spaces(s: Seq<char>, lo: int, hi: int)
    requires
        0 <= lo <= hi <= s.len(),
    ensures
        lo <= drop_spaces(s, lo, hi) <= hi,
        forall|k: int| drop_spaces(s, lo, hi) <= k < hi ==> is_space(#[trigger] s[k]),
        drop_spaces(s, lo, hi) > lo ==> !is_space(s[drop_spaces(s, lo, hi) - 1]),
    decreases hi - lo,
{
    if lo < hi && is_space(s[hi - 1]) {
        lemma_drop_spaces(s, lo, hi - 1);
    }
}

/// Trimming yields a trimmed sequence.
pub proof fn lemma_trim_is_trimmed(s: Seq<char>)
    ensures
        is_trimmed(trim(s)),
{
    let lo = skip_spaces(s, 0);
    lemma_skip_spaces(s, 0);
    lemma_drop_spaces(s, lo, s.len() as int);
}

/// Whitespace around a trimmed, non-empty core is exactly what trimming
/// removes.
pub proof fn lemma_trim_padded(before: Seq<char>, core: Seq<char>, after: Seq<char>)
    requires
        forall|k: int| 0 <= k < before.len() ==> is_space(#[trigger] before[k]),
        forall|k: int| 0 <= k < after.len() ==> is_space(#[trigger] after[k]),
        core.len() > 0,
        is_trimmed(core),
    ensures
        trim(before + core + after) == core,
{
    let s = before + core + after;
    let a = before.len() as int;
    let b = a + core.len();
    lemma_skip_spaces(s, 0);
    let lo = skip_spaces(s, 0);
    assert(s[a] == core[0]);
    assert(s[b - 1] == core[core.len() - 1]);
    if lo < a {
        assert(s[lo] == before[lo]);
    }
    if lo > a {
        assert(is_space(s[a]));
    }
    assert(lo == a);
    lemma_drop_spaces(s, lo, s.len() as int);
    let hi = drop_spaces(s, lo, s.len() as int);
    if hi > b {
        assert(s[hi - 1] == after[hi - 1 - b]);
    }
    if hi < b {
        assert(is_space(s[b - 1]));
    }
    assert(hi == b);
    assert(s.subrange(a, b) =~= core);
}

/// A sequence of whitespace alone trims to nothing.
pub proof fn lemma_trim_blank(s: Seq<char>)
    requires
        forall|k: int| 0 <= k < s.len() ==> is_space(#[trigger] s[k]),
    ensures
        trim(s) == Seq::<char>::empty(),
{
    lemma_skip_spaces(s, 0);
    let lo = skip_spaces(s, 0);
    lemma_drop_spaces(s, lo, s.len() as int);
    assert(trim(s) =~= Seq::<char>::empty());
}

/// Trimming leaves a trimmed sequence as it is.
pub proof fn lemma_trim_fixed(s: Seq<char>)
    requires
        is_trimmed(s),
    ensures
        trim(s) == s,
{
    if s.len() == 0 {
        lemma_trim_blank(s);
        assert(s =~= Seq::<char>::empty());
    } else {
        lemma_trim_padded(Seq::<char>::empty(), s, Seq::<char>::empty());
        assert(Seq::<char>::empty() + s + Seq::<char>::empty() =~= s);
    }
}

/// Trimming brings no character in that was not there.
pub proof fn lemma_trim_free(s: Seq<char>, c: char)
    requires
        !s.contains(c),
    ensures
        !trim(s).contains(c),
{
    lemma_skip_spaces(s, 0);
    let lo = skip_spaces(s, 0);
    lemma_drop_spaces(s, lo, s.len() as int);
    if trim(s).contains(c) {
        let j = choose|j: int| 0 <= j < trim(s).len() && trim(s)[j] == c;
        assert(s.contains(s[lo + j]));
    }
}

/// Index of the first `c` in `s`, or the length of `s` where there is none.
pub open spec fn find_char(s: Seq<char>, c: char) -> int
    decreases s.len(),
{
    if s.len() == 0 || s[0] == c {
        0
    } else {
        1 + find_char(s.drop_first(), c)
    }
}

/// `find_char` is the least index that holds `c`.
pub proof fn lemma_find_char(s: Seq<char>, c: char)
    ensures
        0 <= find_char(s, c) <= s.len(),
        forall|k: int| 0 <= k < find_char(s, c) ==> #[trigger] s[k] != c,
        find_char(s, c) < s.len() ==> s[find_char(s, c)] == c,
    decreases s.len(),
{
    if s.len() != 0 && s[0] != c {
        let t = s.drop_first();
        lemma_find_char(t, c);
        assert forall|k: int| 0 <= k < find_char(s, c) implies #[trigger] s[k] != c by {
            if k > 0 {
                assert(s[k] == t[k - 1]);
            }
        }
    }
}

/// An index that holds the first `c` of `s`, or the length of `s` with no `c`
/// before it, is `find_char`.
pub proof fn lemma_find_char_is(s: Seq<char>, c: char, i: int)
    requires
        0 <= i <= s.len(),
        forall|k: int| 0 <= k < i ==> #[trigger] s[k] != c,
        i < s.len() ==> s[i] == c,
    ensures
        find_char(s, c) == i,
{
    lemma_find_char(s, c);
    let f = find_char(s, c);
    if f < i {
        assert(s[f] != c);
    }
    if i < f {
        assert(s[i] != c);
    }
}

/// True when `pat` stands in `s` at index `i`.
pub open spec fn occurs_at(s: Seq<char>, pat: Seq<char>, i: int) -> bool {
    0 <= i && i + pat.len() <= s.len() && s.subrange(i, i + pat.len()) == pat
}

/// Index of the first occurrence of `pat` in `s` at or after `from`, or the
/// length of `s` where there is none.
pub open spec fn find_from(s: Seq<char>, pat: Seq<char>, from: int) -> int
    decreases s.len() - from,
{
    if from < 0 || from >= s.len() {
        s.len() as int
    } else if occurs_at(s, pat, from) {
        from
    } else {
        find_from(s, pat, from + 1)
    }
}

/// The part of `s` before the first occurrence of `pat`; all of `s` where
/// `pat` does not occur.
pub open spec fn text_before(s: Seq<char>, pat: Seq<char>) -> Seq<char> {
    s.take(find_from(s, pat, 0))
}

/// `find_from` is the least index at or after `from` where `pat` occurs.
pub proof fn lemma_find_from(s: Seq<char>, pat: Seq<char>, from: int)
    requires
        0 <= from,
    ensures
        from <= s.len() ==> from <= find_from(s, pat, from) <= s.len(),
        find_from(s, pat, from) < s.len() ==> occurs_at(s, pat, find_from(s, pat, from)),
        forall|k: int| from <= k < find_from(s, pat, from) ==> !occurs_at(s, pat, k),
    decreases s.len() - from,
{
    if from < s.len() && !occurs_at(s, pat, from) {
        lemma_find_from(s, pat, from + 1);
    }
}

/// True when `pat` stands in `v` at index `i`.
pub fn matches_at(v: &Vec<char>, pat: &Vec<char>, i: usize) -> (b: bool)
    ensures
        b == occurs_at(v@, pat@, i as int),
{
    let m = pat.len();
    if i > v.len() || m > v.len() - i {
        return false;
    }
    let mut j: usize = 0;
    while j < m
        invariant
            m == pat.len(),
            i + m <= v.len(),
            j <= m,
            forall|k: int| 0 <= k < j ==> v@[i + k] == pat@[k],
        decreases m - j,
    {
        if v[i + j] != pat[j] {
            proof {
                assert(v@.subrange(i as int, i + m)[j as int] == v@[i + j]);
            }
            return false;
        }
        j += 1;
    }
    assert(v@.subrange(i as int, i + m) =~= pat@);
    true
}

/// The characters of `v` before the first occurrence of `pat`.
pub fn chars_before(v: &Vec<char>, pat: &Vec<char>) -> (r: Vec<char>)
    ensures
        r@ == text_before(v@, pat@),
{
    let n = v.len();
    let mut i: usize = 0;
    while i < n && !matches_at(v, pat, i)
        invariant
            n == v.len(),
            i <= n,
            find_from(v@, pat@, 0) == find_from(v@, pat@, i as int),
        decreases n - i,
    {
        i += 1;
    }
    copy_range(v, 0, i)
}

/// `s` without `suffix` at its end; `s` itself where it does not end so.
pub open spec fn without_suffix(s: Seq<char>, suffix: Seq<char>) -> Seq<char> {
    if occurs_at(s, suffix, s.len() - suffix.len()) {
        s.take(s.len() - suffix.len())
    } else {
        s
    }
}

/// The characters of `v` without `suffix` at the end.
pub fn strip_suffix(v: &Vec<char>, suffix: &Vec<char>) -> (r: Vec<char>)
    ensures
        r@ == without_suffix(v@, suffix@),
{
    if suffix.len() <= v.len() && matches_at(v, suffix, v.len() - suffix.len()) {
        copy_range(v, 0, v.len() - suffix.len())
    } else {
        let r = copy_range(v, 0, v.len());
        assert(r@ =~= v@);
        r
    }
}

/// The pieces of `s` between occurrences of `c`: one more piece than there are
/// occurrences, so a sequence without `c` is its own single piece.
pub open spec fn split(s: Seq<char>, c: char) -> Seq<Seq<char>>
    decreases s.len(),
{
    let i = find_char(s, c);
    if 0 <= i < s.len() {
        seq![s.take(i)] + split(s.skip(i + 1), c)
    } else {
        seq![s]
    }
}

/// The pieces of `v` between occurrences of `c`.
pub fn split_chars(v: &Vec<char>, c: char) -> (r: Vec<Vec<char>>)
    ensures
        views(r@) == split(v@, c),
{
    let n = v.len();
    let mut r: Vec<Vec<char>> = Vec::new();
    assert(v@.skip(0) =~= v@);
    assert(views(r@) + split(v@, c) =~= split(v@, c));
    let mut start: usize = 0;
    let mut i: usize = 0;
    while i < n
        invariant
            n == v.len(),
            start <= i <= n,
            forall|k: int| start <= k < i ==> #[trigger] v@[k] != c,
            split(v@, c) == views(r@) + split(v@.skip(start as int), c),
        decreases n - i,
    {
        if v[i] == c {
            let piece = copy_range(v, start, i);
            proof {
                let rest = v@.skip(start as int);
                assert forall|k: int| 0 <= k < i - start implies #[trigger] rest[k] != c by {
                    assert(rest[k] == v@[start + k]);
                }
                lemma_find_char_is(rest, c, i - start);
                assert(rest.take(i - start) =~= piece@);
                assert(rest.skip(i - start + 1) =~= v@.skip(i + 1));
                assert(views(r@).push(piece@) + split(v@.skip(i + 1), c) =~= views(r@)
                    + (seq![piece@] + split(v@.skip(i + 1), c)));
            }
            let ghost before = views(r@);
            r.push(piece);
            assert(views(r@) =~= before.push(piece@));
            start = i + 1;
        }
        i += 1;
    }
    let piece = copy_range(v, start, n);
    proof {
        let rest = v@.skip(start as int);
        assert forall|k: int| 0 <= k < rest.len() implies #[trigger] rest[k] != c by {
            assert(rest[k] == v@[start + k]);
        }
        lemma_find_char_is(rest, c, rest.len() as int);
        assert(rest =~= piece@);
    }
    let ghost before = views(r@);
    r.push(piece);
    assert(views(r@) =~= before.push(piece@));
    r
}

/// The items of `parts` in order, with `sep` between neighbours.
pub open spec fn join(parts: Seq<Seq<char>>, sep: Seq<char>) -> Seq<char>
    decreases parts.len(),
{
    if parts.len() == 0 {
        Seq::<char>::empty()
    } else if parts.len() == 1 {
        parts[0]
    } else {
        join(parts.drop_last(), sep) + sep + parts.last()
    }
}

/// The items of `parts` in order, with `sep` between neighbours.
pub fn join_strings(parts: &Vec<String>, sep: &str) -> (r: String)
    ensures
        r@ == join(views(parts@), sep@),
{
    let mut r = String::new();
    let mut i: usize = 0;
    while i < parts.len()
        invariant
            i <= parts.len(),
            r@ == join(views(parts@).take(i as int), sep@),
        decreases parts.len() - i,
    {
        let ghost seen = views(parts@).take(i as int);
        let ghost next = views(parts@).take(i + 1);
        assert(next.drop_last() =~= seen);
        assert(next.last() == parts@[i as int]@);
        if i > 0 {
            r.append(sep);
        } else {
            assert(r@ + parts@[0]@ =~= parts@[0]@);
        }
        r.append(parts[i].as_str());
        i += 1;
    }
    assert(views(parts@).take(parts.len() as int) =~= views(parts@));
    r
}

/// The items of `parts`, each but the first with `pad` before it.
pub open spec fn padded(parts: Seq<Seq<char>>, pad: Seq<char>) -> Seq<Seq<char>> {
    Seq::new(
        parts.len(),
        |k: int|
            if k == 0 {
                parts[k]
            } else {
                pad + parts[k]
            },
    )
}

/// A sequence without `c` is its own single piece.
pub proof fn lemma_split_whole(s: Seq<char>, c: char)
    requires
        !s.contains(c),
    ensures
        split(s, c) == seq![s],
{
    lemma_find_char(s, c);
    if find_char(s, c) < s.len() {
        assert(s.contains(s[find_char(s, c)]));
    }
}

/// Cutting `x`, `c`, `y` at `c` gives the pieces of `x` followed by those of
/// `y`.
pub proof fn lemma_split_concat(x: Seq<char>, y: Seq<char>, c: char)
    ensures
        split(x + seq![c] + y, c) == split(x, c) + split(y, c),
    decreases x.len(),
{
    let s = x + seq![c] + y;
    lemma_find_char(x, c);
    let i = find_char(x, c);
    assert forall|k: int| 0 <= k < i implies #[trigger] s[k] != c by {
        assert(s[k] == x[k]);
    }
    if i < x.len() {
        assert(s[i] == x[i]);
        lemma_find_char_is(s, c, i);
        assert(s.take(i) =~= x.take(i));
        assert(s.skip(i + 1) =~= x.skip(i + 1) + seq![c] + y);
        lemma_split_concat(x.skip(i + 1), y, c);
        assert(seq![x.take(i)] + (split(x.skip(i + 1), c) + split(y, c)) =~= (seq![x.take(i)]
            + split(x.skip(i + 1), c)) + split(y, c));
    } else {
        assert(s[i] == c);
        lemma_find_char_is(s, c, i);
        assert(s.take(i) =~= x);
        assert(s.skip(i + 1) =~= y);
    }
}

/// Joining with `c` and `pad`, then cutting at `c`, gives the items back, each
/// but the first with `pad` before it, as long as `c` stands in none of them.
pub proof fn lemma_split_join(parts: Seq<Seq<char>>, c: char, pad: Seq<char>)
    requires
        parts.len() > 0,
        !pad.contains(c),
        forall|k: int| 0 <= k < parts.len() ==> !(#[trigger] parts[k]).contains(c),
    ensures
        split(join(parts, seq![c] + pad), c) == padded(parts, pad),
    decreases parts.len(),
{
    let sep = seq![c] + pad;
    if parts.len() == 1 {
        lemma_split_whole(parts[0], c);
        assert(padded(parts, pad) =~= seq![parts[0]]);
    } else {
        let init = parts.drop_last();
        let last = pad + parts.last();
        assert forall|k: int| 0 <= k < init.len() implies !(#[trigger] init[k]).contains(c) by {
            assert(init[k] == parts[k]);
        }
        lemma_split_join(init, c, pad);
        assert(join(parts, sep) =~= join(init, sep) + seq![c] + last);
        lemma_split_concat(join(init, sep), last, c);
        assert(!last.contains(c)) by {
            if last.contains(c) {
                let j = choose|j: int| 0 <= j < last.len() && last[j] == c;
                if j < pad.len() {
                    assert(pad.contains(pad[j]));
                } else {
                    assert(parts.last().contains(parts.last()[j - pad.len()]));
                }
            }
        }
        lemma_split_whole(last, c);
        assert(padded(init, pad) + seq![last] =~= padded(parts, pad));
    }
}

/// No piece of a sequence cut at `c` holds `c`.
pub proof fn lemma_split_free(s: Seq<char>, c: char)
    ensures
        forall|k: int| 0 <= k < split(s, c).len() ==> !(#[trigger] split(s, c)[k]).contains(c),
    decreases s.len(),
{
    lemma_find_char(s, c);
    let i = find_char(s, c);
    if i < s.len() {
        lemma_split_free(s.skip(i + 1), c);
        let rest = split(s.skip(i + 1), c);
        assert forall|k: int| 0 <= k < split(s, c).len() implies !(#[trigger] split(
            s,
            c,
        )[k]).contains(c) by {
            if k == 0 {
                assert(split(s, c)[0] == s.take(i));
                if s.take(i).contains(c) {
                    let j = choose|j: int| 0 <= j < s.take(i).len() && s.take(i)[j] == c;
                    assert(s[j] == c);
                }
            } else {
                assert(split(s, c)[k] == rest[k - 1]);
            }
        }
    } else {
        if s.contains(c) {
            let j = choose|j: int| 0 <= j < s.len() && s[j] == c;
            assert(s[j] == c);
        }
    }
}

/// The character that writes the digit `d`.
pub open spec fn digit_char(d: int) -> char {
    if d == 0 {
        '0'
    } else if d == 1 {
        '1'
    } else if d == 2 {
        '2'
    } else if d == 3 {
        '3'
    } else if d == 4 {
        '4'
    } else if d == 5 {
        '5'
    } else if d == 6 {
        '6'
    } else if d == 7 {
        '7'
    } else if d == 8 {
        '8'
    } else {
        '9'
    }
}

/// `n` written in base ten, without leading zeros.
pub open spec fn decimal(n: nat) -> Seq<char>
    decreases n,
{
    if n < 10 {
        seq![digit_char(n as int)]
    } else {
        decimal(n / 10).push(digit_char((n % 10) as int))
    }
}

fn digit_of(d: u64) -> (c: char)
    requires
        d < 10,
    ensures
        c == digit_char(d as int),
{
    if d == 0 {
        '0'
    } else if d == 1 {
        '1'
    } else if d == 2 {
        '2'
    } else if d == 3 {
        '3'
    } else if d == 4 {
        '4'
    } else if d == 5 {
        '5'
    } else if d == 6 {
        '6'
    } else if d == 7 {
        '7'
    } else if d == 8 {
        '8'
    } else {
        '9'
    }
}

/// Appends `n`, written in base ten, to `out`.
pub fn push_decimal(out: &mut String, n: u64)
    ensures
        final(out)@ == old(out)@ + decimal(n as nat),
    decreases n,
{
    if n >= 10 {
        push_decimal(out, n / 10);
    }
    out.push(digit_of(n % 10));
    assert(out@ =~= old(out)@ + decimal(n as nat));
}

} // verus!
