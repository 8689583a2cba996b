//! Character-sequence primitives shared by the parsers: Unicode white space,
//! trimming, searching, line splitting and decimal numbers.

use vstd::prelude::*;

verus! {

/// The Unicode `White_Space` property.
pub open spec fn is_ws(c: char) -> bool {
    let u = c as u32;
    ||| 0x09 <= u <= 0x0D
    ||| u == 0x20
    ||| u == 0x85
    ||| u == 0xA0
    ||| u == 0x1680
    ||| 0x2000 <= u <= 0x200A
    ||| u == 0x2028
    ||| u == 0x2029
    ||| u == 0x202F
    ||| u == 0x205F
    ||| u == 0x3000
}

/// Whether `c` has the Unicode `White_Space` property.
pub fn is_whitespace(c: char) -> (b: bool)
    ensures
        b == is_ws(c),
{
    let u = c as u32;
    (0x09 <= u && u <= 0x0D) || u == 0x20 || u == 0x85 || u == 0xA0 || u == 0x1680 || (0x2000
        <= u && u <= 0x200A) || u == 0x2028 || u == 0x2029 || u == 0x202F || u == 0x205F || u
        == 0x3000
}

/// `s` without its leading white space.
pub open spec fn trim_start(s: Seq<char>) -> Seq<char>
    decreases s.len(),
{
    if s.len() > 0 && is_ws(s[0]) {
        trim_start(s.drop_first())
    } else {
        s
    }
}

/// `s` without its trailing white space.
pub open spec fn trim_end(s: Seq<char>) -> Seq<char>
    decreases s.len(),
{
    if s.len() > 0 && is_ws(s.last()) {
        trim_end(s.drop_last())
    } else {
        s
    }
}

/// `s` without leading and trailing white space.
pub open spec fn trim(s: Seq<char>) -> Seq<char> {
    trim_end(trim_start(s))
}

/// Where `s[lo..hi]` starts once its leading white space is dropped.
pub fn trim_start_index(s: &[char], lo: usize, hi: usize) -> (a: usize)
    requires
        lo <= hi <= s@.len(),
    ensures
        lo <= a <= hi,
        s@.subrange(a as int, hi as int) == trim_start(s@.subrange(lo as int, hi as int)),
{
    let mut i = lo;
    while i < hi && is_whitespace(s[i])
        invariant
            lo <= i <= hi <= s@.len(),
            trim_start(s@.subrange(lo as int, hi as int)) == trim_start(
                s@.subrange(i as int, hi as int),
            ),
        decreases hi - i,
    {
        assert(s@.subrange(i as int, hi as int).drop_first() =~= s@.subrange(
            i + 1,
            hi as int,
        ));
        i = i + 1;
    }
    i
}

/// The bounds of `s[lo..hi]` once trimmed: `s[r.0..r.1] == trim(s[lo..hi])`.
pub fn trim_range(s: &[char], lo: usize, hi: usize) -> (r: (usize, usize))
    requires
        lo <= hi <= s@.len(),
    ensures
        lo <= r.0 <= r.1 <= hi,
        s@.subrange(r.0 as int, r.1 as int) == trim(s@.subrange(lo as int, hi as int)),
{
    let mut i = lo;
    while i < hi && is_whitespace(s[i])
        invariant
            lo <= i <= hi <= s@.len(),
            trim_start(s@.subrange(lo as int, hi as int)) == trim_start(
                s@.subrange(i as int, hi as int),
            ),
        decreases hi - i,
    {
        assert(s@.subrange(i as int, hi as int).drop_first() =~= s@.subrange(
            i + 1,
            hi as int,
        ));
        i = i + 1;
    }
    assert(trim_start(s@.subrange(i as int, hi as int)) == s@.subrange(i as int, hi as int));
    let mut j = hi;
    while j > i && is_whitespace(s[j - 1])
        invariant
            lo <= i <= j <= hi <= s@.len(),
            trim_end(s@.subrange(i as int, hi as int)) == trim_end(
                s@.subrange(i as int, j as int),
            ),
        decreases j - i,
    {
        assert(s@.subrange(i as int, j as int).drop_last() =~= s@.subrange(
            i as int,
            j - 1,
        ));
        j = j - 1;
    }
    (i, j)
}


/// First index `i >= k` with `s[i] == c`, or `s.len()` when there is none.
pub open spec fn find_char_from(s: Seq<char>, c: char, k: int) -> int
    decreases s.len() - k,
{
    if k >= s.len() {
        s.len() as int
    } else if 0 <= k && s[k] == c {
        k
    } else {
        find_char_from(s, c, k + 1)
    }
}

/// What `find_char_from` returns, stated by its defining properties.
pub proof fn lemma_find_char(s: Seq<char>, c: char, k: int, j: int)
    requires
        0 <= k <= j <= s.len(),
        forall|i: int| k <= i < j ==> s[i] != c,
        j == s.len() || s[j] == c,
    ensures
        find_char_from(s, c, k) == j,
    decreases j - k,
{
    if k < j {
        lemma_find_char(s, c, k + 1, j);
    }
}

/// `find_char_from` lands on `c` or on the end, past nothing but other characters.
pub proof fn lemma_find_char_bounds(s: Seq<char>, c: char, k: int)
    requires
        0 <= k <= s.len(),
    ensures
        k <= find_char_from(s, c, k) <= s.len(),
        find_char_from(s, c, k) < s.len() ==> s[find_char_from(s, c, k)] == c,
        forall|i: int| k <= i < find_char_from(s, c, k) ==> s[i] != c,
    decreases s.len() - k,
{
    if k < s.len() && s[k] != c {
        lemma_find_char_bounds(s, c, k + 1);
    }
}

/// First index in `s[lo..hi]` that holds `c`, or `hi`.
pub fn find_char(s: &[char], c: char, lo: usize, hi: usize) -> (j: usize)
    requires
        lo <= hi <= s@.len(),
    ensures
        lo <= j <= hi,
        forall|i: int| lo <= i < j ==> s@[i] != c,
        j == hi || s@[j as int] == c,
{
    let mut j = lo;
    while j < hi && s[j] != c
        invariant
            lo <= j <= hi <= s@.len(),
            forall|i: int| lo <= i < j ==> s@[i] != c,
        decreases hi - j,
    {
        j = j + 1;
    }
    j
}

/// `l` without one trailing carriage return.
pub open spec fn strip_cr(l: Seq<char>) -> Seq<char> {
    if l.len() > 0 && l.last() == '\r' {
        l.drop_last()
    } else {
        l
    }
}

/// The lines of `s` from index `k` on: pieces ended by a line feed, each
/// without its line feed and without a carriage return before it; a last
/// piece that has no line feed is kept as it is, and nothing follows a final
/// line feed.
pub open spec fn lines_from(s: Seq<char>, k: int) -> Seq<Seq<char>>
    decreases s.len() - k,
{
    if k < 0 || k >= s.len() {
        seq![]
    } else {
        let j = find_char_from(s, '\n', k);
        proof {
            lemma_find_char_bounds(s, '\n', k);
        }
        if j >= s.len() {
            seq![s.subrange(k, s.len() as int)]
        } else {
            seq![strip_cr(s.subrange(k, j))] + lines_from(s, j + 1)
        }
    }
}

/// The lines of `s`.
pub open spec fn lines(s: Seq<char>) -> Seq<Seq<char>> {
    lines_from(s, 0)
}

/// The next line of `s[k..hi]`: its bounds `(k, e)` once the line ending is
/// left out, and where the following line starts.
pub fn next_line(s: &[char], k: usize, hi: usize) -> (r: (usize, usize))
    requires
        k < hi <= s@.len(),
    ensures
        k <= r.0 <= hi,
        k < r.1 <= hi,
        ({
            let t = s@.subrange(0, hi as int);
            &&& lines_from(t, k as int) == seq![s@.subrange(k as int, r.0 as int)] + lines_from(
                t,
                r.1 as int,
            )
        }),
{
    let j = find_char(s, '\n', k, hi);
    let ghost t = s@.subrange(0, hi as int);
    proof {
        lemma_find_char(t, '\n', k as int, j as int);
    }
    if j == hi {
        assert(lines_from(t, hi as int) == Seq::<Seq<char>>::empty());
        assert(t.subrange(k as int, hi as int) =~= s@.subrange(k as int, hi as int));
        assert(lines_from(t, k as int) =~= seq![s@.subrange(k as int, hi as int)] + lines_from(
            t,
            hi as int,
        ));
        (hi, hi)
    } else {
        let e = if j > k && s[j - 1] == '\r' {
            j - 1
        } else {
            j
        };
        assert(strip_cr(t.subrange(k as int, j as int)) =~= s@.subrange(k as int, e as int));
        (e, j + 1)
    }
}

/// `s` cut at the first `c`: what comes before it and what comes after it.
pub open spec fn split_once(s: Seq<char>, c: char) -> Option<(Seq<char>, Seq<char>)> {
    let j = find_char_from(s, c, 0);
    if j < s.len() {
        Some((s.subrange(0, j), s.subrange(j + 1, s.len() as int)))
    } else {
        None
    }
}

/// `s` split at `c` into at most three pieces, the last one holding the rest.
pub open spec fn splitn3(s: Seq<char>, c: char) -> Seq<Seq<char>> {
    match split_once(s, c) {
        None => seq![s],
        Some((a, r)) => match split_once(r, c) {
            None => seq![a, r],
            Some((b, d)) => seq![a, b, d],
        },
    }
}

/// The part of `s` before the first `c`, or all of `s`.
pub open spec fn first_segment(s: Seq<char>, c: char) -> Seq<char> {
    match split_once(s, c) {
        Some((a, _)) => a,
        None => s,
    }
}

/// Where `c` first occurs in `s[lo..hi]`, as `split_once` of that range sees it.
pub fn split_once_range(s: &[char], c: char, lo: usize, hi: usize) -> (r: Option<usize>)
    requires
        lo <= hi <= s@.len(),
    ensures
        match r {
            Some(j) => lo <= j < hi && split_once(s@.subrange(lo as int, hi as int), c) == Some(
                (s@.subrange(lo as int, j as int), s@.subrange(j + 1, hi as int)),
            ),
            None => split_once(s@.subrange(lo as int, hi as int), c) is None,
        },
{
    let j = find_char(s, c, lo, hi);
    let ghost t = s@.subrange(lo as int, hi as int);
    proof {
        lemma_find_char(t, c, 0, j - lo);
    }
    if j < hi {
        assert(t.subrange(0, j - lo) =~= s@.subrange(lo as int, j as int));
        assert(t.subrange(j - lo + 1, t.len() as int) =~= s@.subrange(j + 1, hi as int));
        Some(j)
    } else {
        None
    }
}

/// Whether `s` begins with `p`.
pub open spec fn starts_with(s: Seq<char>, p: Seq<char>) -> bool {
    p.len() <= s.len() && s.subrange(0, p.len() as int) == p
}

/// Whether `s[lo..hi]` begins with `p`.
pub fn range_starts_with(s: &[char], lo: usize, hi: usize, p: &[char]) -> (b: bool)
    requires
        lo <= hi <= s@.len(),
    ensures
        b == starts_with(s@.subrange(lo as int, hi as int), p@),
{
    if p.len() > hi - lo {
        return false;
    }
    let mut i: usize = 0;
    while i < p.len()
        invariant
            lo <= hi <= s@.len(),
            p@.len() <= hi - lo,
            0 <= i <= p@.len(),
            forall|k: int| 0 <= k < i ==> s@[lo + k] == p@[k],
        decreases p@.len() - i,
    {
        if s[lo + i] != p[i] {
            assert(s@.subrange(lo as int, hi as int).subrange(0, p@.len() as int)[i as int]
                != p@[i as int]);
            return false;
        }
        i = i + 1;
    }
    assert(s@.subrange(lo as int, hi as int).subrange(0, p@.len() as int) =~= p@);
    true
}

/// Whether `s[lo..hi]` is `p`.
pub fn range_eq(s: &[char], lo: usize, hi: usize, p: &[char]) -> (b: bool)
    requires
        lo <= hi <= s@.len(),
    ensures
        b == (s@.subrange(lo as int, hi as int) == p@),
{
    if hi - lo != p.len() {
        return false;
    }
    let b = range_starts_with(s, lo, hi, p);
    assert(s@.subrange(lo as int, hi as int).subrange(0, p@.len() as int) =~= s@.subrange(
        lo as int,
        hi as int,
    ));
    b
}

/// Whether `pat` occurs in `s` at index `i`.
pub open spec fn matches_at<T>(s: Seq<T>, pat: Seq<T>, i: int) -> bool {
    0 <= i && i + pat.len() <= s.len() && s.subrange(i, i + pat.len()) == pat
}

/// First index `i >= k` where `pat` occurs in `s`.
pub open spec fn find_from<T>(s: Seq<T>, pat: Seq<T>, k: int) -> Option<int>
    decreases s.len() + 1 - k,
{
    if k < 0 || k + pat.len() > s.len() {
        None
    } else if matches_at(s, pat, k) {
        Some(k)
    } else {
        find_from(s, pat, k + 1)
    }
}

/// First index where `pat` occurs in `s`.
pub open spec fn find<T>(s: Seq<T>, pat: Seq<T>) -> Option<int> {
    find_from(s, pat, 0)
}

/// `find_from` finds the first occurrence.
pub proof fn lemma_find_first<T>(s: Seq<T>, pat: Seq<T>, k: int, j: int)
    requires
        0 <= k <= j,
        forall|i: int| k <= i < j ==> !matches_at(s, pat, i),
        matches_at(s, pat, j),
    ensures
        find_from(s, pat, k) == Some(j),
    decreases j - k,
{
    if k < j {
        lemma_find_first(s, pat, k + 1, j);
    }
}

/// `find_from` finds nothing where nothing occurs.
pub proof fn lemma_find_none<T>(s: Seq<T>, pat: Seq<T>, k: int)
    requires
        0 <= k,
        forall|i: int| k <= i ==> !matches_at(s, pat, i),
    ensures
        find_from(s, pat, k) is None,
    decreases s.len() + 1 - k,
{
    if k + pat.len() <= s.len() {
        lemma_find_none(s, pat, k + 1);
    }
}

/// What `find_from` returns, stated by its defining properties.
pub proof fn lemma_find_some<T>(s: Seq<T>, pat: Seq<T>, k: int)
    requires
        0 <= k,
        find_from(s, pat, k) is Some,
    ensures
        k <= find_from(s, pat, k)->0,
        matches_at(s, pat, find_from(s, pat, k)->0),
        forall|i: int| k <= i < find_from(s, pat, k)->0 ==> !matches_at(s, pat, i),
    decreases s.len() + 1 - k,
{
    if !matches_at(s, pat, k) {
        lemma_find_some(s, pat, k + 1);
    }
}

/// Where `find_from` finds nothing, `pat` occurs nowhere from `k` on.
pub proof fn lemma_find_none_nowhere<T>(s: Seq<T>, pat: Seq<T>, k: int)
    requires
        0 <= k,
        find_from(s, pat, k) is None,
    ensures
        forall|i: int| k <= i ==> !matches_at(s, pat, i),
    decreases s.len() + 1 - k,
{
    if k + pat.len() <= s.len() {
        lemma_find_none_nowhere(s, pat, k + 1);
    }
}

/// An occurrence in a prefix of `s` is an occurrence in `s` that fits in it.
pub proof fn lemma_matches_prefix<T>(s: Seq<T>, pat: Seq<T>, k: int, i: int)
    requires
        0 <= k <= s.len(),
    ensures
        matches_at(s.subrange(0, k), pat, i) <==> (matches_at(s, pat, i) && i + pat.len() <= k),
{
    if 0 <= i && i + pat.len() <= k {
        assert(s.subrange(0, k).subrange(i, i + pat.len()) =~= s.subrange(i, i + pat.len()));
    }
}

/// Searching a prefix of `s` finds the first occurrence in `s` where it fits
/// in the prefix, and nothing otherwise.
pub proof fn lemma_find_prefix<T>(s: Seq<T>, pat: Seq<T>, k: int)
    requires
        0 <= k <= s.len(),
    ensures
        find(s.subrange(0, k), pat) == match find(s, pat) {
            Some(p) => if p + pat.len() <= k {
                Some(p)
            } else {
                None
            },
            None => None,
        },
{
    let t = s.subrange(0, k);
    assert forall|i: int| matches_at(t, pat, i) <==> (matches_at(s, pat, i) && i + pat.len() <= k) by {
        lemma_matches_prefix(s, pat, k, i);
    }
    match find(s, pat) {
        Some(p) => {
            lemma_find_some(s, pat, 0);
            if p + pat.len() <= k {
                lemma_find_first(t, pat, 0, p);
            } else {
                lemma_find_none(t, pat, 0);
            }
        },
        None => {
            lemma_find_none_nowhere(s, pat, 0);
            lemma_find_none(t, pat, 0);
        },
    }
}

/// Bytes added after the first occurrence of `pat` do not move it.
pub proof fn lemma_find_extend<T>(s: Seq<T>, e: Seq<T>, pat: Seq<T>)
    requires
        find(s, pat) is Some,
    ensures
        find(s + e, pat) == find(s, pat),
{
    let p = find(s, pat)->0;
    let t = s + e;
    lemma_find_some(s, pat, 0);
    assert(t.subrange(0, s.len() as int) =~= s);
    assert forall|i: int| 0 <= i <= p implies matches_at(t, pat, i) == matches_at(s, pat, i) by {
        lemma_matches_prefix(t, pat, s.len() as int, i);
    }
    lemma_find_first(t, pat, 0, p);
}

/// `s` with its ASCII letters in lower case.
pub open spec fn lower_text(s: Seq<char>) -> Seq<char> {
    s.map_values(|c: char| ascii_lower(c))
}

/// Folding case keeps white space white space, and other characters not.
pub proof fn lemma_lower_ws(c: char)
    ensures
        is_ws(ascii_lower(c)) == is_ws(c),
{
}

proof fn lemma_lower_trim_start(s: Seq<char>)
    ensures
        trim_start(lower_text(s)) == lower_text(trim_start(s)),
    decreases s.len(),
{
    if s.len() > 0 {
        lemma_lower_ws(s[0]);
        assert(lower_text(s)[0] == ascii_lower(s[0]));
        if is_ws(s[0]) {
            assert(lower_text(s).drop_first() =~= lower_text(s.drop_first()));
            lemma_lower_trim_start(s.drop_first());
        }
    }
}

proof fn lemma_lower_trim_end(s: Seq<char>)
    ensures
        trim_end(lower_text(s)) == lower_text(trim_end(s)),
    decreases s.len(),
{
    if s.len() > 0 {
        lemma_lower_ws(s.last());
        assert(lower_text(s).last() == ascii_lower(s.last()));
        if is_ws(s.last()) {
            assert(lower_text(s).drop_last() =~= lower_text(s.drop_last()));
            lemma_lower_trim_end(s.drop_last());
        }
    }
}

/// Trimming and folding case can be done in either order.
pub proof fn lemma_lower_trim(s: Seq<char>)
    ensures
        trim_start(lower_text(s)) == lower_text(trim_start(s)),
        trim_end(lower_text(s)) == lower_text(trim_end(s)),
        trim(lower_text(s)) == lower_text(trim(s)),
{
    lemma_lower_trim_start(s);
    lemma_lower_trim_end(s);
    lemma_lower_trim_end(trim_start(s));
}

/// Whether text equals `n` up to ASCII case depends only on its lower-case form.
pub proof fn lemma_eq_ignore_case_lower(a: Seq<char>, b: Seq<char>, n: Seq<char>)
    requires
        lower_text(a) == lower_text(b),
    ensures
        eq_ignore_ascii_case(a, n) == eq_ignore_ascii_case(b, n),
{
    assert(a.len() == lower_text(a).len());
    assert(b.len() == lower_text(b).len());
    if a.len() == b.len() {
        assert forall|i: int| 0 <= i < a.len() implies ascii_lower(a[i]) == ascii_lower(b[i]) by {
            assert(lower_text(a)[i] == ascii_lower(a[i]));
            assert(lower_text(b)[i] == ascii_lower(b[i]));
            assert(lower_text(a)[i] == lower_text(b)[i]);
        }
    }
}

/// Leading white space goes only as far as the first other character.
pub proof fn lemma_trim_start_mid(a: Seq<char>, c: char, b: Seq<char>)
    requires
        !is_ws(c),
    ensures
        trim_start(a + seq![c] + b) == trim_start(a) + seq![c] + b,
    decreases a.len(),
{
    let s = a + seq![c] + b;
    if a.len() == 0 {
        assert(a + seq![c] + b =~= seq![c] + b);
        assert(s[0] == c);
        assert(trim_start(a) =~= a);
        assert(trim_start(a) + seq![c] + b =~= s);
    } else {
        assert(s[0] == a[0]);
        if is_ws(a[0]) {
            assert(s.drop_first() =~= a.drop_first() + seq![c] + b);
            lemma_trim_start_mid(a.drop_first(), c, b);
        }
    }
}

/// Trimming the start twice trims it once.
pub proof fn lemma_trim_start_twice(s: Seq<char>)
    ensures
        trim_start(trim_start(s)) == trim_start(s),
    decreases s.len(),
{
    if s.len() > 0 && is_ws(s[0]) {
        lemma_trim_start_twice(s.drop_first());
    }
}

/// Trimming the start keeps a character out.
pub proof fn lemma_trim_start_lacks(s: Seq<char>, c: char)
    requires
        lacks(s, c),
    ensures
        lacks(trim_start(s), c),
    decreases s.len(),
{
    if s.len() > 0 && is_ws(s[0]) {
        assert forall|i: int| 0 <= i < s.drop_first().len() implies s.drop_first()[i] != c by {
            assert(s.drop_first()[i] == s[i + 1]);
        }
        lemma_trim_start_lacks(s.drop_first(), c);
    }
}

/// Whether `pat` occurs in `s` at `i`.
pub fn chars_match_at(s: &[char], pat: &[char], i: usize) -> (b: bool)
    ensures
        b == matches_at(s@, pat@, i as int),
{
    if i > s.len() || pat.len() > s.len() - i {
        return false;
    }
    let ghost slen = s@.len();
    assert(slen == s.len());
    let mut k: usize = 0;
    while k < pat.len()
        invariant
            i + pat@.len() <= s@.len(),
            s@.len() == slen <= usize::MAX,
            0 <= k <= pat@.len(),
            forall|m: int| 0 <= m < k ==> s@[i + m] == pat@[m],
        decreases pat@.len() - k,
    {
        if s[i + k] != pat[k] {
            assert(s@.subrange(i as int, i + pat@.len())[k as int] != pat@[k as int]);
            return false;
        }
        k = k + 1;
    }
    assert(s@.subrange(i as int, i + pat@.len()) =~= pat@);
    true
}

/// First index where `pat` occurs in `s`.
pub fn chars_find(s: &[char], pat: &[char]) -> (r: Option<usize>)
    ensures
        match r {
            Some(j) => find(s@, pat@) == Some(j as int),
            None => find(s@, pat@) is None,
        },
{
    let mut i: usize = 0;
    while i < s.len()
        invariant
            0 <= i <= s@.len(),
            forall|m: int| 0 <= m < i ==> !matches_at(s@, pat@, m),
        decreases s@.len() - i,
    {
        if chars_match_at(s, pat, i) {
            proof {
                lemma_find_first(s@, pat@, 0, i as int);
            }
            return Some(i);
        }
        i = i + 1;
    }
    if chars_match_at(s, pat, i) {
        proof {
            lemma_find_first(s@, pat@, 0, i as int);
        }
        return Some(i);
    }
    proof {
        assert forall|m: int| 0 <= m implies !matches_at(s@, pat@, m) by {
            if m > s@.len() {
            }
        }
        lemma_find_none(s@, pat@, 0);
    }
    None
}

/// Whether `pat` occurs in `s` at `i`.
pub fn bytes_match_at(s: &[u8], pat: &[u8], i: usize) -> (b: bool)
    ensures
        b == matches_at(s@, pat@, i as int),
{
    if i > s.len() || pat.len() > s.len() - i {
        return false;
    }
    let ghost slen = s@.len();
    assert(slen == s.len());
    let mut k: usize = 0;
    while k < pat.len()
        invariant
            i + pat@.len() <= s@.len(),
            s@.len() == slen <= usize::MAX,
            0 <= k <= pat@.len(),
            forall|m: int| 0 <= m < k ==> s@[i + m] == pat@[m],
        decreases pat@.len() - k,
    {
        if s[i + k] != pat[k] {
            assert(s@.subrange(i as int, i + pat@.len())[k as int] != pat@[k as int]);
            return false;
        }
        k = k + 1;
    }
    assert(s@.subrange(i as int, i + pat@.len()) =~= pat@);
    true
}

/// First index where `pat` occurs in `s`.
pub fn bytes_find(s: &[u8], pat: &[u8]) -> (r: Option<usize>)
    ensures
        match r {
            Some(j) => find(s@, pat@) == Some(j as int),
            None => find(s@, pat@) is None,
        },
{
    let mut i: usize = 0;
    while i < s.len()
        invariant
            0 <= i <= s@.len(),
            forall|m: int| 0 <= m < i ==> !matches_at(s@, pat@, m),
        decreases s@.len() - i,
    {
        if bytes_match_at(s, pat, i) {
            proof {
                lemma_find_first(s@, pat@, 0, i as int);
            }
            return Some(i);
        }
        i = i + 1;
    }
    if bytes_match_at(s, pat, i) {
        proof {
            lemma_find_first(s@, pat@, 0, i as int);
        }
        return Some(i);
    }
    proof {
        lemma_find_none(s@, pat@, 0);
    }
    None
}


/// Whether `c` is an ASCII decimal digit.
pub open spec fn is_digit(c: char) -> bool {
    '0' <= c <= '9'
}

/// The value of the decimal digit `c`.
pub open spec fn digit_val(c: char) -> nat {
    (c as u32 - '0' as u32) as nat
}

/// Whether every character of `d` is a decimal digit.
pub open spec fn all_digits(d: Seq<char>) -> bool {
    forall|i: int| 0 <= i < d.len() ==> is_digit(d[i])
}

/// The value of the decimal numeral `d`, most significant digit first.
pub open spec fn digits_value(d: Seq<char>) -> nat
    decreases d.len(),
{
    if d.len() == 0 {
        0
    } else {
        digits_value(d.drop_last()) * 10 + digit_val(d.last())
    }
}

/// An unsigned decimal number: an optional `+` and at least one digit.
pub open spec fn parse_uint(s: Seq<char>) -> Option<nat> {
    let d = if s.len() > 0 && s[0] == '+' {
        s.drop_first()
    } else {
        s
    };
    if d.len() > 0 && all_digits(d) {
        Some(digits_value(d))
    } else {
        None
    }
}

/// An unsigned decimal number no larger than `max`.
pub open spec fn parse_bounded(s: Seq<char>, max: nat) -> Option<nat> {
    match parse_uint(s) {
        Some(v) => if v <= max {
            Some(v)
        } else {
            None
        },
        None => None,
    }
}

/// An optional machine number as an optional natural number.
pub open spec fn opt_nat(r: Option<u64>) -> Option<nat> {
    match r {
        Some(v) => Some(v as nat),
        None => None,
    }
}

/// A longer numeral is worth at least as much as its prefix.
pub proof fn lemma_digits_value_prefix(d: Seq<char>, k: int)
    requires
        0 <= k <= d.len(),
        all_digits(d),
    ensures
        digits_value(d) >= digits_value(d.subrange(0, k)),
    decreases d.len(),
{
    if k < d.len() {
        assert(d.drop_last().subrange(0, k) =~= d.subrange(0, k));
        lemma_digits_value_prefix(d.drop_last(), k);
        let v = digits_value(d.drop_last());
        assert(v * 10 >= v) by (nonlinear_arith);
    } else {
        assert(d.subrange(0, k) =~= d);
    }
}

/// `s[lo..hi]` read as an unsigned decimal number no larger than `max`.
pub fn parse_decimal(s: &[char], lo: usize, hi: usize, max: u64) -> (r: Option<u64>)
    requires
        lo <= hi <= s@.len(),
    ensures
        opt_nat(r) == parse_bounded(s@.subrange(lo as int, hi as int), max as nat),
{
    let ghost t = s@.subrange(lo as int, hi as int);
    let start = if lo < hi && s[lo] == '+' {
        lo + 1
    } else {
        lo
    };
    let ghost d = s@.subrange(start as int, hi as int);
    assert(d =~= (if t.len() > 0 && t[0] == '+' {
        t.drop_first()
    } else {
        t
    }));
    if start == hi {
        assert(d.len() == 0);
        return None;
    }
    let mut acc: u64 = 0;
    let mut i: usize = start;
    while i < hi
        invariant
            lo <= start <= i <= hi <= s@.len(),
            d == s@.subrange(start as int, hi as int),
            t == s@.subrange(lo as int, hi as int),
            d == (if t.len() > 0 && t[0] == '+' {
                t.drop_first()
            } else {
                t
            }),
            acc <= max,
            forall|k: int| start <= k < i ==> is_digit(s@[k]),
            acc as nat == digits_value(s@.subrange(start as int, i as int)),
        decreases hi - i,
    {
        let c = s[i];
        if !('0' <= c && c <= '9') {
            assert(!is_digit(d[i - start]));
            return None;
        }
        let dv = (c as u32 - '0' as u32) as u64;
        assert(s@.subrange(start as int, i + 1).drop_last() =~= s@.subrange(
            start as int,
            i as int,
        ));
        assert(s@.subrange(start as int, i + 1).last() == c);
        assert(digits_value(s@.subrange(start as int, i + 1)) == acc * 10 + dv);
        if dv > max || acc > (max - dv) / 10 {
            proof {
                assert(acc * 10 + dv > max) by (nonlinear_arith)
                    requires
                        dv > max || acc > (max - dv) / 10,
                        acc <= max,
                ;
                if all_digits(d) {
                    assert(d.subrange(0, i + 1 - start) =~= s@.subrange(start as int, i + 1));
                    lemma_digits_value_prefix(d, i + 1 - start);
                    assert(digits_value(d) > max);
                }
                assert(parse_bounded(t, max as nat) is None);
            }
            return None;
        }
        assert(acc * 10 + dv <= max) by (nonlinear_arith)
            requires
                dv <= max,
                acc <= (max - dv) / 10,
        ;
        acc = acc * 10 + dv;
        i = i + 1;
    }
    assert(s@.subrange(start as int, i as int) =~= d);
    Some(acc)
}

/// The decimal digit character for `n < 10`.
pub open spec fn digit_char(n: nat) -> char {
    seq!['0', '1', '2', '3', '4', '5', '6', '7', '8', '9'][n as int]
}

/// The decimal digit character for `d < 10`.
fn digit_to_char(d: u64) -> (c: char)
    requires
        d < 10,
    ensures
        c == digit_char(d as nat),
        is_digit(c),
        digit_val(c) == d,
{
    match d {
        0 => '0',
        1 => '1',
        2 => '2',
        3 => '3',
        4 => '4',
        5 => '5',
        6 => '6',
        7 => '7',
        8 => '8',
        _ => '9',
    }
}

/// The decimal numeral of `n`, without leading zeros.
pub open spec fn decimal(n: nat) -> Seq<char>
    decreases n,
{
    if n < 10 {
        seq![digit_char(n)]
    } else {
        decimal(n / 10).push(digit_char(n % 10))
    }
}

/// Appends the decimal numeral of `n` to `out`.
pub fn push_decimal(out: &mut Vec<char>, n: u64)
    ensures
        final(out)@ == old(out)@ + decimal(n as nat),
    decreases n,
{
    if n >= 10 {
        push_decimal(out, n / 10);
    }
    let c = digit_to_char(n % 10);
    out.push(c);
}

/// A decimal numeral reads back as the number it was written from.
pub proof fn lemma_decimal_roundtrip(n: nat)
    ensures
        decimal(n).len() > 0,
        all_digits(decimal(n)),
        decimal(n)[0] != '+',
        digits_value(decimal(n)) == n,
        parse_uint(decimal(n)) == Some(n),
    decreases n,
{
    let c = digit_char(n % 10);
    assert(is_digit(c) && digit_val(c) == n % 10 && c != '+');
    let d = decimal(n);
    if n >= 10 {
        lemma_decimal_roundtrip(n / 10);
        assert(d.drop_last() =~= decimal(n / 10));
        assert(n == (n / 10) * 10 + n % 10);
        assert(all_digits(d));
        assert(d.last() == c);
        assert(digits_value(d) == digits_value(decimal(n / 10)) * 10 + digit_val(c));
    } else {
        assert(d.drop_last() =~= Seq::<char>::empty());
        assert(all_digits(d));
        assert(digits_value(d) == digits_value(d.drop_last()) * 10 + digit_val(c));
    }
    assert(digits_value(d) == n);
    assert(d[0] != '+') by {
        if n >= 10 {
            assert(d[0] == decimal(n / 10)[0]);
        }
    }
}

/// `c` with ASCII upper-case letters turned to lower case.
pub open spec fn ascii_lower(c: char) -> char {
    if 'A' <= c <= 'Z' {
        ((c as u32 + 32) as u32) as char
    } else {
        c
    }
}

/// Whether `a` and `b` are equal once ASCII letters are folded to lower case.
pub open spec fn eq_ignore_ascii_case(a: Seq<char>, b: Seq<char>) -> bool {
    a.len() == b.len() && forall|i: int| 0 <= i < a.len() ==> ascii_lower(a[i]) == ascii_lower(
        b[i],
    )
}

/// `c` with ASCII upper-case letters turned to lower case.
pub fn to_ascii_lower(c: char) -> (r: char)
    ensures
        r == ascii_lower(c),
{
    if 'A' <= c && c <= 'Z' {
        ((c as u8) + 32) as char
    } else {
        c
    }
}

/// Whether `s[lo..hi]` equals `p` once ASCII letters are folded to lower case.
pub fn range_eq_ignore_ascii_case(s: &[char], lo: usize, hi: usize, p: &[char]) -> (b: bool)
    requires
        lo <= hi <= s@.len(),
    ensures
        b == eq_ignore_ascii_case(s@.subrange(lo as int, hi as int), p@),
{
    if hi - lo != p.len() {
        return false;
    }
    let mut i: usize = 0;
    while i < p.len()
        invariant
            lo <= hi <= s@.len(),
            hi - lo == p@.len(),
            0 <= i <= p@.len(),
            forall|k: int| 0 <= k < i ==> ascii_lower(s@[lo + k]) == ascii_lower(p@[k]),
        decreases p@.len() - i,
    {
        if to_ascii_lower(s[lo + i]) != to_ascii_lower(p[i]) {
            assert(s@.subrange(lo as int, hi as int)[i as int] == s@[lo + i]);
            return false;
        }
        i = i + 1;
    }
    true
}


/// First index `i >= k` that is not white space, or `s.len()`.
pub open spec fn skip_ws_from(s: Seq<char>, k: int) -> int
    decreases s.len() - k,
{
    if k >= s.len() {
        s.len() as int
    } else if 0 <= k && !is_ws(s[k]) {
        k
    } else {
        skip_ws_from(s, k + 1)
    }
}

/// First index `i >= k` that is white space, or `s.len()`.
pub open spec fn skip_word_from(s: Seq<char>, k: int) -> int
    decreases s.len() - k,
{
    if k >= s.len() {
        s.len() as int
    } else if 0 <= k && is_ws(s[k]) {
        k
    } else {
        skip_word_from(s, k + 1)
    }
}

/// What `skip_ws_from` returns, stated by its defining properties.
pub proof fn lemma_skip_ws(s: Seq<char>, k: int, j: int)
    requires
        0 <= k <= j <= s.len(),
        forall|i: int| k <= i < j ==> is_ws(s[i]),
        j == s.len() || !is_ws(s[j]),
    ensures
        skip_ws_from(s, k) == j,
    decreases j - k,
{
    if k < j {
        lemma_skip_ws(s, k + 1, j);
    }
}

/// What `skip_word_from` returns, stated by its defining properties.
pub proof fn lemma_skip_word(s: Seq<char>, k: int, j: int)
    requires
        0 <= k <= j <= s.len(),
        forall|i: int| k <= i < j ==> !is_ws(s[i]),
        j == s.len() || is_ws(s[j]),
    ensures
        skip_word_from(s, k) == j,
    decreases j - k,
{
    if k < j {
        lemma_skip_word(s, k + 1, j);
    }
}

/// `skip_ws_from` and `skip_word_from` move forward and stay in bounds.
pub proof fn lemma_skip_bounds(s: Seq<char>, k: int)
    requires
        0 <= k <= s.len(),
    ensures
        k <= skip_ws_from(s, k) <= s.len(),
        k <= skip_word_from(s, k) <= s.len(),
        skip_ws_from(s, k) < s.len() ==> !is_ws(s[skip_ws_from(s, k)]),
        k < s.len() && !is_ws(s[k]) ==> skip_word_from(s, k) > k,
    decreases s.len() - k,
{
    if k < s.len() {
        lemma_skip_bounds(s, k + 1);
    }
}

/// The white-space separated words of `s` from index `k` on.
pub open spec fn words_from(s: Seq<char>, k: int) -> Seq<Seq<char>>
    decreases s.len() - k,
{
    if k < 0 || k >= s.len() {
        seq![]
    } else {
        let a = skip_ws_from(s, k);
        proof {
            lemma_skip_bounds(s, k);
        }
        if a >= s.len() {
            seq![]
        } else {
            let b = skip_word_from(s, a);
            proof {
                lemma_skip_bounds(s, a);
            }
            seq![s.subrange(a, b)] + words_from(s, b)
        }
    }
}

/// The white-space separated words of `s`; white space never forms a word.
pub open spec fn words(s: Seq<char>) -> Seq<Seq<char>> {
    words_from(s, 0)
}

/// Where the white space starting at `k` ends.
fn skip_ws(s: &[char], k: usize) -> (j: usize)
    requires
        k <= s@.len(),
    ensures
        j == skip_ws_from(s@, k as int),
        k <= j <= s@.len(),
{
    let mut j = k;
    while j < s.len() && is_whitespace(s[j])
        invariant
            k <= j <= s@.len(),
            forall|i: int| k <= i < j ==> is_ws(s@[i]),
        decreases s@.len() - j,
    {
        j = j + 1;
    }
    proof {
        lemma_skip_ws(s@, k as int, j as int);
    }
    j
}

/// Where the word starting at `k` ends.
fn skip_word(s: &[char], k: usize) -> (j: usize)
    requires
        k <= s@.len(),
    ensures
        j == skip_word_from(s@, k as int),
        k <= j <= s@.len(),
{
    let mut j = k;
    while j < s.len() && !is_whitespace(s[j])
        invariant
            k <= j <= s@.len(),
            forall|i: int| k <= i < j ==> !is_ws(s@[i]),
        decreases s@.len() - j,
    {
        j = j + 1;
    }
    proof {
        lemma_skip_word(s@, k as int, j as int);
    }
    j
}

/// Bounds of the second white-space separated word of `s`, if there is one.
pub fn second_word(s: &[char]) -> (r: Option<(usize, usize)>)
    ensures
        match r {
            Some((a, b)) => a <= b <= s@.len() && words(s@).len() >= 2 && words(s@)[1]
                == s@.subrange(a as int, b as int),
            None => words(s@).len() < 2,
        },
{
    let a0 = skip_ws(s, 0);
    if a0 == s.len() {
        assert(words(s@) == Seq::<Seq<char>>::empty());
        return None;
    }
    let b0 = skip_word(s, a0);
    proof {
        lemma_skip_bounds(s@, a0 as int);
    }
    let a1 = skip_ws(s, b0);
    let ghost rest = words_from(s@, b0 as int);
    assert(words(s@) == seq![s@.subrange(a0 as int, b0 as int)] + rest);
    if a1 == s.len() {
        assert(rest == Seq::<Seq<char>>::empty());
        assert(words(s@).len() == 1);
        return None;
    }
    let b1 = skip_word(s, a1);
    proof {
        lemma_skip_bounds(s@, a1 as int);
    }
    assert(rest == seq![s@.subrange(a1 as int, b1 as int)] + words_from(s@, b1 as int));
    Some((a1, b1))
}

/// The pieces of `s` between occurrences of `c`, from index `k` on.
pub open spec fn segments_from(s: Seq<char>, c: char, k: int) -> Seq<Seq<char>>
    decreases s.len() - k,
{
    if k < 0 || k > s.len() {
        seq![]
    } else {
        let j = find_char_from(s, c, k);
        proof {
            lemma_find_char_bounds(s, c, k);
        }
        if j >= s.len() {
            seq![s.subrange(k, s.len() as int)]
        } else {
            seq![s.subrange(k, j)] + segments_from(s, c, j + 1)
        }
    }
}

/// The pieces of `s` between occurrences of `c`; there is always at least one.
pub open spec fn segments(s: Seq<char>, c: char) -> Seq<Seq<char>> {
    segments_from(s, c, 0)
}


/// Whether `s` has no leading and no trailing white space.
pub open spec fn is_trimmed(s: Seq<char>) -> bool {
    s.len() == 0 || (!is_ws(s[0]) && !is_ws(s.last()))
}

/// Whether `c` does not occur in `s`.
pub open spec fn lacks(s: Seq<char>, c: char) -> bool {
    forall|i: int| 0 <= i < s.len() ==> s[i] != c
}

/// CR LF.
pub open spec fn crlf() -> Seq<char> {
    seq!['\r', '\n']
}

/// A trimmed sequence trims to itself.
pub proof fn lemma_trim_trimmed(s: Seq<char>)
    requires
        is_trimmed(s),
    ensures
        trim(s) == s,
{
    assert(trim_start(s) == s);
}

/// Leading white space does not survive `trim_start`.
pub proof fn lemma_trim_start_ws(w: char, s: Seq<char>)
    requires
        is_ws(w),
    ensures
        trim_start(seq![w] + s) == trim_start(s),
{
    assert((seq![w] + s).drop_first() =~= s);
}

/// Trailing white space does not survive `trim_end`.
pub proof fn lemma_trim_end_ws(s: Seq<char>, w: char)
    requires
        is_ws(w),
    ensures
        trim_end(s + seq![w]) == trim_end(s),
{
    assert((s + seq![w]).drop_last() =~= s);
}

/// Searching a character from a later start of a longer sequence.
pub proof fn lemma_find_char_shift(p: Seq<char>, r: Seq<char>, c: char, k: int)
    requires
        0 <= k <= r.len(),
    ensures
        find_char_from(p + r, c, p.len() + k) == p.len() + find_char_from(r, c, k),
    decreases r.len() - k,
{
    if k < r.len() {
        assert((p + r)[p.len() + k] == r[k]);
        if r[k] != c {
            lemma_find_char_shift(p, r, c, k + 1);
        }
    }
}

/// The lines of a longer sequence from a later start.
pub proof fn lemma_lines_shift(p: Seq<char>, r: Seq<char>, k: int)
    requires
        0 <= k <= r.len(),
    ensures
        lines_from(p + r, p.len() + k) == lines_from(r, k),
    decreases r.len() - k,
{
    let s = p + r;
    if k < r.len() {
        lemma_find_char_shift(p, r, '\n', k);
        lemma_find_char_bounds(r, '\n', k);
        let j = find_char_from(r, '\n', k);
        if j >= r.len() {
            assert(s.subrange(p.len() + k, s.len() as int) =~= r.subrange(k, r.len() as int));
        } else {
            assert(s.subrange(p.len() + k, p.len() + j) =~= r.subrange(k, j));
            lemma_lines_shift(p, r, j + 1);
            assert(p.len() + j + 1 == p.len() + (j + 1));
        }
    }
}

/// A line ended by CR LF comes first among the lines.
pub proof fn lemma_lines_crlf(a: Seq<char>, b: Seq<char>)
    requires
        lacks(a, '\n'),
    ensures
        lines(a + crlf() + b) == seq![a] + lines(b),
{
    let s = a + crlf() + b;
    let pre = a + crlf();
    assert(s =~= pre + b);
    assert(s[a.len() as int] == '\r');
    assert(s[a.len() as int + 1] == '\n');
    assert forall|i: int| 0 <= i < a.len() + 1 implies s[i] != '\n' by {
        if i < a.len() {
            assert(s[i] == a[i]);
        }
    }
    lemma_find_char(s, '\n', 0, a.len() as int + 1);
    assert(s.subrange(0, a.len() as int + 1) =~= a.push('\r'));
    assert(a.push('\r').drop_last() =~= a);
    lemma_lines_shift(pre, b, 0);
    assert(pre.len() + 0 == a.len() + 1 + 1);
}

/// A non-empty line without a line feed is the only line.
pub proof fn lemma_lines_single(a: Seq<char>)
    requires
        lacks(a, '\n'),
        a.len() > 0,
    ensures
        lines(a) == seq![a],
{
    lemma_find_char(a, '\n', 0, a.len() as int);
    assert(a.subrange(0, a.len() as int) =~= a);
}

/// Cutting at the first `c` of `a c b`, where `a` lacks `c`.
pub proof fn lemma_split_once_at(a: Seq<char>, c: char, b: Seq<char>)
    requires
        lacks(a, c),
    ensures
        split_once(a + seq![c] + b, c) == Some((a, b)),
{
    let s = a + seq![c] + b;
    assert forall|i: int| 0 <= i < a.len() implies s[i] != c by {
        assert(s[i] == a[i]);
    }
    lemma_find_char(s, c, 0, a.len() as int);
    assert(s.subrange(0, a.len() as int) =~= a);
    assert(s.subrange(a.len() as int + 1, s.len() as int) =~= b);
}

/// Nothing occurs before `m`: searching from `k` is searching from `m`.
pub proof fn lemma_find_skip<T>(s: Seq<T>, pat: Seq<T>, k: int, m: int)
    requires
        0 <= k <= m,
        forall|i: int| k <= i < m ==> !matches_at(s, pat, i),
    ensures
        find_from(s, pat, k) == find_from(s, pat, m),
    decreases m - k,
{
    if k < m {
        lemma_find_skip(s, pat, k + 1, m);
    }
}

/// Searching a longer sequence from a later start.
pub proof fn lemma_find_shift<T>(p: Seq<T>, r: Seq<T>, pat: Seq<T>, k: int)
    requires
        0 <= k,
    ensures
        find_from(p + r, pat, p.len() + k) == match find_from(r, pat, k) {
            Some(i) => Some(p.len() + i),
            None => None,
        },
    decreases r.len() + 1 - k,
{
    let s = p + r;
    if k + pat.len() <= r.len() {
        assert(s.subrange(p.len() + k, p.len() + k + pat.len()) =~= r.subrange(
            k,
            k + pat.len(),
        ));
        if !matches_at(r, pat, k) {
            lemma_find_shift(p, r, pat, k + 1);
            assert(p.len() + k + 1 == p.len() + (k + 1));
        }
    }
}

} // verus!
