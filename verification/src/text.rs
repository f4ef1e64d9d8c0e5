//! Character-sequence utilities shared by the classifier and the dialog
//! protocol: whitespace trimming and substring search, each specified over
//! `Seq<char>` and implemented on `&str`.

use vstd::prelude::*;

verus! {

/// The whitespace characters recognized when trimming prompt text: the
/// Unicode `White_Space` set, so that trimming agrees with `str::trim`.
pub open spec fn is_space(c: char) -> bool {
    c == ' ' || c == '\t' || c == '\n' || c == '\r' || c == '\u{b}' || c == '\u{c}'
        || c == '\u{85}' || c == '\u{a0}' || c == '\u{1680}' || c == '\u{2000}' || c == '\u{2001}'
        || c == '\u{2002}' || c == '\u{2003}' || c == '\u{2004}' || c == '\u{2005}'
        || c == '\u{2006}' || c == '\u{2007}' || c == '\u{2008}' || c == '\u{2009}'
        || c == '\u{200a}' || c == '\u{2028}' || c == '\u{2029}' || c == '\u{202f}'
        || c == '\u{205f}' || c == '\u{3000}'
}

pub fn is_space_char(c: char) -> (b: bool)
    ensures
        b == is_space(c),
{
    c == ' ' || c == '\t' || c == '\n' || c == '\r' || c == '\u{b}' || c == '\u{c}'
        || c == '\u{85}' || c == '\u{a0}' || c == '\u{1680}' || c == '\u{2000}' || c == '\u{2001}'
        || c == '\u{2002}' || c == '\u{2003}' || c == '\u{2004}' || c == '\u{2005}'
        || c == '\u{2006}' || c == '\u{2007}' || c == '\u{2008}' || c == '\u{2009}'
        || c == '\u{200a}' || c == '\u{2028}' || c == '\u{2029}' || c == '\u{202f}'
        || c == '\u{205f}' || c == '\u{3000}'
}

/// `s` with every leading whitespace character removed.
pub open spec fn trim_start_of(s: Seq<char>) -> Seq<char>
    decreases s.len(),
{
    if s.len() > 0 && is_space(s[0]) {
        trim_start_of(s.drop_first())
    } else {
        s
    }
}

/// `s` with every trailing whitespace character removed.
pub open spec fn trim_end_of(s: Seq<char>) -> Seq<char>
    decreases s.len(),
{
    if s.len() > 0 && is_space(s[s.len() - 1]) {
        trim_end_of(s.drop_last())
    } else {
        s
    }
}

/// `s` with leading and trailing whitespace removed.
pub open spec fn trim_of(s: Seq<char>) -> Seq<char> {
    trim_end_of(trim_start_of(s))
}

proof fn lemma_trim_start_subrange(s: Seq<char>, a: int)
    requires
        0 <= a <= s.len(),
        forall|j: int| 0 <= j < a ==> is_space(s[j]),
        a < s.len() ==> !is_space(s[a]),
    ensures
        trim_start_of(s) == s.subrange(a, s.len() as int),
    decreases s.len(),
{
    if a == 0 {
        assert(s.subrange(0, s.len() as int) =~= s);
    } else {
        let s2 = s.drop_first();
        assert(forall|j: int| 0 <= j < a - 1 ==> is_space(s2[j]));
        lemma_trim_start_subrange(s2, a - 1);
        assert(s2.subrange(a - 1, s2.len() as int) =~= s.subrange(a, s.len() as int));
    }
}

proof fn lemma_trim_end_subrange(s: Seq<char>, b: int)
    requires
        0 <= b <= s.len(),
        forall|j: int| b <= j < s.len() ==> is_space(s[j]),
        b > 0 ==> !is_space(s[b - 1]),
    ensures
        trim_end_of(s) == s.subrange(0, b),
    decreases s.len(),
{
    if b == s.len() {
        assert(s.subrange(0, s.len() as int) =~= s);
    } else {
        let s2 = s.drop_last();
        assert(forall|j: int| b <= j < s2.len() ==> is_space(s2[j]));
        lemma_trim_end_subrange(s2, b);
        assert(s2.subrange(0, b) =~= s.subrange(0, b));
    }
}

/// Removes leading and trailing whitespace, exactly as `trim_of` describes.
pub fn trim_str<'a>(s: &'a str) -> (r: &'a str)
    ensures
        r@ == trim_of(s@),
{
    let n: usize = s.unicode_len();
    let mut a: usize = 0;
    while a < n && is_space_char(s.get_char(a))
        invariant
            0 <= a <= n,
            n == s@.len(),
            forall|j: int| 0 <= j < a ==> is_space(s@[j]),
        decreases n - a,
    {
        a = a + 1;
    }
    let mut b: usize = n;
    while b > a && is_space_char(s.get_char(b - 1))
        invariant
            a <= b <= n,
            n == s@.len(),
            forall|j: int| b <= j < n ==> is_space(s@[j]),
        decreases b,
    {
        b = b - 1;
    }
    proof {
        lemma_trim_start_subrange(s@, a as int);
        let t = s@.subrange(a as int, s@.len() as int);
        lemma_trim_end_subrange(t, b - a);
        assert(t.subrange(0, b - a) =~= s@.subrange(a as int, b as int));
    }
    s.substring_char(a, b)
}

/// The characters of `pat` stand in `s` at position `i`.
pub open spec fn match_at(s: Seq<char>, pat: Seq<char>, i: int) -> bool {
    0 <= i && i + pat.len() <= s.len() && s.subrange(i, i + pat.len() as int) == pat
}

/// `pat` occurs somewhere in `s`.
pub open spec fn contains_sub(s: Seq<char>, pat: Seq<char>) -> bool {
    exists|i: int| match_at(s, pat, i)
}

/// `s` begins with `pat`.
pub open spec fn starts_with_seq(s: Seq<char>, pat: Seq<char>) -> bool {
    pat.len() <= s.len() && s.subrange(0, pat.len() as int) == pat
}

fn matches_at(s: &str, pat: &str, i: usize) -> (b: bool)
    requires
        i + pat@.len() <= s@.len(),
    ensures
        b == match_at(s@, pat@, i as int),
{
    let n: usize = s.unicode_len();
    let m: usize = pat.unicode_len();
    let mut j: usize = 0;
    while j < m
        invariant
            0 <= j <= m,
            n == s@.len(),
            m == pat@.len(),
            i + m <= n,
            forall|k: int| 0 <= k < j ==> s@[i + k] == pat@[k],
        decreases m - j,
    {
        if s.get_char(i + j) != pat.get_char(j) {
            proof {
                if s@.subrange(i as int, i + m) == pat@ {
                    assert(s@.subrange(i as int, i + m)[j as int] == s@[i + j]);
                }
            }
            return false;
        }
        j = j + 1;
    }
    proof {
        assert(s@.subrange(i as int, i + m) =~= pat@);
    }
    true
}

/// Substring test: does `pat` occur anywhere in `s`?
pub fn contains_str(s: &str, pat: &str) -> (b: bool)
    requires
        pat@.len() >= 1,
    ensures
        b == contains_sub(s@, pat@),
{
    let n: usize = s.unicode_len();
    let m: usize = pat.unicode_len();
    if m > n {
        proof {
            assert forall|i: int| !match_at(s@, pat@, i) by {}
        }
        return false;
    }
    let last: usize = n - m;
    let mut i: usize = 0;
    while i <= last
        invariant
            0 <= i <= last + 1,
            n == s@.len(),
            m == pat@.len(),
            1 <= m <= n,
            last == n - m,
            forall|j: int| 0 <= j < i ==> !match_at(s@, pat@, j),
        decreases last + 1 - i,
    {
        if matches_at(s, pat, i) {
            assert(match_at(s@, pat@, i as int));
            return true;
        }
        i = i + 1;
    }
    proof {
        assert forall|j: int| !match_at(s@, pat@, j) by {
            if 0 <= j <= last as int {
                assert(!match_at(s@, pat@, j));
            }
        }
    }
    false
}

/// Index of the first occurrence of `pat` in `s`; `s.len()` when there is
/// none.
pub open spec fn first_match_idx(s: Seq<char>, pat: Seq<char>) -> int
    decreases s.len(),
{
    if pat.len() == 0 {
        0
    } else if s.len() < pat.len() {
        s.len() as int
    } else if s.subrange(0, pat.len() as int) == pat {
        0
    } else {
        1 + first_match_idx(s.drop_first(), pat)
    }
}

proof fn lemma_first_match_idx(s: Seq<char>, pat: Seq<char>)
    requires
        pat.len() >= 1,
    ensures
        0 <= first_match_idx(s, pat) <= s.len(),
        first_match_idx(s, pat) + pat.len() <= s.len() ==> match_at(s, pat, first_match_idx(s, pat)),
        forall|j: int| 0 <= j < first_match_idx(s, pat) ==> !match_at(s, pat, j),
        first_match_idx(s, pat) + pat.len() > s.len() ==> first_match_idx(s, pat) == s.len(),
    decreases s.len(),
{
    let f = first_match_idx(s, pat);
    if s.len() < pat.len() {
    } else if s.subrange(0, pat.len() as int) == pat {
    } else {
        assert(s.len() >= 1);
        let s2 = s.drop_first();
        lemma_first_match_idx(s2, pat);
        let f2 = first_match_idx(s2, pat);
        assert forall|j: int| 0 <= j < f implies !match_at(s, pat, j) by {
            if j == 0 {
                assert(s.subrange(0, pat.len() as int) != pat);
            } else {
                if match_at(s, pat, j) {
                    assert(s.subrange(j, j + pat.len() as int) =~= s2.subrange(
                        j - 1,
                        j - 1 + pat.len() as int,
                    ));
                    assert(match_at(s2, pat, j - 1));
                }
            }
        }
        if f + pat.len() <= s.len() {
            assert(s2.subrange(f2, f2 + pat.len() as int) =~= s.subrange(f, f + pat.len() as int));
        }
    }
}

/// First occurrence of `pat` in `s`, as `first_match_idx` describes it.
pub fn find_sub(s: &str, pat: &str) -> (r: Option<usize>)
    requires
        pat@.len() >= 1,
    ensures
        match r {
            Some(i) => i == first_match_idx(s@, pat@) && match_at(s@, pat@, i as int),
            None => first_match_idx(s@, pat@) == s@.len(),
        },
{
    proof {
        lemma_first_match_idx(s@, pat@);
    }
    let ghost f = first_match_idx(s@, pat@);
    let n: usize = s.unicode_len();
    let m: usize = pat.unicode_len();
    if m > n {
        return None;
    }
    let last: usize = n - m;
    let mut i: usize = 0;
    while i <= last
        invariant
            0 <= i <= last + 1,
            n == s@.len(),
            m == pat@.len(),
            1 <= m <= n,
            last == n - m,
            f == first_match_idx(s@, pat@),
            forall|j: int| 0 <= j < i ==> !match_at(s@, pat@, j),
        decreases last + 1 - i,
    {
        if matches_at(s, pat, i) {
            proof {
                lemma_first_match_idx(s@, pat@);
                if f < i {
                    assert(f < s@.len());
                    assert(f + pat@.len() <= s@.len());
                    assert(match_at(s@, pat@, f));
                    assert(false);
                }
                if f > i {
                    assert(!match_at(s@, pat@, i as int));
                    assert(false);
                }
            }
            return Some(i);
        }
        i = i + 1;
    }
    proof {
        if f + pat@.len() <= s@.len() {
            assert(match_at(s@, pat@, f));
            assert(f <= last as int);
            assert(false);
        }
    }
    None
}

/// Index of the first occurrence of character `c` in `s`; `s.len()` when
/// absent.
pub open spec fn first_idx_of(s: Seq<char>, c: char) -> int
    decreases s.len(),
{
    if s.len() == 0 {
        0
    } else if s[0] == c {
        0
    } else {
        1 + first_idx_of(s.drop_first(), c)
    }
}

proof fn lemma_first_idx_of(s: Seq<char>, c: char)
    ensures
        0 <= first_idx_of(s, c) <= s.len(),
        first_idx_of(s, c) < s.len() ==> s[first_idx_of(s, c)] == c,
        forall|j: int| 0 <= j < first_idx_of(s, c) ==> s[j] != c,
    decreases s.len(),
{
    if s.len() == 0 {
    } else if s[0] == c {
    } else {
        lemma_first_idx_of(s.drop_first(), c);
        assert forall|j: int| 0 <= j < first_idx_of(s, c) implies s[j] != c by {
            if j > 0 {
                assert(s.drop_first()[j - 1] == s[j]);
            }
        }
    }
}

/// Index of the last occurrence of `c` in `s`; `-1` when absent.
pub open spec fn last_idx_of(s: Seq<char>, c: char) -> int
    decreases s.len(),
{
    if s.len() == 0 {
        -1
    } else if s[s.len() - 1] == c {
        s.len() - 1
    } else {
        last_idx_of(s.drop_last(), c)
    }
}

proof fn lemma_last_idx_of(s: Seq<char>, c: char)
    ensures
        -1 <= last_idx_of(s, c) < s.len(),
        last_idx_of(s, c) >= 0 ==> s[last_idx_of(s, c)] == c,
        forall|j: int| last_idx_of(s, c) < j < s.len() ==> s[j] != c,
    decreases s.len(),
{
    if s.len() == 0 {
    } else if s[s.len() - 1] == c {
    } else {
        lemma_last_idx_of(s.drop_last(), c);
        assert forall|j: int| last_idx_of(s, c) < j < s.len() implies s[j] != c by {
            if j < s.len() - 1 {
                assert(s.drop_last()[j] == s[j]);
            }
        }
    }
}

/// Position of the first occurrence of `c`, as `first_idx_of` describes it.
pub fn find_char(s: &str, c: char) -> (r: Option<usize>)
    ensures
        match r {
            Some(i) => i == first_idx_of(s@, c) && i < s@.len(),
            None => first_idx_of(s@, c) == s@.len(),
        },
{
    proof {
        lemma_first_idx_of(s@, c);
    }
    let n: usize = s.unicode_len();
    let mut i: usize = 0;
    while i < n
        invariant
            0 <= i <= n,
            n == s@.len(),
            forall|j: int| 0 <= j < i ==> s@[j] != c,
        decreases n - i,
    {
        if s.get_char(i) == c {
            proof {
                lemma_first_idx_of(s@, c);
                let f = first_idx_of(s@, c);
                if f < i as int {
                    assert(s@[f] != c);
                }
            }
            return Some(i);
        }
        i = i + 1;
    }
    None
}

/// Position of the last occurrence of `c`, as `last_idx_of` describes it.
pub fn rfind_char(s: &str, c: char) -> (r: Option<usize>)
    ensures
        match r {
            Some(i) => i == last_idx_of(s@, c) && i < s@.len(),
            None => last_idx_of(s@, c) == -1,
        },
{
    proof {
        lemma_last_idx_of(s@, c);
    }
    let n: usize = s.unicode_len();
    let mut i: usize = n;
    while i > 0
        invariant
            0 <= i <= n,
            n == s@.len(),
            forall|j: int| i <= j < n ==> s@[j] != c,
        decreases i,
    {
        i = i - 1;
        if s.get_char(i) == c {
            proof {
                lemma_last_idx_of(s@, c);
                let f = last_idx_of(s@, c);
                if f > i as int {
                    assert(s@[f] != c);
                }
            }
            return Some(i);
        }
    }
    None
}

/// Does `s` begin with `pat`?
pub fn starts_with_str(s: &str, pat: &str) -> (b: bool)
    ensures
        b == starts_with_seq(s@, pat@),
{
    let n: usize = s.unicode_len();
    let m: usize = pat.unicode_len();
    if m > n {
        return false;
    }
    matches_at(s, pat, 0)
}

/// The segments of `s` between `'\n'` separators, in order, each with one
/// trailing `'\r'` removed (so `"\r\n"`-separated text splits cleanly);
/// empty when `s` is empty.
pub open spec fn split_lines_of(s: Seq<char>) -> Seq<Seq<char>>
    decreases s.len(),
{
    if s.len() == 0 {
        Seq::empty()
    } else {
        let k = first_idx_of(s, '\n');
        if 0 <= k && k < s.len() {
            seq![strip_cr(s.subrange(0, k))] + split_lines_of(s.subrange(k + 1, s.len() as int))
        } else {
            seq![s]
        }
    }
}

/// Splits on `'\n'`, exactly as `split_lines_of` describes.
pub fn split_lines(s: &str) -> (r: Vec<String>)
    ensures
        r.deep_view() == split_lines_of(s@),
{
    let n: usize = s.unicode_len();
    let mut r: Vec<String> = Vec::new();
    if n == 0 {
        proof {
            assert(r.deep_view() =~~= split_lines_of(s@));
        }
        return r;
    }
    let mut pos: usize = 0;
    proof {
        assert(s@.subrange(0, n as int) =~= s@);
        assert(r.deep_view() + split_lines_of(s@) =~~= split_lines_of(s@));
    }
    while pos < n
        invariant
            0 <= pos <= n,
            n == s@.len(),
            split_lines_of(s@) == r.deep_view() + split_lines_of(
                s@.subrange(pos as int, n as int),
            ),
        decreases n - pos,
    {
        let mut j: usize = pos;
        while j < n && s.get_char(j) != '\n'
            invariant
                pos <= j <= n,
                n == s@.len(),
                forall|k: int| pos <= k < j ==> s@[k] != '\n',
            decreases n - j,
        {
            j = j + 1;
        }
        let end: usize = if j < n && j > pos && s.get_char(j - 1) == '\r' {
            j - 1
        } else {
            j
        };
        let seg: &str = s.substring_char(pos, end);
        let ghost r0 = r.deep_view();
        r.push(seg.to_owned());
        proof {
            assert(r.deep_view() =~~= r0.push(seg@));
            let rest = s@.subrange(pos as int, n as int);
            lemma_first_idx_of(rest, '\n');
            let f = first_idx_of(rest, '\n');
            if j < n {
                assert(rest[j - pos] == '\n');
                assert forall|k: int| 0 <= k < j - pos implies rest[k] != '\n' by {
                    assert(s@[pos + k] != '\n');
                }
                if f < j - pos {
                    assert(rest[f] != '\n');
                    assert(false);
                }
                if f > j - pos {
                    assert(rest[j - pos] != '\n');
                    assert(false);
                }
                let raw = rest.subrange(0, f);
                assert(raw =~= s@.subrange(pos as int, j as int));
                if end < j {
                    assert(raw.len() > 0 && raw[raw.len() - 1] == '\r');
                    assert(strip_cr(raw) =~= seg@);
                } else {
                    assert(strip_cr(raw) =~= seg@);
                }
                assert(rest.subrange(f + 1, rest.len() as int) =~= s@.subrange(
                    j + 1,
                    n as int,
                ));
                assert(split_lines_of(rest) =~~= seq![seg@] + split_lines_of(
                    s@.subrange(j + 1, n as int),
                ));
                assert(split_lines_of(s@) =~~= r.deep_view() + split_lines_of(
                    s@.subrange(j + 1, n as int),
                ));
            } else {
                assert forall|k: int| 0 <= k < rest.len() implies rest[k] != '\n' by {
                    assert(s@[pos + k] != '\n');
                }
                if f < rest.len() {
                    assert(rest[f] != '\n');
                    assert(false);
                }
                assert(rest =~= seg@);
                assert(split_lines_of(rest) =~~= seq![seg@]);
                assert(s@.subrange(n as int, n as int).len() == 0);
                assert(split_lines_of(s@) =~~= r.deep_view() + split_lines_of(
                    s@.subrange(n as int, n as int),
                ));
            }
        }
        pos = if j < n {
            j + 1
        } else {
            n
        };
    }
    proof {
        assert(s@.subrange(n as int, n as int).len() == 0);
        assert(split_lines_of(s@) =~~= r.deep_view());
    }
    r
}

/// `s` with one trailing `':'` removed, when there is one.
pub open spec fn strip_end_colon(s: Seq<char>) -> Seq<char> {
    if s.len() > 0 && s[s.len() - 1] == ':' {
        s.drop_last()
    } else {
        s
    }
}

/// Removes one trailing `':'`, exactly as `strip_end_colon` describes.
pub fn strip_colon_str<'a>(s: &'a str) -> (r: &'a str)
    ensures
        r@ == strip_end_colon(s@),
{
    let n: usize = s.unicode_len();
    if n > 0 && s.get_char(n - 1) == ':' {
        proof {
            assert(s@.subrange(0, n - 1) =~= s@.drop_last());
        }
        s.substring_char(0, n - 1)
    } else {
        s
    }
}

/// `s` with one trailing `'\r'` removed, when there is one.
pub open spec fn strip_cr(s: Seq<char>) -> Seq<char> {
    if s.len() > 0 && s[s.len() - 1] == '\r' {
        s.drop_last()
    } else {
        s
    }
}

/// `s` with one trailing line terminator (`"\n"` or `"\r\n"`) removed,
/// when there is one; everything before it — whitespace included — stays
/// untouched.
pub open spec fn strip_line_end(s: Seq<char>) -> Seq<char> {
    if s.len() > 0 && s[s.len() - 1] == '\n' {
        strip_cr(s.drop_last())
    } else {
        s
    }
}

/// Removes one trailing line terminator, exactly as `strip_line_end`
/// describes.
pub fn strip_line_end_str<'a>(s: &'a str) -> (r: &'a str)
    ensures
        r@ == strip_line_end(s@),
{
    let n: usize = s.unicode_len();
    let mut b: usize = n;
    if b > 0 && s.get_char(b - 1) == '\n' {
        b = b - 1;
        if b > 0 && s.get_char(b - 1) == '\r' {
            b = b - 1;
        }
    }
    proof {
        assert(s@.subrange(0, b as int) =~= strip_line_end(s@));
    }
    s.substring_char(0, b)
}

/// Are `a` and `b` the same text?
pub fn str_eq(a: &str, b: &str) -> (r: bool)
    ensures
        r == (a@ == b@),
{
    let n: usize = a.unicode_len();
    let m: usize = b.unicode_len();
    if n != m {
        return false;
    }
    let r = matches_at(a, b, 0);
    proof {
        assert(a@.subrange(0, m as int) =~= a@);
    }
    r
}

} // verus!
