//! Character-level helpers shared by the parsers: conversion between
//! strings and character vectors, whitespace trimming, line splitting and
//! substring search. Everything is specified over windows `[lo, hi)` of a
//! `Seq<char>`, which lets the parsers work on one character vector
//! without copying.
use vstd::prelude::*;

verus! {

/// `String::push` appends one character.
pub assume_specification[ String::push ](s: &mut String, ch: char)
    ensures
        final(s)@ == old(s)@.push(ch),
;

/// Unicode `White_Space`, the set that `char::is_whitespace`, `str::trim`
/// and the regex class `\s` all use.
pub open spec fn is_ws(c: char) -> bool {
    ||| ('\u{9}' <= c && c <= '\u{d}')
    ||| c == ' '
    ||| c == '\u{85}'
    ||| c == '\u{a0}'
    ||| c == '\u{1680}'
    ||| ('\u{2000}' <= c && c <= '\u{200a}')
    ||| c == '\u{2028}'
    ||| c == '\u{2029}'
    ||| c == '\u{202f}'
    ||| c == '\u{205f}'
    ||| c == '\u{3000}'
}

pub fn is_ws_char(c: char) -> (r: bool)
    ensures
        r == is_ws(c),
{
    ('\u{9}' <= c && c <= '\u{d}') || c == ' ' || c == '\u{85}' || c == '\u{a0}' || c == '\u{1680}'
        || ('\u{2000}' <= c && c <= '\u{200a}') || c == '\u{2028}' || c == '\u{2029}'
        || c == '\u{202f}' || c == '\u{205f}' || c == '\u{3000}'
}

/// The characters of `s`, in order.
pub fn chars_of(s: &str) -> (v: Vec<char>)
    ensures
        v@ == s@,
{
    let mut v: Vec<char> = Vec::new();
    for c in it: s.chars()
        invariant
            v@ == it.seq().take(it.index()),
    {
        v.push(c);
    }
    v
}

/// Appends the characters of `t` to `s`.
pub fn push_all(s: &mut String, t: &str)
    ensures
        final(s)@ == old(s)@ + t@,
{
    let v = chars_of(t);
    let mut i: usize = 0;
    while i < v.len()
        invariant
            i <= v@.len(),
            v@ == t@,
            s@ == old(s)@ + v@.take(i as int),
        decreases v@.len() - i,
    {
        s.push(v[i]);
        i += 1;
        assert(s@ =~= old(s)@ + v@.take(i as int));
    }
    assert(v@.take(i as int) =~= v@);
}

/// The string made of the characters `v[lo..hi)`.
pub fn string_of(v: &Vec<char>, lo: usize, hi: usize) -> (s: String)
    requires
        lo <= hi <= v@.len(),
    ensures
        s@ == v@.subrange(lo as int, hi as int),
{
    let mut s = String::new();
    let mut i = lo;
    while i < hi
        invariant
            lo <= i <= hi <= v@.len(),
            s@ == v@.subrange(lo as int, i as int),
        decreases hi - i,
    {
        s.push(v[i]);
        i += 1;
        assert(s@ =~= v@.subrange(lo as int, i as int));
    }
    s
}

/// The decimal digit `d`.
pub open spec fn digit_char(d: nat) -> char {
    (0x30 + d) as char
}

/// The decimal writing of `n`, as `Display` prints an unsigned integer.
pub open spec fn decimal(n: nat) -> Seq<char>
    decreases n,
{
    if n < 10 {
        seq![digit_char(n)]
    } else {
        decimal(n / 10).push(digit_char(n % 10))
    }
}

/// The character of the decimal digit `d`.
pub fn digit_of(d: u64) -> (c: char)
    requires
        d < 10,
    ensures
        c == digit_char(d as nat),
{
    match d {
        0 => '0',
        1 => '1',
        2 => '2',
        3 => '3',
        4 => '4',
        5 => '5',
        6 => '6',
        7 => '7',
        8 => '8',
        _ => '9',
    }
}

/// Appends the decimal writing of `n` to `s`.
pub fn push_decimal(s: &mut String, n: u64)
    ensures
        final(s)@ == old(s)@ + decimal(n as nat),
    decreases n,
{
    if n >= 10 {
        push_decimal(s, n / 10);
    }
    let c = digit_of(n % 10);
    s.push(c);
    assert(s@ =~= old(s)@ + decimal(n as nat));
}

/// The characters `v[lo..hi)` as a vector.
pub fn sub_vec(v: &Vec<char>, lo: usize, hi: usize) -> (r: Vec<char>)
    requires
        lo <= hi <= v@.len(),
    ensures
        r@ == v@.subrange(lo as int, hi as int),
{
    let mut r: Vec<char> = Vec::new();
    let mut i = lo;
    while i < hi
        invariant
            lo <= i <= hi <= v@.len(),
            r@ == v@.subrange(lo as int, i as int),
        decreases hi - i,
    {
        r.push(v[i]);
        i += 1;
        assert(r@ =~= v@.subrange(lo as int, i as int));
    }
    r
}

/// The result of `str::to_lowercase` on `s` (Unicode lower-case mapping).
pub uninterp spec fn lowercase(s: Seq<char>) -> Seq<char>;

/// Calls `str::to_lowercase`.
#[verifier::external_body]
pub(crate) fn to_lower(s: &str) -> (r: String)
    ensures
        r@ == lowercase(s@),
{
    s.to_lowercase()
}

/// Whether `pat` occurs somewhere in `s` (`str::contains`).
pub open spec fn contains_seq(s: Seq<char>, pat: Seq<char>) -> bool {
    exists|i: int| 0 <= i && i + pat.len() <= s.len() && #[trigger] matches_at(s, i, pat)
}

/// `str::contains` for a pattern string.
pub fn contains_exec(s: &str, pat: &str) -> (r: bool)
    ensures
        r == contains_seq(s@, pat@),
{
    let v = chars_of(s);
    let p = chars_of(pat);
    if p.len() > v.len() {
        return false;
    }
    proof {
        lemma_find_pat(v@, p@, 0, v@.len() as int);
    }
    match find_pat_exec(&v, &p, 0, v.len()) {
        Some(_) => true,
        None => false,
    }
}

/// First index of a non-whitespace character in `[lo, hi)`, or `hi`.
pub open spec fn trim_lo(s: Seq<char>, lo: int, hi: int) -> int
    decreases hi - lo,
{
    if lo < hi && is_ws(s[lo]) {
        trim_lo(s, lo + 1, hi)
    } else {
        lo
    }
}

/// One past the last non-whitespace character in `[lo, hi)`, or `lo`.
pub open spec fn trim_hi(s: Seq<char>, lo: int, hi: int) -> int
    decreases hi - lo,
{
    if lo < hi && is_ws(s[hi - 1]) {
        trim_hi(s, lo, hi - 1)
    } else {
        hi
    }
}

/// `str::trim` on the window `[lo, hi)`: the window without its leading and
/// trailing whitespace.
pub open spec fn trimmed(s: Seq<char>, lo: int, hi: int) -> Seq<char> {
    let a = trim_lo(s, lo, hi);
    s.subrange(a, trim_hi(s, a, hi))
}

/// `str::trim` on a whole sequence.
pub open spec fn trim(s: Seq<char>) -> Seq<char> {
    trimmed(s, 0, s.len() as int)
}

pub proof fn lemma_trim_lo_bounds(s: Seq<char>, lo: int, hi: int)
    requires
        lo <= hi,
    ensures
        lo <= trim_lo(s, lo, hi) <= hi,
        trim_lo(s, lo, hi) < hi ==> !is_ws(s[trim_lo(s, lo, hi)]),
        forall|k: int| lo <= k < trim_lo(s, lo, hi) ==> is_ws(#[trigger] s[k]),
    decreases hi - lo,
{
    if lo < hi && is_ws(s[lo]) {
        lemma_trim_lo_bounds(s, lo + 1, hi);
    }
}

pub proof fn lemma_trim_hi_bounds(s: Seq<char>, lo: int, hi: int)
    requires
        lo <= hi,
    ensures
        lo <= trim_hi(s, lo, hi) <= hi,
        lo < trim_hi(s, lo, hi) ==> !is_ws(s[trim_hi(s, lo, hi) - 1]),
        forall|k: int| trim_hi(s, lo, hi) <= k < hi ==> is_ws(#[trigger] s[k]),
    decreases hi - lo,
{
    if lo < hi && is_ws(s[hi - 1]) {
        lemma_trim_hi_bounds(s, lo, hi - 1);
    }
}

/// Bounds `(a, b)` with `v[a..b) == trimmed(v, lo, hi)`.
pub fn trim_bounds(v: &Vec<char>, lo: usize, hi: usize) -> (r: (usize, usize))
    requires
        lo <= hi <= v@.len(),
    ensures
        r.0 == trim_lo(v@, lo as int, hi as int),
        r.1 == trim_hi(v@, r.0 as int, hi as int),
        lo <= r.0 <= r.1 <= hi,
{
    let mut a = lo;
    while a < hi && is_ws_char(v[a])
        invariant
            lo <= a <= hi <= v@.len(),
            trim_lo(v@, lo as int, hi as int) == trim_lo(v@, a as int, hi as int),
        decreases hi - a,
    {
        a += 1;
    }
    let mut b = hi;
    while a < b && is_ws_char(v[b - 1])
        invariant
            lo <= a <= b <= hi <= v@.len(),
            trim_hi(v@, a as int, hi as int) == trim_hi(v@, a as int, b as int),
        decreases b - a,
    {
        b -= 1;
    }
    (a, b)
}

/// Whether `pat` occurs in `s` at position `i`.
pub open spec fn matches_at(s: Seq<char>, i: int, pat: Seq<char>) -> bool {
    0 <= i && i + pat.len() <= s.len() && s.subrange(i, i + pat.len()) == pat
}

pub fn matches_at_exec(v: &Vec<char>, i: usize, pat: &Vec<char>) -> (r: bool)
    ensures
        r == matches_at(v@, i as int, pat@),
{
    if i > v.len() || pat.len() > v.len() - i {
        return false;
    }
    let mut k: usize = 0;
    while k < pat.len()
        invariant
            i + pat@.len() <= v@.len(),
            i + pat.len() <= v.len(),
            k <= pat@.len(),
            forall|j: int| 0 <= j < k ==> v@[i + j] == pat@[j],
        decreases pat.len() - k,
    {
        if v[i + k] != pat[k] {
            assert(v@.subrange(i as int, i + pat@.len())[k as int] != pat@[k as int]);
            return false;
        }
        k += 1;
    }
    assert(v@.subrange(i as int, i + pat@.len()) =~= pat@);
    true
}

/// Index of the first `c` in `[i, hi)`, or `hi` when there is none.
pub open spec fn find_char(s: Seq<char>, c: char, i: int, hi: int) -> int
    decreases hi - i,
{
    if i >= hi {
        hi
    } else if s[i] == c {
        i
    } else {
        find_char(s, c, i + 1, hi)
    }
}

pub proof fn lemma_find_char(s: Seq<char>, c: char, i: int, hi: int)
    requires
        i <= hi,
    ensures
        i <= find_char(s, c, i, hi) <= hi,
        find_char(s, c, i, hi) < hi ==> s[find_char(s, c, i, hi)] == c,
        forall|k: int| i <= k < find_char(s, c, i, hi) ==> #[trigger] s[k] != c,
    decreases hi - i,
{
    if i < hi && s[i] != c {
        lemma_find_char(s, c, i + 1, hi);
    }
}

pub fn find_char_exec(v: &Vec<char>, c: char, i: usize, hi: usize) -> (r: usize)
    requires
        i <= hi <= v@.len(),
    ensures
        r == find_char(v@, c, i as int, hi as int),
        i <= r <= hi,
{
    let mut k = i;
    while k < hi && v[k] != c
        invariant
            i <= k <= hi <= v@.len(),
            find_char(v@, c, i as int, hi as int) == find_char(v@, c, k as int, hi as int),
        decreases hi - k,
    {
        k += 1;
    }
    k
}

/// Index of the last `c` in `[lo, hi)`, or `None`.
pub open spec fn rfind_char(s: Seq<char>, c: char, lo: int, hi: int) -> Option<int>
    decreases hi - lo,
{
    if hi <= lo {
        None
    } else if s[hi - 1] == c {
        Some(hi - 1)
    } else {
        rfind_char(s, c, lo, hi - 1)
    }
}

pub fn rfind_char_exec(v: &Vec<char>, c: char, lo: usize, hi: usize) -> (r: Option<usize>)
    requires
        lo <= hi <= v@.len(),
    ensures
        r == (match rfind_char(v@, c, lo as int, hi as int) {
            Some(k) => Some(k as usize),
            None => None::<usize>,
        }),
{
    let mut k = hi;
    while k > lo
        invariant
            lo <= k <= hi <= v@.len(),
            rfind_char(v@, c, lo as int, hi as int) == rfind_char(v@, c, lo as int, k as int),
        decreases k - lo,
    {
        if v[k - 1] == c {
            return Some(k - 1);
        }
        k -= 1;
    }
    None
}

pub proof fn lemma_rfind_char(s: Seq<char>, c: char, lo: int, hi: int)
    ensures
        rfind_char(s, c, lo, hi) matches Some(k) ==> lo <= k < hi && s[k] == c,
    decreases hi - lo,
{
    if lo < hi && s[hi - 1] != c {
        lemma_rfind_char(s, c, lo, hi - 1);
    }
}

/// First position `p` in `[i, hi - |pat|]` where `pat` occurs inside
/// `[i, hi)`, or `None`.
pub open spec fn find_pat(s: Seq<char>, pat: Seq<char>, i: int, hi: int) -> Option<int>
    decreases hi - i + 1,
{
    if i + pat.len() > hi {
        None
    } else if matches_at(s, i, pat) {
        Some(i)
    } else {
        find_pat(s, pat, i + 1, hi)
    }
}

pub proof fn lemma_find_pat(s: Seq<char>, pat: Seq<char>, i: int, hi: int)
    requires
        0 <= i,
        hi <= s.len(),
    ensures
        find_pat(s, pat, i, hi) matches Some(p) ==> i <= p && p + pat.len() <= hi && matches_at(s, p, pat),
        forall|k: int| #![auto] i <= k && k + pat.len() <= hi && (match find_pat(s, pat, i, hi) {
            Some(p) => k < p,
            None => true,
        }) ==> !matches_at(s, k, pat),
    decreases hi - i + 1,
{
    if i + pat.len() <= hi && !matches_at(s, i, pat) {
        lemma_find_pat(s, pat, i + 1, hi);
    }
}

pub fn find_pat_exec(v: &Vec<char>, pat: &Vec<char>, i: usize, hi: usize) -> (r: Option<usize>)
    requires
        i <= hi <= v@.len(),
    ensures
        r == (match find_pat(v@, pat@, i as int, hi as int) {
            Some(k) => Some(k as usize),
            None => None::<usize>,
        }),
{
    if pat.len() > hi - i {
        return None;
    }
    let last = hi - pat.len();
    let mut k = i;
    loop
        invariant
            i <= k <= last,
            last + pat@.len() == hi,
            hi <= v@.len(),
            find_pat(v@, pat@, i as int, hi as int) == find_pat(v@, pat@, k as int, hi as int),
        decreases last - k,
    {
        if matches_at_exec(v, k, pat) {
            return Some(k);
        }
        if k == last {
            assert(find_pat(v@, pat@, k + 1, hi as int) is None);
            return None;
        }
        k += 1;
    }
}

/// Last position `p` in `[lo, hi - |pat|]` where `pat` occurs inside
/// `[lo, hi)`, or `None`.
pub open spec fn last_pat(s: Seq<char>, pat: Seq<char>, lo: int, hi: int) -> Option<int>
    decreases hi - lo + 1,
{
    if lo + pat.len() > hi {
        None
    } else if matches_at(s, hi - pat.len(), pat) {
        Some(hi - pat.len())
    } else {
        last_pat(s, pat, lo, hi - 1)
    }
}

pub proof fn lemma_last_pat(s: Seq<char>, pat: Seq<char>, lo: int, hi: int)
    ensures
        last_pat(s, pat, lo, hi) matches Some(p) ==> lo <= p && p + pat.len() <= hi && matches_at(s, p, pat),
    decreases hi - lo + 1,
{
    if lo + pat.len() <= hi && !matches_at(s, hi - pat.len(), pat) {
        lemma_last_pat(s, pat, lo, hi - 1);
    }
}

pub fn last_pat_exec(v: &Vec<char>, pat: &Vec<char>, lo: usize, hi: usize) -> (r: Option<usize>)
    requires
        lo <= hi <= v@.len(),
    ensures
        r == (match last_pat(v@, pat@, lo as int, hi as int) {
            Some(k) => Some(k as usize),
            None => None::<usize>,
        }),
{
    let mut h = hi;
    loop
        invariant
            lo <= h <= hi <= v@.len(),
            last_pat(v@, pat@, lo as int, hi as int) == last_pat(v@, pat@, lo as int, h as int),
        decreases h,
    {
        if pat.len() > h - lo {
            return None;
        }
        if pat.len() == 0 {
            assert(v@.subrange(h as int, h as int) =~= pat@);
            return Some(h);
        }
        if matches_at_exec(v, h - pat.len(), pat) {
            return Some(h - pat.len());
        }
        h -= 1;
    }
}

/// The text between the first `open` of `[lo, hi)` and the first `close`
/// after it (the pattern `open(.*?)close`), as a window.
pub open spec fn delimited(s: Seq<char>, open: Seq<char>, close: Seq<char>, lo: int, hi: int) -> Option<(int, int)> {
    match find_pat(s, open, lo, hi) {
        Some(p) => match find_pat(s, close, p + open.len(), hi) {
            Some(c) => Some((p + open.len(), c)),
            None => None,
        },
        None => None,
    }
}

pub proof fn lemma_delimited(s: Seq<char>, open: Seq<char>, close: Seq<char>, lo: int, hi: int)
    requires
        0 <= lo,
        hi <= s.len(),
    ensures
        delimited(s, open, close, lo, hi) matches Some((a, b)) ==> lo + open.len() <= a <= b && b + close.len() <= hi,
{
    lemma_find_pat(s, open, lo, hi);
    if let Some(p) = find_pat(s, open, lo, hi) {
        lemma_find_pat(s, close, p + open.len(), hi);
    }
}

pub fn delimited_exec(v: &Vec<char>, open: &Vec<char>, close: &Vec<char>, lo: usize, hi: usize) -> (r: Option<(usize, usize)>)
    requires
        lo <= hi <= v@.len(),
    ensures
        r matches Some((a, b)) ==> delimited(v@, open@, close@, lo as int, hi as int) == Some((a as int, b as int))
            && lo <= a <= b && b + close@.len() <= hi,
        r is None ==> delimited(v@, open@, close@, lo as int, hi as int) is None,
{
    proof {
        lemma_find_pat(v@, open@, lo as int, hi as int);
    }
    match find_pat_exec(v, open, lo, hi) {
        Some(p) => {
            proof {
                lemma_find_pat(v@, close@, p + open@.len(), hi as int);
            }
            match find_pat_exec(v, close, p + open.len(), hi) {
                Some(c) => Some((p + open.len(), c)),
                None => None,
            }
        },
        None => None,
    }
}

/// Whether `s` ends with `suffix`.
pub open spec fn ends_with(s: Seq<char>, suffix: Seq<char>) -> bool {
    suffix.len() <= s.len() && s.subrange(s.len() - suffix.len(), s.len() as int) == suffix
}

pub fn ends_with_exec(s: &str, suffix: &str) -> (r: bool)
    ensures
        r == ends_with(s@, suffix@),
{
    let v = chars_of(s);
    let x = chars_of(suffix);
    if x.len() > v.len() {
        return false;
    }
    matches_at_exec(&v, v.len() - x.len(), &x)
}

/// The line of `s` that starts at `pos`, as `str::lines` cuts it: the
/// window `[pos, end)` without its `\n` (and the `\r` just before it),
/// and the position where the next line starts.
pub open spec fn line_at(s: Seq<char>, pos: int) -> (int, int, int) {
    let nl = find_char(s, '\n', pos, s.len() as int);
    if nl >= s.len() {
        (pos, s.len() as int, s.len() as int)
    } else if nl > pos && s[nl - 1] == '\r' {
        (pos, nl - 1, nl + 1)
    } else {
        (pos, nl, nl + 1)
    }
}

pub proof fn lemma_line_at(s: Seq<char>, pos: int)
    requires
        0 <= pos < s.len(),
    ensures
        line_at(s, pos).0 == pos,
        pos <= line_at(s, pos).1 <= line_at(s, pos).2 <= s.len(),
        pos < line_at(s, pos).2,
{
    lemma_find_char(s, '\n', pos, s.len() as int);
}

/// The windows `str::lines` yields for the text that starts at `pos`.
pub open spec fn line_spans(s: Seq<char>, pos: int) -> Seq<(int, int)>
    decreases s.len() - pos,
{
    if pos < 0 || pos >= s.len() {
        seq![]
    } else {
        let (lo, hi, next) = line_at(s, pos);
        proof {
            lemma_line_at(s, pos);
        }
        seq![(lo, hi)] + line_spans(s, next)
    }
}

/// `str::lines`: the lines of `s` without their line terminators.
pub open spec fn lines(s: Seq<char>) -> Seq<Seq<char>> {
    line_spans(s, 0).map_values(|w: (int, int)| s.subrange(w.0, w.1))
}

/// Computes `line_at(v, pos)`.
pub fn line_at_exec(v: &Vec<char>, pos: usize) -> (r: (usize, usize, usize))
    requires
        pos < v@.len(),
    ensures
        (r.0 as int, r.1 as int, r.2 as int) == line_at(v@, pos as int),
        pos <= r.1 <= r.2 <= v@.len(),
        pos < r.2,
{
    proof {
        lemma_line_at(v@, pos as int);
    }
    let nl = find_char_exec(v, '\n', pos, v.len());
    if nl >= v.len() {
        (pos, v.len(), v.len())
    } else if nl > pos && v[nl - 1] == '\r' {
        (pos, nl - 1, nl + 1)
    } else {
        (pos, nl, nl + 1)
    }
}

} // verus!
