//! Reading an indexer's answer. A page of loose magnets yields each
//! distinct `magnet:?` URI once, titled by its `dn` parameter; an RSS feed
//! yields one result per `<item>` that has a title and a magnet (or an
//! info-hash to build one from). The grammar of both is stated here as
//! spec functions on the text, in the order of preference of the patterns
//! it follows.
use vstd::prelude::*;
use crate::text::{
    chars_of, find_char, find_char_exec, find_pat, find_pat_exec, is_ws, is_ws_char,
    lemma_find_char, lemma_find_pat, lemma_trim_lo_bounds, matches_at, matches_at_exec,
    push_all, string_of, trim_bounds, trim_lo, trimmed,
};
use crate::percent::{url_decode, url_decoded, url_encode, url_encoded};
use crate::indexers::{IndexerResult, ResultModel};
use crate::iptv::opt_view;

verus! {

// ----------------------------------------------------------------------
// Magnets

/// A character that can continue a magnet URI: anything but whitespace,
/// quotes, angle brackets and `]` (which closes a CDATA section).
pub open spec fn magnet_char(c: char) -> bool {
    !is_ws(c) && c != '"' && c != '\'' && c != '<' && c != '>' && c != ']'
}

/// The first index in `[i, hi)` of a character that cannot continue a
/// magnet URI, or `hi`.
pub open spec fn magnet_run_end(s: Seq<char>, i: int, hi: int) -> int
    decreases hi - i,
{
    if i >= hi {
        hi
    } else if !magnet_char(s[i]) {
        i
    } else {
        magnet_run_end(s, i + 1, hi)
    }
}

/// The first magnet URI of the window `[p, hi)`: `magnet:?` followed by
/// the longest non-empty run of magnet characters.
pub open spec fn magnet_at(s: Seq<char>, p: int, hi: int) -> Option<(int, int)>
    decreases hi - p,
{
    if p + 8 >= hi {
        None
    } else if matches_at(s, p, "magnet:?"@) && magnet_char(s[p + 8]) {
        Some((p, magnet_run_end(s, p + 9, hi)))
    } else {
        magnet_at(s, p + 1, hi)
    }
}

pub proof fn lemma_magnet_run_end(s: Seq<char>, i: int, hi: int)
    requires
        i <= hi,
    ensures
        i <= magnet_run_end(s, i, hi) <= hi,
    decreases hi - i,
{
    if i < hi && magnet_char(s[i]) {
        lemma_magnet_run_end(s, i + 1, hi);
    }
}

pub proof fn lemma_magnet_at(s: Seq<char>, p: int, hi: int)
    ensures
        magnet_at(s, p, hi) matches Some((a, b)) ==> p <= a && a + 9 <= b <= hi,
    decreases hi - p,
{
    if p + 8 < hi {
        if matches_at(s, p, "magnet:?"@) && magnet_char(s[p + 8]) {
            lemma_magnet_run_end(s, p + 9, hi);
        } else {
            lemma_magnet_at(s, p + 1, hi);
        }
    }
}

/// The magnet URIs of `[p, hi)` in order, each search resuming where the
/// previous URI ends.
pub open spec fn magnet_spans(s: Seq<char>, p: int, hi: int) -> Seq<(int, int)>
    decreases hi - p,
{
    match magnet_at(s, p, hi) {
        Some((a, b)) => {
            proof {
                lemma_magnet_at(s, p, hi);
            }
            seq![(a, b)] + magnet_spans(s, b, hi)
        },
        None => seq![],
    }
}

/// The magnet URIs of `s`, in order of appearance, repeats included.
pub open spec fn magnets(s: Seq<char>) -> Seq<Seq<char>> {
    magnet_spans(s, 0, s.len() as int).map_values(|w: (int, int)| s.subrange(w.0, w.1))
}

/// `xs` with every element after its first occurrence removed.
pub open spec fn dedup(xs: Seq<Seq<char>>) -> Seq<Seq<char>>
    decreases xs.len(),
{
    if xs.len() == 0 {
        seq![]
    } else {
        let d = dedup(xs.drop_last());
        if d.contains(xs.last()) {
            d
        } else {
            d.push(xs.last())
        }
    }
}

/// The value of the first `&`-separated parameter of `m` that starts with
/// `dn=`, searching from the parameter that starts at `i`.
pub open spec fn dn_value(m: Seq<char>, i: int) -> Option<Seq<char>>
    decreases m.len() - i,
{
    if i < 0 || i > m.len() {
        None
    } else {
        let e = find_char(m, '&', i, m.len() as int);
        proof {
            lemma_find_char(m, '&', i, m.len() as int);
        }
        if i + 3 <= e && matches_at(m, i, "dn="@) {
            Some(m.subrange(i + 3, e))
        } else if e >= m.len() {
            None
        } else {
            dn_value(m, e + 1)
        }
    }
}

/// `+` read as a space.
pub open spec fn plus_to_space(t: Seq<char>) -> Seq<char> {
    t.map_values(|c: char| if c == '+' { ' ' } else { c })
}

/// The title given to a magnet without a usable `dn`.
pub open spec fn untitled() -> Seq<char> {
    "(sin título)"@
}

/// The title of a magnet: its `dn` parameter percent-decoded, with `+`
/// read as a space.
pub open spec fn dn_title(m: Seq<char>) -> Seq<char> {
    match dn_value(m, 0) {
        Some(d) => match url_decoded(d) {
            Some(t) => plus_to_space(t),
            None => untitled(),
        },
        None => untitled(),
    }
}

pub open spec fn magnet_result(m: Seq<char>) -> ResultModel {
    ResultModel { title: dn_title(m), magnet: m, size: None, seeders: None, source_indexer: seq![] }
}

/// What `magnet_list` returns for the page `s`.
pub open spec fn magnet_list_of(s: Seq<char>) -> Seq<ResultModel> {
    dedup(magnets(s)).map_values(|m: Seq<char>| magnet_result(m))
}

fn magnet_char_exec(c: char) -> (r: bool)
    ensures
        r == magnet_char(c),
{
    !is_ws_char(c) && c != '"' && c != '\'' && c != '<' && c != '>' && c != ']'
}

fn magnet_at_exec(v: &Vec<char>, p: usize, hi: usize) -> (r: Option<(usize, usize)>)
    requires
        p <= hi <= v@.len(),
    ensures
        r matches Some((a, b)) ==> magnet_at(v@, p as int, hi as int) == Some((a as int, b as int)),
        r is None ==> magnet_at(v@, p as int, hi as int) is None,
        r matches Some((a, b)) ==> p <= a && a + 9 <= b <= hi,
{
    let pat = chars_of("magnet:?");
    proof {
        reveal_strlit("magnet:?");
        lemma_magnet_at(v@, p as int, hi as int);
    }
    let mut k = p;
    while hi - k > 8
        invariant
            p <= k <= hi <= v@.len(),
            pat@ == "magnet:?"@,
            magnet_at(v@, p as int, hi as int) == magnet_at(v@, k as int, hi as int),
        decreases hi - k,
    {
        if matches_at_exec(v, k, &pat) && magnet_char_exec(v[k + 8]) {
            let mut e = k + 9;
            while e < hi && magnet_char_exec(v[e])
                invariant
                    k + 9 <= e <= hi <= v@.len(),
                    magnet_run_end(v@, k + 9, hi as int) == magnet_run_end(v@, e as int, hi as int),
                decreases hi - e,
            {
                e += 1;
            }
            return Some((k, e));
        }
        k += 1;
    }
    None
}

fn magnet_spans_exec(v: &Vec<char>) -> (r: Vec<(usize, usize)>)
    ensures
        r@.map_values(|w: (usize, usize)| (w.0 as int, w.1 as int)) == magnet_spans(v@, 0, v@.len() as int),
        forall|i: int| 0 <= i < r@.len() ==> #[trigger] r@[i].0 <= r@[i].1 <= v@.len(),
{
    let hi = v.len();
    let mut out: Vec<(usize, usize)> = Vec::new();
    let mut p: usize = 0;
    loop
        invariant
            p <= hi == v@.len(),
            out@.map_values(|w: (usize, usize)| (w.0 as int, w.1 as int)) + magnet_spans(v@, p as int, hi as int)
                == magnet_spans(v@, 0, hi as int),
            forall|i: int| 0 <= i < out@.len() ==> #[trigger] out@[i].0 <= out@[i].1 <= v@.len(),
        decreases hi - p,
    {
        proof {
            lemma_magnet_at(v@, p as int, hi as int);
        }
        match magnet_at_exec(v, p, hi) {
            Some((a, b)) => {
                let ghost before = out@.map_values(|w: (usize, usize)| (w.0 as int, w.1 as int));
                out.push((a, b));
                proof {
                    assert(out@.map_values(|w: (usize, usize)| (w.0 as int, w.1 as int)) =~= before.push((a as int, b as int)));
                    assert(magnet_spans(v@, p as int, hi as int) =~= seq![(a as int, b as int)] + magnet_spans(v@, b as int, hi as int));
                    assert(before.push((a as int, b as int)) + magnet_spans(v@, b as int, hi as int)
                        =~= before + magnet_spans(v@, p as int, hi as int));
                }
                p = b;
            },
            None => {
                proof {
                    assert(out@.map_values(|w: (usize, usize)| (w.0 as int, w.1 as int)) + magnet_spans(v@, p as int, hi as int)
                        =~= out@.map_values(|w: (usize, usize)| (w.0 as int, w.1 as int)));
                }
                return out;
            },
        }
    }
}

fn dn_value_exec(m: &Vec<char>) -> (r: Option<(usize, usize)>)
    ensures
        r matches Some((x, y)) ==> x <= y <= m@.len() && dn_value(m@, 0) == Some(m@.subrange(x as int, y as int)),
        r is None ==> dn_value(m@, 0) is None,
{
    let pat = chars_of("dn=");
    let mut i: usize = 0;
    loop
        invariant
            i <= m@.len(),
            pat@ == "dn="@,
            dn_value(m@, 0) == dn_value(m@, i as int),
        decreases m@.len() - i,
    {
        let e = find_char_exec(m, '&', i, m.len());
        if e - i >= 3 && matches_at_exec(m, i, &pat) {
            return Some((i + 3, e));
        }
        if e >= m.len() {
            return None;
        }
        i = e + 1;
    }
}

fn plus_to_space_exec(t: &str) -> (r: String)
    ensures
        r@ == plus_to_space(t@),
{
    let v = chars_of(t);
    let mut out = String::new();
    let mut i: usize = 0;
    while i < v.len()
        invariant
            i <= v@.len(),
            v@ == t@,
            out@ == plus_to_space(v@.take(i as int)),
        decreases v@.len() - i,
    {
        let c = v[i];
        if c == '+' {
            out.push(' ');
        } else {
            out.push(c);
        }
        i += 1;
        assert(out@ =~= plus_to_space(v@.take(i as int)));
    }
    assert(v@.take(i as int) =~= v@);
    out
}

fn dn_title_exec(m: &Vec<char>) -> (r: String)
    ensures
        r@ == dn_title(m@),
{
    proof {
        reveal_strlit("(sin título)");
    }
    match dn_value_exec(m) {
        Some((x, y)) => {
            let d = string_of(m, x, y);
            match url_decode(d.as_str()) {
                Some(t) => plus_to_space_exec(t.as_str()),
                None => "(sin título)".to_owned(),
            }
        },
        None => "(sin título)".to_owned(),
    }
}

/// A page with loose magnets: every distinct `magnet:?` URI of the page,
/// in order of first appearance, titled by its `dn` parameter
/// (percent-decoded, `+` read as a space) or `(sin título)` without one.
pub fn magnet_list(body: &str) -> (r: Vec<IndexerResult>)
    ensures
        r@.map_values(|x: IndexerResult| x@) == magnet_list_of(body@),
{
    let v = chars_of(body);
    let spans = magnet_spans_exec(&v);
    let ghost ms = magnets(v@);
    proof {
        assert(ms.len() == spans@.len());
        assert forall|i: int| 0 <= i < spans@.len() implies ms[i] == v@.subrange(
            spans@[i].0 as int,
            spans@[i].1 as int,
        ) by {
            assert(spans@.map_values(|w: (usize, usize)| (w.0 as int, w.1 as int))[i] == (
            spans@[i].0 as int, spans@[i].1 as int));
        }
    }
    let mut out: Vec<IndexerResult> = Vec::new();
    let ghost mut kept: Seq<Seq<char>> = seq![];
    let mut i: usize = 0;
    while i < spans.len()
        invariant
            i <= spans@.len() == ms.len(),
            v@ == body@,
            ms == magnets(v@),
            forall|j: int| 0 <= j < spans@.len() ==> #[trigger] spans@[j].0 <= spans@[j].1 <= v@.len(),
            forall|j: int| 0 <= j < spans@.len() ==> ms[j] == v@.subrange(#[trigger] spans@[j].0 as int, spans@[j].1 as int),
            kept == dedup(ms.take(i as int)),
            out@.map_values(|x: IndexerResult| x@) == kept.map_values(|m: Seq<char>| magnet_result(m)),
        decreases spans@.len() - i,
    {
        let (a, b) = spans[i];
        let m = string_of(&v, a, b);
        assert(m@ == ms[i as int]);
        let mut dup = false;
        let mut j: usize = 0;
        assert(out@.map_values(|x: IndexerResult| x@).len() == out@.len());
        while j < out.len()
            invariant
                j <= out@.len(),
                out@.len() == kept.len(),
                out@.map_values(|x: IndexerResult| x@) == kept.map_values(|m: Seq<char>| magnet_result(m)),
                dup <==> exists|k: int| 0 <= k < j && kept[k] == m@,
            decreases out@.len() - j,
        {
            assert(out@.map_values(|x: IndexerResult| x@)[j as int] == magnet_result(kept[j as int]));
            if out[j].magnet == m {
                dup = true;
            }
            j += 1;
        }
        let ghost prev = kept;
        proof {
            assert(ms.take(i + 1).drop_last() =~= ms.take(i as int));
            assert(ms.take(i + 1).last() == ms[i as int]);
            assert(dup == prev.contains(m@));
        }
        if !dup {
            let ghost before = out@.map_values(|x: IndexerResult| x@);
            let mv = chars_of(m.as_str());
            let title = dn_title_exec(&mv);
            let item = IndexerResult { title, magnet: m, size: None, seeders: None, source_indexer: String::new() };
            assert(item@ == magnet_result(ms[i as int]));
            let ghost iv = item@;
            out.push(item);
            proof {
                kept = prev.push(ms[i as int]);
                assert(out@.map_values(|x: IndexerResult| x@) =~= before.push(iv));
                assert(kept.map_values(|m: Seq<char>| magnet_result(m)) =~= prev.map_values(|m: Seq<char>| magnet_result(m)).push(iv));
                assert(out@.map_values(|x: IndexerResult| x@) =~= kept.map_values(|m: Seq<char>| magnet_result(m)));
            }
        }
        i += 1;
    }
    proof {
        assert(ms.take(i as int) =~= ms);
    }
    out
}

// ----------------------------------------------------------------------
// RSS

pub open spec fn is_alnum(c: char) -> bool {
    ('a' <= c && c <= 'z') || ('A' <= c && c <= 'Z') || ('0' <= c && c <= '9')
}

/// The first index in `[i, hi)` of a character that is not an ASCII letter
/// or digit, or `hi`.
pub open spec fn alnum_end(s: Seq<char>, i: int, hi: int) -> int
    decreases hi - i,
{
    if i >= hi {
        hi
    } else if is_alnum(s[i]) {
        alnum_end(s, i + 1, hi)
    } else {
        i
    }
}

/// `w` occurs at `i` inside the window that ends at `hi`.
pub open spec fn word_at(s: Seq<char>, i: int, hi: int, w: Seq<char>) -> bool {
    i + w.len() <= hi && matches_at(s, i, w)
}

/// An opening element `<tag` or `<prefix:tag` (prefix alphanumeric) at
/// `p`: where the element's name ends. The prefixed reading is preferred.
pub open spec fn open_name_end(s: Seq<char>, tag: Seq<char>, p: int, hi: int) -> Option<int> {
    if !(0 <= p < hi && s[p] == '<') {
        None
    } else {
        let r = alnum_end(s, p + 1, hi);
        if p + 1 < r < hi && s[r] == ':' && word_at(s, r + 1, hi, tag) {
            Some(r + 1 + tag.len())
        } else if word_at(s, p + 1, hi, tag) {
            Some(p + 1 + tag.len())
        } else {
            None
        }
    }
}

/// A closing element `</tag>` or `</prefix:tag>` at `c`.
pub open spec fn close_at(s: Seq<char>, tag: Seq<char>, c: int, hi: int) -> bool {
    let r = alnum_end(s, c + 2, hi);
    &&& 0 <= c
    &&& c + 2 <= hi
    &&& s[c] == '<'
    &&& s[c + 1] == '/'
    &&& {
        ||| (c + 2 < r < hi && s[r] == ':' && word_at(s, r + 1, hi, tag) && r + 1 + tag.len() < hi && s[r + 1
            + tag.len()] == '>')
        ||| (word_at(s, c + 2, hi, tag) && c + 2 + tag.len() < hi && s[c + 2 + tag.len()] == '>')
    }
}

/// Where the content of a CDATA section that starts at `k` ends: the first
/// `]]>` at or after `k` that is followed, past whitespace, by the closing
/// element.
pub open spec fn cdata_end(s: Seq<char>, tag: Seq<char>, k: int, hi: int) -> Option<int>
    decreases hi - k,
{
    if k + 3 > hi {
        None
    } else if matches_at(s, k, "]]>"@) && close_at(s, tag, trim_lo(s, k + 3, hi), hi) {
        Some(k)
    } else {
        cdata_end(s, tag, k + 1, hi)
    }
}

/// The text of the first element `tag` in `[p, hi)`, searched from `p`: the
/// content of a CDATA section when the element holds one (past leading
/// whitespace), else the text up to the next `<`, which must start the
/// closing element. The window of that text.
pub open spec fn tag_span(s: Seq<char>, tag: Seq<char>, p: int, hi: int) -> Option<(int, int)>
    decreases hi - p,
{
    if p >= hi {
        None
    } else {
        match open_name_end(s, tag, p, hi) {
            None => tag_span(s, tag, p + 1, hi),
            Some(e) => {
                let gt = find_char(s, '>', e, hi);
                if gt >= hi {
                    tag_span(s, tag, p + 1, hi)
                } else {
                    let w = trim_lo(s, gt + 1, hi);
                    let cd = if w + 9 <= hi && matches_at(s, w, "<![CDATA["@) {
                        cdata_end(s, tag, w + 9, hi)
                    } else {
                        None
                    };
                    match cd {
                        Some(k) => Some((w + 9, k)),
                        None => {
                            let q = find_char(s, '<', w, hi);
                            if q < hi && close_at(s, tag, q, hi) {
                                Some((w, q))
                            } else {
                                tag_span(s, tag, p + 1, hi)
                            }
                        },
                    }
                }
            },
        }
    }
}

/// The trimmed text of the first element `tag` of `[lo, hi)`; `None` when
/// there is none or it is blank.
pub open spec fn capture(s: Seq<char>, tag: Seq<char>, lo: int, hi: int) -> Option<Seq<char>> {
    match tag_span(s, tag, lo, hi) {
        Some((x, y)) => {
            let t = trimmed(s, x, y);
            if t.len() > 0 {
                Some(t)
            } else {
                None
            }
        },
        None => None,
    }
}

/// The contents of the `<item ...>...</item>` blocks of `s` from `p` on,
/// each block ending at the first `</item>` after its opening.
pub open spec fn item_spans(s: Seq<char>, p: int) -> Seq<(int, int)>
    decreases s.len() - p,
{
    if p < 0 || p >= s.len() {
        seq![]
    } else if matches_at(s, p, "<item"@) {
        let gt = find_char(s, '>', p + 5, s.len() as int);
        if gt < s.len() {
            proof {
                reveal_strlit("<item");
                reveal_strlit("</item>");
                lemma_find_char(s, '>', p + 5, s.len() as int);
                lemma_find_pat(s, "</item>"@, gt + 1, s.len() as int);
            }
            match find_pat(s, "</item>"@, gt + 1, s.len() as int) {
                Some(c) => seq![(gt + 1, c)] + item_spans(s, c + 7),
                None => item_spans(s, p + 1),
            }
        } else {
            item_spans(s, p + 1)
        }
    } else {
        item_spans(s, p + 1)
    }
}

/// The magnet built from an info-hash when an item carries no magnet.
pub open spec fn infohash_magnet(hash: Seq<char>, title: Seq<char>) -> Seq<char> {
    "magnet:?xt=urn:btih:"@ + hash + "&dn="@ + url_encoded(title)
}

/// The result an item `[a, b)` gives: it needs a title and a magnet, the
/// first magnet URI of the item or else one built from its `infoHash`.
pub open spec fn rss_item(s: Seq<char>, a: int, b: int) -> Option<ResultModel> {
    match capture(s, "title"@, a, b) {
        None => None,
        Some(title) => {
            let magnet = match magnet_at(s, a, b) {
                Some((x, y)) => Some(s.subrange(x, y)),
                None => match capture(s, "infoHash"@, a, b) {
                    Some(h) => Some(infohash_magnet(h, title)),
                    None => None,
                },
            };
            match magnet {
                None => None,
                Some(m) => Some(
                    ResultModel {
                        title,
                        magnet: m,
                        size: capture(s, "size"@, a, b),
                        seeders: capture(s, "seeders"@, a, b),
                        source_indexer: seq![],
                    },
                ),
            }
        },
    }
}

/// The results of the items `spans`, in order.
pub open spec fn rss_results(s: Seq<char>, spans: Seq<(int, int)>) -> Seq<ResultModel>
    decreases spans.len(),
{
    if spans.len() == 0 {
        seq![]
    } else {
        let init = rss_results(s, spans.drop_last());
        match rss_item(s, spans.last().0, spans.last().1) {
            Some(r) => init.push(r),
            None => init,
        }
    }
}

/// What `rss` returns for the feed `s`.
pub open spec fn rss_of(s: Seq<char>) -> Seq<ResultModel> {
    rss_results(s, item_spans(s, 0))
}

fn alnum_end_exec(v: &Vec<char>, i: usize, hi: usize) -> (r: usize)
    requires
        i <= hi <= v@.len(),
    ensures
        r == alnum_end(v@, i as int, hi as int),
        i <= r <= hi,
{
    let mut k = i;
    while k < hi && (('a' <= v[k] && v[k] <= 'z') || ('A' <= v[k] && v[k] <= 'Z') || ('0' <= v[k] && v[k] <= '9'))
        invariant
            i <= k <= hi <= v@.len(),
            alnum_end(v@, i as int, hi as int) == alnum_end(v@, k as int, hi as int),
        decreases hi - k,
    {
        k += 1;
    }
    k
}

fn word_at_exec(v: &Vec<char>, i: usize, hi: usize, w: &Vec<char>) -> (r: bool)
    requires
        hi <= v@.len(),
    ensures
        r == word_at(v@, i as int, hi as int, w@),
{
    i <= hi && w.len() <= hi - i && matches_at_exec(v, i, w)
}

fn open_name_end_exec(v: &Vec<char>, tag: &Vec<char>, p: usize, hi: usize) -> (r: Option<usize>)
    requires
        hi <= v@.len(),
    ensures
        r matches Some(e) ==> open_name_end(v@, tag@, p as int, hi as int) == Some(e as int) && e <= hi,
        r is None ==> open_name_end(v@, tag@, p as int, hi as int) is None,
{
    if !(p < hi && v[p] == '<') {
        return None;
    }
    let r = alnum_end_exec(v, p + 1, hi);
    if p + 1 < r && r < hi && v[r] == ':' && word_at_exec(v, r + 1, hi, tag) {
        Some(r + 1 + tag.len())
    } else if word_at_exec(v, p + 1, hi, tag) {
        Some(p + 1 + tag.len())
    } else {
        None
    }
}

fn close_at_exec(v: &Vec<char>, tag: &Vec<char>, c: usize, hi: usize) -> (r: bool)
    requires
        hi <= v@.len(),
    ensures
        r == close_at(v@, tag@, c as int, hi as int),
{
    if !(c <= hi && hi - c >= 2 && v[c] == '<' && v[c + 1] == '/') {
        return false;
    }
    let r = alnum_end_exec(v, c + 2, hi);
    if c + 2 < r && r < hi && v[r] == ':' && word_at_exec(v, r + 1, hi, tag) {
        let e = r + 1 + tag.len();
        if e < hi && v[e] == '>' {
            return true;
        }
    }
    word_at_exec(v, c + 2, hi, tag) && c + 2 + tag.len() < hi && v[c + 2 + tag.len()] == '>'
}

fn cdata_end_exec(v: &Vec<char>, tag: &Vec<char>, k: usize, hi: usize) -> (r: Option<usize>)
    requires
        k <= hi <= v@.len(),
    ensures
        r matches Some(e) ==> cdata_end(v@, tag@, k as int, hi as int) == Some(e as int) && k <= e && e + 3 <= hi,
        r is None ==> cdata_end(v@, tag@, k as int, hi as int) is None,
{
    let close = chars_of("]]>");
    proof {
        reveal_strlit("]]>");
    }
    let mut i = k;
    while hi - i >= 3
        invariant
            k <= i <= hi <= v@.len(),
            close@ == "]]>"@,
            cdata_end(v@, tag@, k as int, hi as int) == cdata_end(v@, tag@, i as int, hi as int),
        decreases hi - i,
    {
        if matches_at_exec(v, i, &close) {
            let (w, _) = trim_bounds(v, i + 3, hi);
            if close_at_exec(v, tag, w, hi) {
                return Some(i);
            }
        }
        i += 1;
    }
    None
}

fn tag_span_exec(v: &Vec<char>, tag: &Vec<char>, lo: usize, hi: usize) -> (r: Option<(usize, usize)>)
    requires
        lo <= hi <= v@.len(),
    ensures
        r matches Some((x, y)) ==> tag_span(v@, tag@, lo as int, hi as int) == Some((x as int, y as int)) && x
            <= y <= hi,
        r is None ==> tag_span(v@, tag@, lo as int, hi as int) is None,
{
    let cdata = chars_of("<![CDATA[");
    proof {
        reveal_strlit("<![CDATA[");
    }
    let mut p = lo;
    while p < hi
        invariant
            lo <= p <= hi <= v@.len(),
            cdata@ == "<![CDATA["@,
            tag_span(v@, tag@, lo as int, hi as int) == tag_span(v@, tag@, p as int, hi as int),
        decreases hi - p,
    {
        if let Some(e) = open_name_end_exec(v, tag, p, hi) {
            let gt = find_char_exec(v, '>', e, hi);
            if gt < hi {
                let (w, _) = trim_bounds(v, gt + 1, hi);
                let cd = if w <= hi && hi - w >= 9 && matches_at_exec(v, w, &cdata) {
                    cdata_end_exec(v, tag, w + 9, hi)
                } else {
                    None
                };
                match cd {
                    Some(k) => {
                        return Some((w + 9, k));
                    },
                    None => {
                        let q = find_char_exec(v, '<', w, hi);
                        if q < hi && close_at_exec(v, tag, q, hi) {
                            return Some((w, q));
                        }
                    },
                }
            }
        }
        p += 1;
    }
    None
}

fn capture_exec(v: &Vec<char>, tag: &str, lo: usize, hi: usize) -> (r: Option<String>)
    requires
        lo <= hi <= v@.len(),
    ensures
        opt_view(r) == capture(v@, tag@, lo as int, hi as int),
{
    let t = chars_of(tag);
    match tag_span_exec(v, &t, lo, hi) {
        Some((x, y)) => {
            let (a, b) = trim_bounds(v, x, y);
            if a < b {
                Some(string_of(v, a, b))
            } else {
                None
            }
        },
        None => None,
    }
}

fn item_spans_exec(v: &Vec<char>) -> (r: Vec<(usize, usize)>)
    ensures
        r@.map_values(|w: (usize, usize)| (w.0 as int, w.1 as int)) == item_spans(v@, 0),
        forall|i: int| 0 <= i < r@.len() ==> #[trigger] r@[i].0 <= r@[i].1 <= v@.len(),
{
    let open = chars_of("<item");
    let close = chars_of("</item>");
    proof {
        reveal_strlit("<item");
        reveal_strlit("</item>");
    }
    let n = v.len();
    let mut out: Vec<(usize, usize)> = Vec::new();
    let mut p: usize = 0;
    while p < n
        invariant
            p <= n == v@.len(),
            open@ == "<item"@,
            close@ == "</item>"@,
            open@.len() == 5,
            close@.len() == 7,
            out@.map_values(|w: (usize, usize)| (w.0 as int, w.1 as int)) + item_spans(v@, p as int) == item_spans(v@, 0),
            forall|i: int| 0 <= i < out@.len() ==> #[trigger] out@[i].0 <= out@[i].1 <= v@.len(),
        decreases n - p,
    {
        let ghost before = out@.map_values(|w: (usize, usize)| (w.0 as int, w.1 as int));
        if matches_at_exec(v, p, &open) {
            let gt = find_char_exec(v, '>', p + 5, n);
            if gt < n {
                proof {
                    lemma_find_pat(v@, "</item>"@, gt + 1, n as int);
                }
                match find_pat_exec(v, &close, gt + 1, n) {
                    Some(c) => {
                        out.push((gt + 1, c));
                        proof {
                            assert(out@.map_values(|w: (usize, usize)| (w.0 as int, w.1 as int)) =~= before.push(((gt + 1) as int, c as int)));
                            assert(item_spans(v@, p as int) =~= seq![((gt + 1) as int, c as int)] + item_spans(v@, c + 7));
                            assert(before.push(((gt + 1) as int, c as int)) + item_spans(v@, c + 7) =~= before + item_spans(v@, p as int));
                        }
                        p = c + 7;
                        continue;
                    },
                    None => {},
                }
            }
        }
        p += 1;
    }
    proof {
        assert(out@.map_values(|w: (usize, usize)| (w.0 as int, w.1 as int)) + item_spans(v@, p as int)
            =~= out@.map_values(|w: (usize, usize)| (w.0 as int, w.1 as int)));
    }
    out
}

fn rss_item_exec(v: &Vec<char>, a: usize, b: usize) -> (r: Option<IndexerResult>)
    requires
        a <= b <= v@.len(),
    ensures
        r matches Some(x) ==> rss_item(v@, a as int, b as int) == Some(x@),
        r is None ==> rss_item(v@, a as int, b as int) is None,
{
    let title = match capture_exec(v, "title", a, b) {
        Some(t) => t,
        None => {
            return None;
        },
    };
    let magnet = match magnet_at_exec(v, a, b) {
        Some((x, y)) => string_of(v, x, y),
        None => match capture_exec(v, "infoHash", a, b) {
            Some(h) => {
                let mut m = "magnet:?xt=urn:btih:".to_owned();
                push_all(&mut m, h.as_str());
                push_all(&mut m, "&dn=");
                let enc = url_encode(title.as_str());
                push_all(&mut m, enc.as_str());
                m
            },
            None => {
                return None;
            },
        },
    };
    Some(
        IndexerResult {
            title,
            magnet,
            size: capture_exec(v, "size", a, b),
            seeders: capture_exec(v, "seeders", a, b),
            source_indexer: String::new(),
        },
    )
}

/// A torrent RSS feed: one result for each `<item>` block that has a
/// title and a magnet, in the feed's order. The title, size and seeders
/// are the trimmed texts of the first `title`, `size` and `seeders`
/// elements of the item (a namespace prefix such as `nyaa:` allowed, the
/// text possibly in a CDATA section); the magnet is the first `magnet:?`
/// URI of the item, or one built from its `infoHash` element with the
/// percent-encoded title as `dn`.
pub fn rss(body: &str) -> (r: Vec<IndexerResult>)
    ensures
        r@.map_values(|x: IndexerResult| x@) == rss_of(body@),
{
    let v = chars_of(body);
    let spans = item_spans_exec(&v);
    let ghost sp = spans@.map_values(|w: (usize, usize)| (w.0 as int, w.1 as int));
    let mut out: Vec<IndexerResult> = Vec::new();
    let mut i: usize = 0;
    while i < spans.len()
        invariant
            i <= spans@.len() == sp.len(),
            v@ == body@,
            sp == item_spans(v@, 0),
            forall|j: int| 0 <= j < spans@.len() ==> #[trigger] spans@[j].0 <= spans@[j].1 <= v@.len(),
            forall|j: int| 0 <= j < spans@.len() ==> #[trigger] sp[j] == (spans@[j].0 as int, spans@[j].1 as int),
            out@.map_values(|x: IndexerResult| x@) == rss_results(v@, sp.take(i as int)),
        decreases spans@.len() - i,
    {
        let (a, b) = spans[i];
        let ghost before = out@.map_values(|x: IndexerResult| x@);
        proof {
            assert(sp.take(i + 1).drop_last() =~= sp.take(i as int));
            assert(sp.take(i + 1).last() == sp[i as int]);
        }
        match rss_item_exec(&v, a, b) {
            Some(x) => {
                let ghost xv = x@;
                out.push(x);
                assert(out@.map_values(|x: IndexerResult| x@) =~= before.push(xv));
            },
            None => {},
        }
        i += 1;
    }
    proof {
        assert(sp.take(i as int) =~= sp);
    }
    out
}

pub proof fn lemma_dedup(xs: Seq<Seq<char>>)
    ensures
        forall|i: int, j: int| 0 <= i < j < dedup(xs).len() ==> dedup(xs)[i] != dedup(xs)[j],
        forall|x: Seq<char>| xs.contains(x) <==> dedup(xs).contains(x),
    decreases xs.len(),
{
    if xs.len() > 0 {
        let init = xs.drop_last();
        lemma_dedup(init);
        assert forall|x: Seq<char>| xs.contains(x) <==> (init.contains(x) || x == xs.last()) by {
            if xs.contains(x) {
                let k = choose|k: int| 0 <= k < xs.len() && xs[k] == x;
                if k < xs.len() - 1 {
                    assert(init[k] == x);
                }
            }
            if init.contains(x) {
                let k = choose|k: int| 0 <= k < init.len() && init[k] == x;
                assert(xs[k] == x);
            }
            if x == xs.last() {
                assert(xs[xs.len() - 1] == x);
            }
        }
        let d = dedup(init);
        if !d.contains(xs.last()) {
            assert forall|x: Seq<char>| d.push(xs.last()).contains(x) <==> (d.contains(x) || x == xs.last()) by {
                if d.push(xs.last()).contains(x) {
                    let k = choose|k: int| 0 <= k < d.len() + 1 && d.push(xs.last())[k] == x;
                    if k < d.len() {
                        assert(d[k] == x);
                    }
                }
                if d.contains(x) {
                    let k = choose|k: int| 0 <= k < d.len() && d[k] == x;
                    assert(d.push(xs.last())[k] == x);
                }
                if x == xs.last() {
                    assert(d.push(xs.last())[d.len() as int] == x);
                }
            }
            assert forall|i: int, j: int| 0 <= i < j < d.push(xs.last()).len() implies d.push(xs.last())[i]
                != d.push(xs.last())[j] by {
                if j == d.len() {
                    assert(d[i] == d.push(xs.last())[i]);
                }
            }
        }
    }
}

/// `magnet_list` returns each magnet URI of the page exactly once: no two
/// results share a magnet, and a magnet is among the results exactly when
/// it occurs on the page.
pub proof fn magnet_list_distinct_and_complete(s: Seq<char>)
    ensures
        forall|i: int, j: int|
            0 <= i < j < magnet_list_of(s).len() ==> magnet_list_of(s)[i].magnet != magnet_list_of(s)[j].magnet,
        forall|m: Seq<char>|
            magnets(s).contains(m) <==> exists|i: int| 0 <= i < magnet_list_of(s).len() && #[trigger] magnet_list_of(s)[i].magnet == m,
{
    let d = dedup(magnets(s));
    lemma_dedup(magnets(s));
    assert forall|i: int| 0 <= i < d.len() implies #[trigger] magnet_list_of(s)[i].magnet == d[i] by {}
    assert forall|m: Seq<char>| magnets(s).contains(m) implies exists|i: int| 0 <= i < magnet_list_of(s).len() && #[trigger] magnet_list_of(s)[i].magnet == m by {
        assert(d.contains(m));
        let k = choose|k: int| 0 <= k < d.len() && d[k] == m;
        assert(magnet_list_of(s)[k].magnet == m);
    }
    assert forall|m: Seq<char>| (exists|i: int| 0 <= i < magnet_list_of(s).len() && #[trigger] magnet_list_of(s)[i].magnet == m) implies magnets(s).contains(m) by {
        let k = choose|k: int| 0 <= k < magnet_list_of(s).len() && #[trigger] magnet_list_of(s)[k].magnet == m;
        assert(d[k] == m);
    }
}

} // verus!
