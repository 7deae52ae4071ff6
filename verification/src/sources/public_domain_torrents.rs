//! The catalog of publicdomaintorrents.info: an RSS feed of titles that
//! point to detail pages, and the detail page of a title, which holds its
//! real name and the links to its `.torrent` files.
use vstd::prelude::*;
use crate::text::{
    chars_of, contains_exec, contains_seq, delimited, delimited_exec, ends_with, ends_with_exec,
    is_ws, is_ws_char, last_pat, last_pat_exec, lemma_delimited, lemma_last_pat, lowercase,
    matches_at, matches_at_exec, string_of, to_lower, trim_bounds, trimmed,
};

verus! {

/// A title of the catalog, with the URL of its preferred `.torrent`.
pub struct PublicDomainMovie {
    pub title: String,
    pub identifier: String,
}

/// What a detail page gives: the real title and the preferred link.
pub struct ParsedDetail {
    pub title: String,
    pub torrent_url: String,
}

/// The contents of the `<item>…</item>` blocks of `s` from `p` on.
pub open spec fn rss_item_spans(s: Seq<char>, p: int) -> Seq<(int, int)>
    decreases s.len() - p,
{
    if p < 0 || p > s.len() {
        seq![]
    } else {
        match delimited(s, "<item>"@, "</item>"@, p, s.len() as int) {
            Some((a, b)) => {
                proof {
                    reveal_strlit("<item>");
                    reveal_strlit("</item>");
                    lemma_delimited(s, "<item>"@, "</item>"@, p, s.len() as int);
                }
                seq![(a, b)] + rss_item_spans(s, b + 7)
            },
            None => seq![],
        }
    }
}

/// The title and detail link of the item `[a, b)`: the trimmed contents
/// of its first `<title>` and `<link>` elements; `None` without either.
pub open spec fn rss_entry(s: Seq<char>, a: int, b: int) -> Option<(Seq<char>, Seq<char>)> {
    match delimited(s, "<title>"@, "</title>"@, a, b) {
        Some((x, y)) => match delimited(s, "<link>"@, "</link>"@, a, b) {
            Some((u, w)) => Some((trimmed(s, x, y), trimmed(s, u, w))),
            None => None,
        },
        None => None,
    }
}

pub open spec fn rss_entries(s: Seq<char>, spans: Seq<(int, int)>) -> Seq<(Seq<char>, Seq<char>)>
    decreases spans.len(),
{
    if spans.len() == 0 {
        seq![]
    } else {
        let init = rss_entries(s, spans.drop_last());
        match rss_entry(s, spans.last().0, spans.last().1) {
            Some(e) => init.push(e),
            None => init,
        }
    }
}

/// What `parse_rss` returns for the feed `s`.
pub open spec fn catalog_rss(s: Seq<char>) -> Seq<(Seq<char>, Seq<char>)> {
    rss_entries(s, rss_item_spans(s, 0))
}

fn rss_item_spans_exec(v: &Vec<char>) -> (r: Vec<(usize, usize)>)
    ensures
        r@.map_values(|w: (usize, usize)| (w.0 as int, w.1 as int)) == rss_item_spans(v@, 0),
        forall|i: int| 0 <= i < r@.len() ==> #[trigger] r@[i].0 <= r@[i].1 <= v@.len(),
{
    let open = chars_of("<item>");
    let close = chars_of("</item>");
    proof {
        reveal_strlit("<item>");
        reveal_strlit("</item>");
    }
    let n = v.len();
    let mut out: Vec<(usize, usize)> = Vec::new();
    let mut p: usize = 0;
    loop
        invariant
            p <= n == v@.len(),
            open@ == "<item>"@,
            close@ == "</item>"@,
            close@.len() == 7,
            out@.map_values(|w: (usize, usize)| (w.0 as int, w.1 as int)) + rss_item_spans(v@, p as int)
                == rss_item_spans(v@, 0),
            forall|i: int| 0 <= i < out@.len() ==> #[trigger] out@[i].0 <= out@[i].1 <= v@.len(),
        decreases n - p,
    {
        let ghost before = out@.map_values(|w: (usize, usize)| (w.0 as int, w.1 as int));
        proof {
            lemma_delimited(v@, open@, close@, p as int, n as int);
        }
        match delimited_exec(v, &open, &close, p, n) {
            Some((a, b)) => {
                out.push((a, b));
                proof {
                    assert(out@.map_values(|w: (usize, usize)| (w.0 as int, w.1 as int)) =~= before.push((a as int, b as int)));
                    assert(rss_item_spans(v@, p as int) =~= seq![(a as int, b as int)] + rss_item_spans(v@, b + 7));
                    assert(before.push((a as int, b as int)) + rss_item_spans(v@, b + 7) =~= before + rss_item_spans(v@, p as int));
                }
                p = b + 7;
            },
            None => {
                proof {
                    assert(before + rss_item_spans(v@, p as int) =~= before);
                }
                return out;
            },
        }
    }
}

/// The catalog feed: for each `<item>` block that has both, the trimmed
/// contents of its first `<title>` and `<link>` (the detail page).
pub fn parse_rss(body: &str) -> (r: Vec<(String, String)>)
    ensures
        r@.map_values(|e: (String, String)| (e.0@, e.1@)) == catalog_rss(body@),
{
    let v = chars_of(body);
    let spans = rss_item_spans_exec(&v);
    let ghost sp = spans@.map_values(|w: (usize, usize)| (w.0 as int, w.1 as int));
    let t_open = chars_of("<title>");
    let t_close = chars_of("</title>");
    let l_open = chars_of("<link>");
    let l_close = chars_of("</link>");
    let mut out: Vec<(String, String)> = Vec::new();
    let mut i: usize = 0;
    while i < spans.len()
        invariant
            i <= spans@.len() == sp.len(),
            v@ == body@,
            sp == rss_item_spans(v@, 0),
            t_open@ == "<title>"@,
            t_close@ == "</title>"@,
            l_open@ == "<link>"@,
            l_close@ == "</link>"@,
            forall|j: int| 0 <= j < spans@.len() ==> #[trigger] spans@[j].0 <= spans@[j].1 <= v@.len(),
            forall|j: int| 0 <= j < spans@.len() ==> #[trigger] sp[j] == (spans@[j].0 as int, spans@[j].1 as int),
            out@.map_values(|e: (String, String)| (e.0@, e.1@)) == rss_entries(v@, sp.take(i as int)),
        decreases spans@.len() - i,
    {
        let (a, b) = spans[i];
        let ghost before = out@.map_values(|e: (String, String)| (e.0@, e.1@));
        proof {
            assert(sp.take(i + 1).drop_last() =~= sp.take(i as int));
            assert(sp.take(i + 1).last() == sp[i as int]);
        }
        if let Some((x, y)) = delimited_exec(&v, &t_open, &t_close, a, b) {
            if let Some((u, w)) = delimited_exec(&v, &l_open, &l_close, a, b) {
                let (x2, y2) = trim_bounds(&v, x, y);
                let (u2, w2) = trim_bounds(&v, u, w);
                let e = (string_of(&v, x2, y2), string_of(&v, u2, w2));
                let ghost ev = (e.0@, e.1@);
                out.push(e);
                assert(out@.map_values(|e: (String, String)| (e.0@, e.1@)) =~= before.push(ev));
            }
        }
        i += 1;
    }
    proof {
        assert(sp.take(i as int) =~= sp);
    }
    out
}

/// A character of an unquoted `href` value: anything but whitespace, `>`
/// and `"`.
pub open spec fn href_char(c: char) -> bool {
    !is_ws(c) && c != '>' && c != '"'
}

pub open spec fn href_run_end(s: Seq<char>, i: int) -> int
    decreases s.len() - i,
{
    if i >= s.len() {
        s.len() as int
    } else if !href_char(s[i]) {
        i
    } else {
        href_run_end(s, i + 1)
    }
}

/// A download link `href=http://…btdownload.php?….torrent` starting at
/// `p`: where the match ends. The URL runs over `href` characters; as the
/// greedy pattern does, the match ends at the last `.torrent` of the run,
/// and needs a `btdownload.php?` between `http://` and it (at least one
/// character on each side).
pub open spec fn torrent_link_at(s: Seq<char>, p: int) -> Option<int> {
    if !matches_at(s, p, "href=http://"@) {
        None
    } else {
        let x = p + 12;
        let e = href_run_end(s, x);
        match last_pat(s, ".torrent"@, x, e) {
            Some(t) => match last_pat(s, "btdownload.php?"@, x + 1, t - 1) {
                Some(_) => Some(t + 8),
                None => None,
            },
            None => None,
        }
    }
}

/// The download links of `s` from `p` on, as windows over the URL.
pub open spec fn torrent_link_spans(s: Seq<char>, p: int) -> Seq<(int, int)>
    decreases s.len() - p,
{
    if p < 0 || p >= s.len() {
        seq![]
    } else {
        match torrent_link_at(s, p) {
            Some(end) => {
                proof {
                    lemma_torrent_link_at(s, p);
                }
                seq![(p + 5, end)] + torrent_link_spans(s, end)
            },
            None => torrent_link_spans(s, p + 1),
        }
    }
}

pub proof fn lemma_href_run_end(s: Seq<char>, i: int)
    requires
        0 <= i <= s.len(),
    ensures
        i <= href_run_end(s, i) <= s.len(),
    decreases s.len() - i,
{
    if i < s.len() && href_char(s[i]) {
        lemma_href_run_end(s, i + 1);
    }
}

pub proof fn lemma_torrent_link_at(s: Seq<char>, p: int)
    requires
        0 <= p,
    ensures
        torrent_link_at(s, p) matches Some(end) ==> p + 12 < end <= s.len(),
{
    reveal_strlit("href=http://");
    reveal_strlit(".torrent");
    if matches_at(s, p, "href=http://"@) {
        lemma_href_run_end(s, p + 12);
        lemma_last_pat(s, ".torrent"@, p + 12, href_run_end(s, p + 12));
    }
}

/// The download links of the page.
pub open spec fn detail_links(s: Seq<char>) -> Seq<Seq<char>> {
    torrent_link_spans(s, 0).map_values(|w: (int, int)| s.subrange(w.0, w.1))
}

pub open spec fn is_mp4_link(l: Seq<char>) -> bool {
    ends_with(lowercase(l), ".mp4.torrent"@)
}

pub open spec fn is_generic_mp4_link(l: Seq<char>) -> bool {
    is_mp4_link(l) && !contains_seq(lowercase(l), "_psp"@)
}

/// A link of the given kind: 0, a generic (not PSP) MP4; 1, any MP4.
pub open spec fn link_of_kind(l: Seq<char>, kind: int) -> bool {
    if kind == 0 {
        is_generic_mp4_link(l)
    } else {
        is_mp4_link(l)
    }
}

/// The least index at or after `i` of a link of the given kind.
pub open spec fn first_link_of_kind(links: Seq<Seq<char>>, kind: int, i: int) -> Option<int>
    decreases links.len() - i,
{
    if i < 0 || i >= links.len() {
        None
    } else if link_of_kind(links[i], kind) {
        Some(i)
    } else {
        first_link_of_kind(links, kind, i + 1)
    }
}

/// The first link of `links` that is a generic (not PSP) MP4, else the
/// first MP4, else the first link.
pub open spec fn preferred_link(links: Seq<Seq<char>>) -> Option<Seq<char>> {
    match first_link_of_kind(links, 0, 0) {
        Some(i) => Some(links[i]),
        None => match first_link_of_kind(links, 1, 0) {
            Some(i) => Some(links[i]),
            None => if links.len() > 0 {
                Some(links[0])
            } else {
                None
            },
        },
    }
}

proof fn lemma_first_link_of_kind(links: Seq<Seq<char>>, kind: int, i: int)
    requires
        0 <= i,
    ensures
        first_link_of_kind(links, kind, i) matches Some(k) ==> i <= k < links.len() && link_of_kind(
            links[k],
            kind,
        ) && forall|j: int| i <= j < k ==> !link_of_kind(#[trigger] links[j], kind),
        first_link_of_kind(links, kind, i) is None ==> forall|j: int|
            i <= j < links.len() ==> !link_of_kind(#[trigger] links[j], kind),
    decreases links.len() - i,
{
    if i < links.len() && !link_of_kind(links[i], kind) {
        lemma_first_link_of_kind(links, kind, i + 1);
    }
}

/// The link taken from a detail page is the first generic (not PSP) MP4
/// one when there is one; else the first MP4 one when there is one; else
/// the first link.
pub proof fn a_generic_mp4_link_is_preferred(links: Seq<Seq<char>>)
    ensures
        (exists|j: int| 0 <= j < links.len() && is_generic_mp4_link(#[trigger] links[j])) ==> exists|k: int|
            0 <= k < links.len() && preferred_link(links) == Some(links[k]) && is_generic_mp4_link(links[k])
                && forall|j: int| 0 <= j < k ==> !is_generic_mp4_link(#[trigger] links[j]),
        (forall|j: int| 0 <= j < links.len() ==> !is_generic_mp4_link(#[trigger] links[j])) && (exists|j: int|
            0 <= j < links.len() && is_mp4_link(#[trigger] links[j])) ==> exists|k: int|
            0 <= k < links.len() && preferred_link(links) == Some(links[k]) && is_mp4_link(links[k])
                && forall|j: int| 0 <= j < k ==> !is_mp4_link(#[trigger] links[j]),
        (forall|j: int| 0 <= j < links.len() ==> !is_mp4_link(#[trigger] links[j])) ==> preferred_link(links)
            == (if links.len() > 0 { Some(links[0]) } else { None::<Seq<char>> }),
{
    lemma_first_link_of_kind(links, 0, 0);
    lemma_first_link_of_kind(links, 1, 0);
    assert forall|j: int| 0 <= j < links.len() && !is_mp4_link(#[trigger] links[j]) implies !is_generic_mp4_link(
        links[j],
    ) by {}
}

/// A detail page as plain sequences.
pub struct DetailModel {
    pub title: Seq<char>,
    pub torrent_url: Seq<char>,
}

/// What `parse_detail_page` returns for `s`: the trimmed text of the first
/// `<h3>…</h3>` and the preferred download link; `None` without either.
pub open spec fn detail_of(s: Seq<char>) -> Option<DetailModel> {
    match delimited(s, "<h3>"@, "</h3>"@, 0, s.len() as int) {
        Some((x, y)) => match preferred_link(detail_links(s)) {
            Some(u) => Some(DetailModel { title: trimmed(s, x, y), torrent_url: u }),
            None => None,
        },
        None => None,
    }
}

fn torrent_link_at_exec(v: &Vec<char>, p: usize, marker: &Vec<char>, suffix: &Vec<char>, script: &Vec<char>) -> (r: Option<usize>)
    requires
        p <= v@.len(),
        marker@ == "href=http://"@,
        suffix@ == ".torrent"@,
        script@ == "btdownload.php?"@,
    ensures
        r matches Some(e) ==> torrent_link_at(v@, p as int) == Some(e as int),
        r is None ==> torrent_link_at(v@, p as int) is None,
{
    proof {
        reveal_strlit("href=http://");
    }
    if !matches_at_exec(v, p, marker) {
        return None;
    }
    assert(marker@.len() == 12);
    assert(p + 12 <= v.len());
    let x = p + 12;
    let mut e = x;
    while e < v.len() && !is_ws_char(v[e]) && v[e] != '>' && v[e] != '"'
        invariant
            x <= e <= v@.len(),
            href_run_end(v@, x as int) == href_run_end(v@, e as int),
        decreases v@.len() - e,
    {
        e += 1;
    }
    proof {
        reveal_strlit(".torrent");
        lemma_last_pat(v@, suffix@, x as int, e as int);
    }
    match last_pat_exec(v, suffix, x, e) {
        Some(t) => {
            if t < 1 || t - 1 < x + 1 {
                assert(last_pat(v@, script@, x + 1, t - 1) is None);
                return None;
            }
            match last_pat_exec(v, script, x + 1, t - 1) {
                Some(_) => Some(t + 8),
                None => None,
            }
        },
        None => None,
    }
}

fn detail_link_spans_exec(v: &Vec<char>) -> (r: Vec<(usize, usize)>)
    ensures
        r@.map_values(|w: (usize, usize)| (w.0 as int, w.1 as int)) == torrent_link_spans(v@, 0),
        forall|i: int| 0 <= i < r@.len() ==> #[trigger] r@[i].0 <= r@[i].1 <= v@.len(),
{
    let marker = chars_of("href=http://");
    let suffix = chars_of(".torrent");
    let script = chars_of("btdownload.php?");
    let n = v.len();
    let mut out: Vec<(usize, usize)> = Vec::new();
    let mut p: usize = 0;
    while p < n
        invariant
            p <= n == v@.len(),
            marker@ == "href=http://"@,
            suffix@ == ".torrent"@,
            script@ == "btdownload.php?"@,
            out@.map_values(|w: (usize, usize)| (w.0 as int, w.1 as int)) + torrent_link_spans(v@, p as int)
                == torrent_link_spans(v@, 0),
            forall|i: int| 0 <= i < out@.len() ==> #[trigger] out@[i].0 <= out@[i].1 <= v@.len(),
        decreases n - p,
    {
        let ghost before = out@.map_values(|w: (usize, usize)| (w.0 as int, w.1 as int));
        proof {
            lemma_torrent_link_at(v@, p as int);
        }
        match torrent_link_at_exec(v, p, &marker, &suffix, &script) {
            Some(end) => {
                out.push((p + 5, end));
                proof {
                    assert(out@.map_values(|w: (usize, usize)| (w.0 as int, w.1 as int)) =~= before.push(((p + 5) as int, end as int)));
                    assert(torrent_link_spans(v@, p as int) =~= seq![((p + 5) as int, end as int)] + torrent_link_spans(v@, end as int));
                    assert(before.push(((p + 5) as int, end as int)) + torrent_link_spans(v@, end as int) =~= before + torrent_link_spans(v@, p as int));
                }
                p = end;
            },
            None => {
                p += 1;
            },
        }
    }
    proof {
        assert(out@.map_values(|w: (usize, usize)| (w.0 as int, w.1 as int)) + torrent_link_spans(v@, p as int)
            =~= out@.map_values(|w: (usize, usize)| (w.0 as int, w.1 as int)));
    }
    out
}

fn link_kind_exec(l: &String) -> (r: (bool, bool))
    ensures
        r.0 == is_mp4_link(l@),
        r.1 == is_generic_mp4_link(l@),
{
    let lower = to_lower(l.as_str());
    let mp4 = ends_with_exec(lower.as_str(), ".mp4.torrent");
    let psp = contains_exec(lower.as_str(), "_psp");
    (mp4, mp4 && !psp)
}

/// The index in `links` of the first link of the given kind (0: generic
/// MP4, 1: MP4), if any.
fn first_of_kind(links: &Vec<String>, kind: u8) -> (r: Option<usize>)
    requires
        kind == 0 || kind == 1,
    ensures
        r matches Some(i) ==> i < links@.len() && first_link_of_kind(links@.map_values(|l: String| l@), kind as int, 0) == Some(i as int),
        r is None ==> first_link_of_kind(links@.map_values(|l: String| l@), kind as int, 0) is None,
{
    let ghost ls = links@.map_values(|l: String| l@);
    let mut i: usize = 0;
    while i < links.len()
        invariant
            i <= links@.len() == ls.len(),
            kind == 0 || kind == 1,
            ls == links@.map_values(|l: String| l@),
            first_link_of_kind(ls, kind as int, 0) == first_link_of_kind(ls, kind as int, i as int),
        decreases links@.len() - i,
    {
        let (mp4, generic) = link_kind_exec(&links[i]);
        assert(ls[i as int] == links@[i as int]@);
        if (kind == 0 && generic) || (kind == 1 && mp4) {
            return Some(i);
        }
        i += 1;
    }
    None
}

/// A detail page: its title (the trimmed text of the first `<h3>`) and,
/// among its download links `href=http://…btdownload.php?….torrent`, the
/// first generic MP4 (`.mp4.torrent` without `_psp`, case aside), else the
/// first MP4, else the first link. `None` when the page has no title or no
/// download link.
pub fn parse_detail_page(html: &str) -> (r: Option<ParsedDetail>)
    ensures
        match r {
            Some(d) => detail_of(html@) == Some(DetailModel { title: d.title@, torrent_url: d.torrent_url@ }),
            None => detail_of(html@) is None,
        },
{
    let v = chars_of(html);
    let h_open = chars_of("<h3>");
    let h_close = chars_of("</h3>");
    let (x, y) = match delimited_exec(&v, &h_open, &h_close, 0, v.len()) {
        Some(w) => w,
        None => {
            return None;
        },
    };
    let spans = detail_link_spans_exec(&v);
    let mut links: Vec<String> = Vec::new();
    let mut i: usize = 0;
    while i < spans.len()
        invariant
            i <= spans@.len(),
            forall|j: int| 0 <= j < spans@.len() ==> #[trigger] spans@[j].0 <= spans@[j].1 <= v@.len(),
            links@.len() == i,
            forall|j: int| 0 <= j < i ==> #[trigger] links@[j]@ == v@.subrange(spans@[j].0 as int, spans@[j].1 as int),
        decreases spans@.len() - i,
    {
        let (a, b) = spans[i];
        links.push(string_of(&v, a, b));
        i += 1;
    }
    let ghost ls = detail_links(v@);
    proof {
        assert(ls.len() == links@.len());
        assert forall|j: int| 0 <= j < links@.len() implies #[trigger] links@[j]@ == ls[j] by {
            assert(spans@.map_values(|w: (usize, usize)| (w.0 as int, w.1 as int))[j] == (spans@[j].0 as int, spans@[j].1 as int));
        }
        assert(links@.map_values(|l: String| l@) =~= ls);
    }
    let chosen = match first_of_kind(&links, 0) {
        Some(k) => k,
        None => match first_of_kind(&links, 1) {
            Some(k) => k,
            None => {
                if links.len() == 0 {
                    return None;
                }
                0
            },
        },
    };
    assert(preferred_link(ls) == Some(ls[chosen as int]));
    let (x2, y2) = trim_bounds(&v, x, y);
    let title = string_of(&v, x2, y2);
    let url = links[chosen].clone();
    Some(ParsedDetail { title, torrent_url: url })
}

} // verus!
