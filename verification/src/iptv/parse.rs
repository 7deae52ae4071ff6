//! The channel list of an IPTV aggregator playlist (M3U): `#EXTINF` lines
//! with `key="value"` attributes and the channel's name, each followed by
//! the URL of its stream. Not to be confused with the HLS media playlist of
//! one channel (see `hls_playlist`).
use vstd::prelude::*;
use crate::text::lemma_find_char;
use crate::text::{
    chars_of, find_char, find_char_exec, lemma_line_at, lemma_rfind_char, lemma_trim_hi_bounds,
    lemma_trim_lo_bounds, line_at, line_at_exec, matches_at, matches_at_exec, rfind_char,
    rfind_char_exec, string_of, trim_bounds, trim_hi, trim_lo,
};
use crate::iptv::{Channel, ChannelModel, opt_view};

verus! {

/// Where the `"` that closes the value of attribute `name` in the window
/// `[lo, hi)` is searched from, for the first position `p` at which
/// `name="` occurs: the value is `[p + |name| + 2, close)`. `None` when no
/// `name="…"` occurs in the window.
pub open spec fn attr_span(s: Seq<char>, name: Seq<char>, p: int, hi: int) -> Option<(int, int)>
    decreases hi - p + 1,
{
    let open = name + "=\""@;
    if p + open.len() > hi {
        None
    } else if matches_at(s, p, open) && find_char(s, '"', p + open.len(), hi) < hi {
        Some((p + open.len(), find_char(s, '"', p + open.len(), hi)))
    } else {
        attr_span(s, name, p + 1, hi)
    }
}

/// The regex `{name}="([^"]*)"` on the window `[lo, hi)`: the value of the
/// first match, `None` when there is no match or its value is empty.
pub open spec fn attr_value(s: Seq<char>, name: Seq<char>, lo: int, hi: int) -> Option<Seq<char>> {
    match attr_span(s, name, lo, hi) {
        Some((x, y)) => if x < y { Some(s.subrange(x, y)) } else { None },
        None => None,
    }
}

/// The channel's name on the `#EXTINF` line `[lo, hi)`: what follows the
/// first comma after the last `"` of the line (after the start of the line
/// when it has no `"`), trimmed; `None` when there is no such comma or the
/// name is empty.
pub open spec fn name_span(s: Seq<char>, lo: int, hi: int) -> Option<(int, int)> {
    let start = match rfind_char(s, '"', lo, hi) {
        Some(q) => q + 1,
        None => lo,
    };
    let comma = find_char(s, ',', start, hi);
    if comma >= hi {
        None
    } else {
        let a = trim_lo(s, comma + 1, hi);
        let b = trim_hi(s, a, hi);
        if a < b { Some((a, b)) } else { None }
    }
}

/// The first line at or after `pos` whose trimmed text is neither empty nor
/// a `#` directive: its trimmed window and where the line after it starts.
pub open spec fn url_line(s: Seq<char>, pos: int) -> Option<(int, int, int)>
    decreases s.len() - pos,
{
    if pos < 0 || pos >= s.len() {
        None
    } else {
        let (lo, hi, next) = line_at(s, pos);
        proof {
            lemma_line_at(s, pos);
        }
        let a = trim_lo(s, lo, hi);
        let b = trim_hi(s, a, hi);
        if a < b && s[a] != '#' {
            Some((a, b, next))
        } else {
            url_line(s, next)
        }
    }
}

pub open spec fn is_extinf(s: Seq<char>, a: int, b: int) -> bool {
    a + "#EXTINF"@.len() <= b && matches_at(s, a, "#EXTINF"@)
}

/// The channels of the playlist text `s` from the line that starts at
/// `pos` on: every trimmed line that starts with `#EXTINF` and carries a
/// name gives a channel whose URL is the next line that is neither empty
/// nor a directive (the lines in between are skipped); an `#EXTINF` with no
/// such line after it gives nothing.
pub open spec fn channels_at(s: Seq<char>, pos: int) -> Seq<ChannelModel>
    decreases s.len() - pos,
{
    if pos < 0 || pos >= s.len() {
        seq![]
    } else {
        let (lo, hi, next) = line_at(s, pos);
        proof {
            lemma_line_at(s, pos);
        }
        let a = trim_lo(s, lo, hi);
        let b = trim_hi(s, a, hi);
        if !is_extinf(s, a, b) {
            channels_at(s, next)
        } else {
            match name_span(s, a, b) {
                None => channels_at(s, next),
                Some((na, nb)) => match url_line(s, next) {
                    None => seq![],
                    Some((ua, ub, unext)) => {
                        proof {
                            lemma_url_line(s, next);
                        }
                        seq![ChannelModel {
                            name: s.subrange(na, nb),
                            url: s.subrange(ua, ub),
                            group: attr_value(s, "group-title"@, a, b),
                            logo_url: attr_value(s, "tvg-logo"@, a, b),
                            tvg_id: attr_value(s, "tvg-id"@, a, b),
                            source_id: seq![],
                        }] + channels_at(s, unext)
                    },
                },
            }
        }
    }
}

proof fn lemma_name_span(s: Seq<char>, lo: int, hi: int)
    requires
        0 <= lo <= hi <= s.len(),
    ensures
        name_span(s, lo, hi) matches Some((a, b)) ==> lo <= a < b <= hi,
{
    lemma_rfind_char(s, '"', lo, hi);
    let start = match rfind_char(s, '"', lo, hi) {
        Some(q) => q + 1,
        None => lo,
    };
    lemma_find_char(s, ',', start, hi);
    let comma = find_char(s, ',', start, hi);
    if comma < hi {
        lemma_trim_lo_bounds(s, comma + 1, hi);
        let a = trim_lo(s, comma + 1, hi);
        lemma_trim_hi_bounds(s, a, hi);
    }
}

/// Every channel of a playlist has a name that is not empty and a URL
/// that is not empty and is not a `#` directive, and belongs to no source
/// yet.
pub proof fn channels_have_a_name_and_a_url(s: Seq<char>, pos: int)
    ensures
        forall|i: int|
            0 <= i < channels_at(s, pos).len() ==> {
                let c = #[trigger] channels_at(s, pos)[i];
                &&& c.name.len() > 0
                &&& c.url.len() > 0
                &&& c.url[0] != '#'
                &&& c.source_id.len() == 0
            },
    decreases s.len() - pos,
{
    if 0 <= pos < s.len() {
        lemma_line_at(s, pos);
        let (lo, hi, next) = line_at(s, pos);
        let a = trim_lo(s, lo, hi);
        let b = trim_hi(s, a, hi);
        lemma_trim_lo_bounds(s, lo, hi);
        lemma_trim_hi_bounds(s, a, hi);
        if !is_extinf(s, a, b) {
            channels_have_a_name_and_a_url(s, next);
        } else {
            match name_span(s, a, b) {
                None => {
                    channels_have_a_name_and_a_url(s, next);
                },
                Some((na, nb)) => match url_line(s, next) {
                    None => {},
                    Some((ua, ub, unext)) => {
                        lemma_name_span(s, a, b);
                        lemma_url_line(s, next);
                        channels_have_a_name_and_a_url(s, unext);
                        let rest = channels_at(s, unext);
                        let all = channels_at(s, pos);
                        assert forall|i: int| 0 <= i < all.len() implies {
                            let c = #[trigger] all[i];
                            &&& c.name.len() > 0
                            &&& c.url.len() > 0
                            &&& c.url[0] != '#'
                            &&& c.source_id.len() == 0
                        } by {
                            if i > 0 {
                                assert(all[i] == rest[i - 1]);
                            } else {
                                assert(s.subrange(ua, ub)[0] == s[ua]);
                            }
                        }
                    },
                },
            }
        }
    }
}

pub proof fn lemma_url_line(s: Seq<char>, pos: int)
    ensures
        url_line(s, pos) matches Some((a, b, next)) ==> pos < next <= s.len() && pos <= a < b <= next && s[a]
            != '#',
    decreases s.len() - pos,
{
    if 0 <= pos < s.len() {
        lemma_line_at(s, pos);
        let (lo, hi, next) = line_at(s, pos);
        let a = trim_lo(s, lo, hi);
        lemma_trim_lo_bounds(s, lo, hi);
        lemma_trim_hi_bounds(s, a, hi);
        lemma_url_line(s, next);
    }
}

fn attr_value_exec(v: &Vec<char>, name: &str, lo: usize, hi: usize) -> (r: Option<String>)
    requires
        lo <= hi <= v@.len(),
    ensures
        opt_view(r) == attr_value(v@, name@, lo as int, hi as int),
{
    let mut open = chars_of(name);
    open.push('=');
    open.push('"');
    proof {
        reveal_strlit("=\"");
        assert(open@ =~= name@ + "=\""@);
    }
    let olen = open.len();
    if olen > hi - lo {
        return None;
    }
    let last = hi - olen;
    let mut p = lo;
    loop
        invariant
            lo <= p <= last,
            last + open@.len() == hi,
            hi <= v@.len(),
            olen == open@.len(),
            open@ == name@ + "=\""@,
            attr_span(v@, name@, lo as int, hi as int) == attr_span(v@, name@, p as int, hi as int),
        decreases last - p,
    {
        if matches_at_exec(v, p, &open) {
            let close = find_char_exec(v, '"', p + olen, hi);
            if close < hi {
                if p + olen < close {
                    return Some(string_of(v, p + olen, close));
                } else {
                    return None;
                }
            }
        }
        if p == last {
            assert(attr_span(v@, name@, p + 1, hi as int) is None);
            return None;
        }
        p += 1;
    }
}

fn name_span_exec(v: &Vec<char>, lo: usize, hi: usize) -> (r: Option<(usize, usize)>)
    requires
        lo <= hi <= v@.len(),
    ensures
        r matches Some((x, y)) ==> name_span(v@, lo as int, hi as int) == Some((x as int, y as int)),
        r is None ==> name_span(v@, lo as int, hi as int) is None,
        r matches Some((x, y)) ==> lo <= x <= y <= hi,
{
    proof {
        lemma_rfind_char(v@, '"', lo as int, hi as int);
    }
    let start = match rfind_char_exec(v, '"', lo, hi) {
        Some(q) => q + 1,
        None => lo,
    };
    let comma = find_char_exec(v, ',', start, hi);
    if comma >= hi {
        None
    } else {
        let (a, b) = trim_bounds(v, comma + 1, hi);
        if a < b {
            Some((a, b))
        } else {
            None
        }
    }
}

fn url_line_exec(v: &Vec<char>, pos: usize) -> (r: Option<(usize, usize, usize)>)
    ensures
        r matches Some((a, b, n)) ==> url_line(v@, pos as int) == Some((a as int, b as int, n as int)),
        r is None ==> url_line(v@, pos as int) is None,
{
    let mut p = pos;
    while p < v.len()
        invariant
            pos <= p,
            url_line(v@, pos as int) == url_line(v@, p as int),
        decreases v@.len() - p,
    {
        let (lo, hi, next) = line_at_exec(v, p);
        let (a, b) = trim_bounds(v, lo, hi);
        if a < b && v[a] != '#' {
            return Some((a, b, next));
        }
        p = next;
    }
    None
}

/// The channels of an M3U channel list: for every `#EXTINF` line with a
/// name, the channel named there, with the URL of the next line that is
/// neither empty nor a directive and the `group-title`, `tvg-logo` and
/// `tvg-id` attributes of the `#EXTINF` line when they are present and not
/// empty. `source_id` is left empty for the caller to fill.
pub fn channel_list(body: &str) -> (r: Vec<Channel>)
    ensures
        r@.map_values(|c: Channel| c@) == channels_at(body@, 0),
{
    let v = chars_of(body);
    let mut out: Vec<Channel> = Vec::new();
    let mut pos: usize = 0;
    while pos < v.len()
        invariant
            v@ == body@,
            out@.map_values(|c: Channel| c@) + channels_at(v@, pos as int) == channels_at(v@, 0),
        decreases v@.len() - pos,
    {
        let ghost before = out@.map_values(|c: Channel| c@);
        let (lo, hi, next) = line_at_exec(&v, pos);
        let (a, b) = trim_bounds(&v, lo, hi);
        let extinf = chars_of("#EXTINF");
        let is_ext = a <= b && extinf.len() <= b - a && matches_at_exec(&v, a, &extinf);
        if !is_ext {
            pos = next;
            continue;
        }
        match name_span_exec(&v, a, b) {
            None => {
                pos = next;
            },
            Some((na, nb)) => {
                match url_line_exec(&v, next) {
                    None => {
                        proof {
                            assert(channels_at(v@, pos as int) == Seq::<ChannelModel>::empty());
                            assert(channels_at(v@, v@.len() as int) == Seq::<ChannelModel>::empty());
                        }
                        pos = v.len();
                    },
                    Some((ua, ub, unext)) => {
                        proof {
                            lemma_url_line(v@, next as int);
                        }
                        let ch = Channel {
                            name: string_of(&v, na, nb),
                            url: string_of(&v, ua, ub),
                            group: attr_value_exec(&v, "group-title", a, b),
                            logo_url: attr_value_exec(&v, "tvg-logo", a, b),
                            tvg_id: attr_value_exec(&v, "tvg-id", a, b),
                            source_id: String::new(),
                        };
                        out.push(ch);
                        proof {
                            assert(out@.map_values(|c: Channel| c@) =~= before.push(ch@));
                        }
                        pos = unext;
                    },
                }
            },
        }
    }
    proof {
        assert(channels_at(v@, pos as int) =~= Seq::<ChannelModel>::empty());
    }
    out
}

} // verus!
