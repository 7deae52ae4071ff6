//! What the user pasted to follow a channel: a handle (`@name`, or a URL
//! with `/@name`) or a channel id (a URL with `/channel/UC…`, or the bare
//! id). Legacy `/c/` and `/user/` URLs are refused, not guessed at.
use vstd::prelude::*;
use crate::text::{
    chars_of, find_pat, find_pat_exec, lemma_find_pat, push_all, string_of, sub_vec, trim,
    trim_bounds,
};
use crate::percent::{pct_decode, url_decode, url_decoded};
use vstd::utf8::{decode_utf8, encode_utf8, encode_utf8_decode_utf8};
use crate::indexers::parse::is_alnum;

verus! {

/// A reference to a channel, as the YouTube Data API resolves it.
#[derive(Debug, PartialEq, Eq)]
pub enum ChannelReference {
    Handle(String),
    Id(String),
}

/// A channel reference as plain sequences.
pub enum ChannelRef {
    Handle(Seq<char>),
    Id(Seq<char>),
}

impl View for ChannelReference {
    type V = ChannelRef;

    open spec fn view(&self) -> ChannelRef {
        match self {
            ChannelReference::Handle(h) => ChannelRef::Handle(h@),
            ChannelReference::Id(i) => ChannelRef::Id(i@),
        }
    }
}

/// The first index at or after `i` of `/` or `?`, or the end.
pub open spec fn segment_end(s: Seq<char>, i: int) -> int
    decreases s.len() - i,
{
    if i >= s.len() {
        s.len() as int
    } else if s[i] == '/' || s[i] == '?' {
        i
    } else {
        segment_end(s, i + 1)
    }
}

/// A URL fragment percent-decoded, or as it is when its bytes do not
/// decode to UTF-8.
pub open spec fn decode_fragment(x: Seq<char>) -> Seq<char> {
    match url_decoded(x) {
        Some(d) => d,
        None => x,
    }
}

pub open spec fn channel_id_char(c: char) -> bool {
    is_alnum(c) || c == '_' || c == '-'
}

/// A bare channel id: `UC` and 22 more letters, digits, `_` or `-`.
pub open spec fn is_bare_channel_id(s: Seq<char>) -> bool {
    &&& s.len() == 24
    &&& s[0] == 'U'
    &&& s[1] == 'C'
    &&& forall|i: int| 0 <= i < s.len() ==> channel_id_char(#[trigger] s[i])
}

/// The segment after the first occurrence of `marker` in `s`, up to the
/// next `/` or `?`, when it is not empty.
pub open spec fn segment_after(s: Seq<char>, marker: Seq<char>) -> Option<Seq<char>> {
    match find_pat(s, marker, 0, s.len() as int) {
        Some(i) => {
            let e = segment_end(s, i + marker.len());
            if e > i + marker.len() {
                Some(s.subrange(i + marker.len(), e))
            } else {
                None
            }
        },
        None => None,
    }
}

/// The message for input that names no channel in a supported form.
pub open spec fn reference_error(s: Seq<char>) -> Seq<char> {
    "no se pudo interpretar '"@ + s
        + "' como canal de YouTube — usa un handle (@nombre o youtube.com/@nombre) o una URL youtube.com/channel/UC... (las URLs /c/ o /user/ legacy no se resuelven de forma confiable, busca el link con /channel/ en su lugar)"@
}

/// The channel that the trimmed input `s` names, trying in turn: `@handle`,
/// a URL with `/@handle`, a URL with `/channel/id`, a bare id. Handles and
/// ids taken from a URL are percent-decoded.
pub open spec fn channel_reference(s: Seq<char>) -> Result<ChannelRef, Seq<char>> {
    if s.len() >= 2 && s[0] == '@' {
        Ok(ChannelRef::Handle(decode_fragment(s.subrange(1, s.len() as int))))
    } else {
        match segment_after(s, "/@"@) {
            Some(h) => Ok(ChannelRef::Handle(decode_fragment(h))),
            None => match segment_after(s, "/channel/"@) {
                Some(id) => Ok(ChannelRef::Id(decode_fragment(id))),
                None => if is_bare_channel_id(s) {
                    Ok(ChannelRef::Id(s))
                } else {
                    Err(reference_error(s))
                },
            },
        }
    }
}

proof fn lemma_decode_fragment_not_empty(x: Seq<char>)
    requires
        x.len() > 0,
    ensures
        decode_fragment(x).len() > 0,
{
    if url_decoded(x) is Some {
        let e = encode_utf8(x);
        encode_utf8_decode_utf8(x);
        if e.len() == 0 {
            assert(decode_utf8(e) =~= Seq::<char>::empty());
        }
        let b = pct_decode(e);
        assert(b.len() > 0);
    }
}

proof fn lemma_segment_end(s: Seq<char>, i: int)
    requires
        0 <= i <= s.len(),
    ensures
        i <= segment_end(s, i) <= s.len(),
    decreases s.len() - i,
{
    if i < s.len() && !(s[i] == '/' || s[i] == '?') {
        lemma_segment_end(s, i + 1);
    }
}

proof fn lemma_segment_after(s: Seq<char>, marker: Seq<char>)
    ensures
        segment_after(s, marker) matches Some(x) ==> x.len() > 0,
{
    lemma_find_pat(s, marker, 0, s.len() as int);
    if let Some(i) = find_pat(s, marker, 0, s.len() as int) {
        lemma_segment_end(s, i + marker.len());
    }
}

/// A pasted reference is accepted in exactly four forms: `@handle`, a URL
/// with a non-empty segment after `/@`, a URL with a non-empty segment
/// after `/channel/`, or a bare `UC…` id of 24 letters, digits, `_` or
/// `-`.
pub proof fn a_channel_reference_takes_four_forms(s: Seq<char>)
    ensures
        channel_reference(s) is Ok <==> ((s.len() >= 2 && s[0] == '@') || segment_after(s, "/@"@) is Some
            || segment_after(s, "/channel/"@) is Some || is_bare_channel_id(s)),
{
}

/// A channel reference always names something: its handle or id is not
/// empty.
pub proof fn channel_references_are_not_empty(s: Seq<char>)
    ensures
        channel_reference(s) matches Ok(ChannelRef::Handle(h)) ==> h.len() > 0,
        channel_reference(s) matches Ok(ChannelRef::Id(i)) ==> i.len() > 0,
{
    if s.len() >= 2 && s[0] == '@' {
        lemma_decode_fragment_not_empty(s.subrange(1, s.len() as int));
    } else if let Some(h) = segment_after(s, "/@"@) {
        lemma_segment_after(s, "/@"@);
        lemma_decode_fragment_not_empty(h);
    } else if let Some(i) = segment_after(s, "/channel/"@) {
        lemma_segment_after(s, "/channel/"@);
        lemma_decode_fragment_not_empty(i);
    }
}

fn decode_fragment_exec(v: &Vec<char>, lo: usize, hi: usize) -> (r: String)
    requires
        lo <= hi <= v@.len(),
    ensures
        r@ == decode_fragment(v@.subrange(lo as int, hi as int)),
{
    let raw = string_of(v, lo, hi);
    match url_decode(raw.as_str()) {
        Some(d) => d,
        None => raw,
    }
}

fn segment_after_exec(v: &Vec<char>, marker: &str) -> (r: Option<(usize, usize)>)
    ensures
        r matches Some((a, b)) ==> a <= b <= v@.len() && segment_after(v@, marker@) == Some(v@.subrange(a as int, b as int)),
        r is None ==> segment_after(v@, marker@) is None,
{
    let m = chars_of(marker);
    proof {
        lemma_find_pat(v@, m@, 0, v@.len() as int);
    }
    match find_pat_exec(v, &m, 0, v.len()) {
        Some(i) => {
            let start = i + m.len();
            let mut e = start;
            while e < v.len() && v[e] != '/' && v[e] != '?'
                invariant
                    start <= e <= v@.len(),
                    segment_end(v@, start as int) == segment_end(v@, e as int),
                decreases v@.len() - e,
            {
                e += 1;
            }
            if e > start {
                Some((start, e))
            } else {
                None
            }
        },
        None => None,
    }
}

/// The channel named by what the user pasted (trimmed first): `@handle`,
/// a URL with `/@handle` or `/channel/UC…` (the segment up to the next `/`
/// or `?`, percent-decoded), or a bare 24-character `UC…` id. Anything else
/// is an error that says which forms are accepted.
pub fn extract_channel_reference(input: &str) -> (r: Result<ChannelReference, String>)
    ensures
        match r {
            Ok(c) => channel_reference(trim(input@)) == Ok::<ChannelRef, Seq<char>>(c@),
            Err(e) => channel_reference(trim(input@)) == Err::<ChannelRef, Seq<char>>(e@),
        },
{
    let all = chars_of(input);
    let (a, b) = trim_bounds(&all, 0, all.len());
    let v = sub_vec(&all, a, b);
    proof {
        assert(v@ == trim(input@));
    }
    if v.len() >= 2 && v[0] == '@' {
        return Ok(ChannelReference::Handle(decode_fragment_exec(&v, 1, v.len())));
    }
    if let Some((x, y)) = segment_after_exec(&v, "/@") {
        return Ok(ChannelReference::Handle(decode_fragment_exec(&v, x, y)));
    }
    if let Some((x, y)) = segment_after_exec(&v, "/channel/") {
        return Ok(ChannelReference::Id(decode_fragment_exec(&v, x, y)));
    }
    if v.len() == 24 && v[0] == 'U' && v[1] == 'C' {
        let mut i: usize = 0;
        let mut ok = true;
        while i < v.len()
            invariant
                i <= v@.len(),
                ok <==> forall|j: int| 0 <= j < i ==> channel_id_char(#[trigger] v@[j]),
            decreases v@.len() - i,
        {
            let c = v[i];
            if !(('a' <= c && c <= 'z') || ('A' <= c && c <= 'Z') || ('0' <= c && c <= '9') || c == '_'
                || c == '-') {
                ok = false;
            }
            i += 1;
        }
        if ok {
            let id = string_of(&v, 0, v.len());
            assert(id@ =~= v@);
            return Ok(ChannelReference::Id(id));
        }
    }
    assert(!is_bare_channel_id(v@));
    let mut msg = "no se pudo interpretar '".to_owned();
    let s = string_of(&v, 0, v.len());
    push_all(&mut msg, s.as_str());
    push_all(
        &mut msg,
        "' como canal de YouTube — usa un handle (@nombre o youtube.com/@nombre) o una URL youtube.com/channel/UC... (las URLs /c/ o /user/ legacy no se resuelven de forma confiable, busca el link con /channel/ en su lugar)",
    );
    assert(s@ =~= v@);
    assert(msg@ == reference_error(v@));
    Err(msg)
}

/// A channel resolved by the Data API: its id and its uploads playlist.
pub struct ResolvedChannel {
    pub channel_id: String,
    pub uploads_playlist_id: String,
}

/// A video of an uploads playlist as the Data API lists it.
pub struct RawVideo {
    pub video_id: String,
    pub title: String,
    pub published_at: String,
    pub thumbnail_url: Option<String>,
}

} // verus!
