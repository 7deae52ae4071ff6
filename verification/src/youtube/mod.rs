//! YouTube channels the user follows: which of their uploads match a
//! search and how a video is keyed for the curation cache.
use vstd::prelude::*;
use crate::iptv::opt_view;
use crate::text::{contains_exec, contains_seq, lowercase, push_all, to_lower};
use crate::youtube::parse::RawVideo;

pub mod parse;

verus! {

/// A channel the user follows.
pub struct YoutubeSource {
    pub id: String,
    pub name: String,
    pub channel_url: String,
    pub channel_id: Option<String>,
    pub category: String,
    pub enabled: bool,
}

/// A video of a followed channel.
pub struct YoutubeVideo {
    pub video_id: String,
    pub title: String,
    pub published_at: String,
    pub thumbnail_url: Option<String>,
    pub source_id: String,
    pub category: String,
}

/// The categories a followed channel can be filed under.
pub open spec fn is_youtube_category(c: Seq<char>) -> bool {
    c == "cine"@ || c == "series"@ || c == "anime"@
}

/// Whether `category` is `cine`, `series` or `anime`.
pub fn valid_category(category: &str) -> (r: bool)
    ensures
        r == is_youtube_category(category@),
{
    let c = category.to_owned();
    c == "cine".to_owned() || c == "series".to_owned() || c == "anime".to_owned()
}

/// Whether the video title, lower-cased, contains `query_lower` (which the
/// caller lower-cases once for a whole search).
pub fn title_matches(title: &str, query_lower: &str) -> (r: bool)
    ensures
        r == contains_seq(lowercase(title@), query_lower@),
{
    let t = to_lower(title);
    contains_exec(t.as_str(), query_lower)
}

/// The key of a video in the curation cache: `source_id:video_id`.
pub fn youtube_video_key(v: &YoutubeVideo) -> (r: String)
    ensures
        r@ == v.source_id@ + ":"@ + v.video_id@,
{
    let mut k = v.source_id.clone();
    push_all(&mut k, ":");
    push_all(&mut k, v.video_id.as_str());
    k
}

/// Videos kept per channel on each refresh (four pages of 50).
pub const MAX_VIDEOS_PER_SOURCE: usize = 200;

/// Pages scanned by a search inside a channel.
pub const DEEP_SEARCH_MAX_PAGES: usize = 10;

/// The message for a category that is not one of the three.
pub fn check_category(category: &str) -> (r: Result<(), String>)
    ensures
        is_youtube_category(category@) ==> r is Ok,
        !is_youtube_category(category@) ==> (r matches Err(e) && e@ == "categoría inválida: "@ + category@
            + " (debe ser cine, series o anime)"@),
{
    if valid_category(category) {
        Ok(())
    } else {
        let mut e = "categoría inválida: ".to_owned();
        push_all(&mut e, category);
        push_all(&mut e, " (debe ser cine, series o anime)");
        Err(e)
    }
}

/// `v` is the video `raw` of the uploads playlist, tagged with the
/// channel's id and category.
pub open spec fn is_video_of(v: YoutubeVideo, raw: RawVideo, source: YoutubeSource) -> bool {
    &&& v.video_id == raw.video_id
    &&& v.title == raw.title
    &&& v.published_at == raw.published_at
    &&& v.thumbnail_url == raw.thumbnail_url
    &&& v.source_id@ == source.id@
    &&& v.category@ == source.category@
}

/// A video of the uploads playlist as it comes from the API, tagged with
/// its channel's id and category.
pub fn video_from_raw(raw: RawVideo, source: &YoutubeSource) -> (r: YoutubeVideo)
    ensures
        r.video_id == raw.video_id,
        r.title == raw.title,
        r.published_at == raw.published_at,
        r.thumbnail_url == raw.thumbnail_url,
        r.source_id@ == source.id@,
        r.category@ == source.category@,
        is_video_of(r, raw, *source),
{
    YoutubeVideo {
        video_id: raw.video_id,
        title: raw.title,
        published_at: raw.published_at,
        thumbnail_url: raw.thumbnail_url,
        source_id: source.id.clone(),
        category: source.category.clone(),
    }
}

/// Adds a page of a channel's uploads to the videos read so far; `true`
/// when the channel's quota of `MAX_VIDEOS_PER_SOURCE` is reached (the
/// videos past it are dropped and no further page is read).
pub fn add_uploads_page(videos: &mut Vec<YoutubeVideo>, page: Vec<RawVideo>, source: &YoutubeSource) -> (full: bool)
    ensures
        full == (old(videos)@.len() + page@.len() >= MAX_VIDEOS_PER_SOURCE),
        final(videos)@.len() == if full {
            MAX_VIDEOS_PER_SOURCE as int
        } else {
            (old(videos)@.len() + page@.len()) as int
        },
        forall|i: int| 0 <= i < old(videos)@.len() && i < final(videos)@.len() ==> #[trigger] final(videos)@[i] == old(videos)@[i],
        forall|i: int|
            old(videos)@.len() <= i < final(videos)@.len() ==> is_video_of(#[trigger] final(videos)@[i], page@[i - old(videos)@.len()], *source),
{
    let ghost orig = videos@;
    let ghost pg = page@;
    let mut page = page;
    let mut rev: Vec<RawVideo> = Vec::new();
    while page.len() > 0
        invariant
            rev@.len() + page@.len() == pg.len(),
            page@ == pg.take(page@.len() as int),
            forall|k: int| 0 <= k < rev@.len() ==> #[trigger] rev@[k] == pg[pg.len() - 1 - k],
        decreases page@.len(),
    {
        let v = page.pop().unwrap();
        rev.push(v);
        assert(page@ =~= pg.take(page@.len() as int));
    }
    while rev.len() > 0
        invariant
            rev@.len() + videos@.len() == orig.len() + pg.len(),
            orig.len() <= videos@.len(),
            forall|k: int| 0 <= k < rev@.len() ==> #[trigger] rev@[k] == pg[pg.len() - 1 - k],
            forall|i: int| 0 <= i < orig.len() ==> #[trigger] videos@[i] == orig[i],
            forall|i: int|
                orig.len() <= i < videos@.len() ==> is_video_of(#[trigger] videos@[i], pg[i - orig.len()], *source),
        decreases rev@.len(),
    {
        let raw = rev.pop().unwrap();
        assert(raw == pg[videos@.len() - orig.len()]);
        let v = video_from_raw(raw, source);
        videos.push(v);
    }
    if videos.len() >= MAX_VIDEOS_PER_SOURCE {
        while videos.len() > MAX_VIDEOS_PER_SOURCE
            invariant
                videos@.len() >= MAX_VIDEOS_PER_SOURCE,
                forall|i: int| 0 <= i < orig.len() && i < videos@.len() ==> #[trigger] videos@[i] == orig[i],
                forall|i: int|
                    orig.len() <= i < videos@.len() ==> is_video_of(#[trigger] videos@[i], pg[i - orig.len()], *source),
            decreases videos@.len(),
        {
            videos.pop();
        }
        true
    } else {
        false
    }
}

/// The videos of a page whose lower-cased title contains the search, in
/// order.
pub open spec fn matching_raw(page: Seq<RawVideo>, query_lower: Seq<char>) -> Seq<RawVideo>
    decreases page.len(),
{
    if page.len() == 0 {
        seq![]
    } else {
        let prev = matching_raw(page.drop_last(), query_lower);
        if contains_seq(lowercase(page.last().title@), query_lower) {
            prev.push(page.last())
        } else {
            prev
        }
    }
}

/// The videos of a page whose title matches a search (see
/// `title_matches`), in order, tagged with their channel.
pub fn matching_videos(page: Vec<RawVideo>, query_lower: &str, source: &YoutubeSource) -> (r: Vec<YoutubeVideo>)
    ensures
        r@.len() == matching_raw(page@, query_lower@).len(),
        forall|i: int|
            0 <= i < r@.len() ==> {
                let v = #[trigger] r@[i];
                let w = matching_raw(page@, query_lower@)[i];
                &&& v.video_id == w.video_id
                &&& v.title == w.title
                &&& v.published_at == w.published_at
                &&& v.thumbnail_url == w.thumbnail_url
                &&& v.source_id@ == source.id@
                &&& v.category@ == source.category@
            },
{
    let ghost pg = page@;
    let mut page = page;
    let mut rev: Vec<RawVideo> = Vec::new();
    while page.len() > 0
        invariant
            rev@.len() + page@.len() == pg.len(),
            page@ == pg.take(page@.len() as int),
            forall|k: int| 0 <= k < rev@.len() ==> #[trigger] rev@[k] == pg[pg.len() - 1 - k],
        decreases page@.len(),
    {
        let v = page.pop().unwrap();
        rev.push(v);
        assert(page@ =~= pg.take(page@.len() as int));
    }
    let mut out: Vec<YoutubeVideo> = Vec::new();
    while rev.len() > 0
        invariant
            rev@.len() <= pg.len(),
            forall|k: int| 0 <= k < rev@.len() ==> #[trigger] rev@[k] == pg[pg.len() - 1 - k],
            out@.len() == matching_raw(pg.take(pg.len() - rev@.len()), query_lower@).len(),
            forall|i: int|
                0 <= i < out@.len() ==> {
                    let v = #[trigger] out@[i];
                    let w = matching_raw(pg.take(pg.len() - rev@.len()), query_lower@)[i];
                    &&& v.video_id == w.video_id
                    &&& v.title == w.title
                    &&& v.published_at == w.published_at
                    &&& v.thumbnail_url == w.thumbnail_url
                    &&& v.source_id@ == source.id@
                    &&& v.category@ == source.category@
                },
        decreases rev@.len(),
    {
        let ghost k = pg.len() - rev@.len();
        let raw = rev.pop().unwrap();
        assert(raw == pg[k]);
        assert(pg.take(k + 1).drop_last() =~= pg.take(k));
        assert(pg.take(k + 1).last() == pg[k]);
        let ghost prev = matching_raw(pg.take(k), query_lower@);
        if title_matches(raw.title.as_str(), query_lower) {
            let ghost w = raw;
            let v = video_from_raw(raw, source);
            out.push(v);
            assert(matching_raw(pg.take(k + 1), query_lower@) == prev.push(w));
        }
    }
    assert(pg.take(pg.len() as int) =~= pg);
    out
}

/// The thumbnail of a video: the `high` one, else the `default` one.
pub fn pick_thumbnail(high: Option<String>, default: Option<String>) -> (r: Option<String>)
    ensures
        r == match high {
            Some(h) => Some(h),
            None => default,
        },
{
    match high {
        Some(h) => Some(h),
        None => default,
    }
}

} // verus!
