//! IPTV sources: the channel list an aggregator playlist carries, the HLS
//! media playlists a recording reads, and the decisions of the recorder.
use vstd::prelude::*;
use crate::text::{chars_of, matches_at, matches_at_exec, push_all, trim_bounds, trim_lo};

pub mod parse;
pub mod hls;
pub mod recorder;

verus! {

/// One live channel of an IPTV source.
pub struct Channel {
    pub name: String,
    pub url: String,
    pub group: Option<String>,
    pub logo_url: Option<String>,
    pub tvg_id: Option<String>,
    pub source_id: String,
}

/// A channel as plain sequences.
pub struct ChannelModel {
    pub name: Seq<char>,
    pub url: Seq<char>,
    pub group: Option<Seq<char>>,
    pub logo_url: Option<Seq<char>>,
    pub tvg_id: Option<Seq<char>>,
    pub source_id: Seq<char>,
}

pub open spec fn opt_view(o: Option<String>) -> Option<Seq<char>> {
    match o {
        Some(s) => Some(s@),
        None => None,
    }
}

impl View for Channel {
    type V = ChannelModel;

    open spec fn view(&self) -> ChannelModel {
        ChannelModel {
            name: self.name@,
            url: self.url@,
            group: opt_view(self.group),
            logo_url: opt_view(self.logo_url),
            tvg_id: opt_view(self.tvg_id),
            source_id: self.source_id@,
        }
    }
}

/// A source of channels: a playlist URL or an uploaded file.
pub struct IptvSource {
    pub id: String,
    pub name: String,
    pub source_kind: String,
    pub playlist_url: Option<String>,
    pub enabled: bool,
}

/// Where a source's channel list is read from.
pub enum ChannelSourceRoute {
    /// Downloaded from its playlist URL.
    Url(String),
    /// Read from the playlist file stored for it.
    File,
}

/// Where the channels of a source come from: a `url` source from its
/// playlist URL (an error without one), a `file` source from its stored
/// file; any other kind is an error.
pub fn channel_source_route(source: &IptvSource) -> (r: Result<ChannelSourceRoute, String>)
    ensures
        source.source_kind@ == "url"@ ==> match source.playlist_url {
            Some(u) => r matches Ok(ChannelSourceRoute::Url(x)) && x@ == u@,
            None => r matches Err(e) && e@ == "fuente 'url' sin playlist_url"@,
        },
        source.source_kind@ == "file"@ ==> r matches Ok(ChannelSourceRoute::File),
        source.source_kind@ != "url"@ && source.source_kind@ != "file"@ ==> (r matches Err(e) && e@
            == "source_kind de fuente IPTV desconocido: "@ + source.source_kind@),
{
    proof {
        reveal_strlit("url");
        reveal_strlit("file");
        assert("url"@.len() != "file"@.len());
    }
    if source.source_kind == "url".to_owned() {
        match &source.playlist_url {
            Some(u) => Ok(ChannelSourceRoute::Url(u.clone())),
            None => Err("fuente 'url' sin playlist_url".to_owned()),
        }
    } else if source.source_kind == "file".to_owned() {
        Ok(ChannelSourceRoute::File)
    } else {
        let mut e = "source_kind de fuente IPTV desconocido: ".to_owned();
        push_all(&mut e, source.source_kind.as_str());
        Err(e)
    }
}

/// The channels of a source, each marked with the source's id.
pub fn tag_channels(channels: Vec<Channel>, source_id: &str) -> (r: Vec<Channel>)
    ensures
        r@.len() == channels@.len(),
        forall|i: int|
            0 <= i < r@.len() ==> {
                let c = #[trigger] r@[i];
                &&& c.name == channels@[i].name
                &&& c.url == channels@[i].url
                &&& c.group == channels@[i].group
                &&& c.logo_url == channels@[i].logo_url
                &&& c.tvg_id == channels@[i].tvg_id
                &&& c.source_id@ == source_id@
            },
{
    let ghost orig = channels@;
    let mut channels = channels;
    let mut out: Vec<Channel> = Vec::new();
    let mut rev: Vec<Channel> = Vec::new();
    while channels.len() > 0
        invariant
            rev@.len() + channels@.len() == orig.len(),
            channels@ == orig.take(channels@.len() as int),
            forall|k: int| 0 <= k < rev@.len() ==> #[trigger] rev@[k] == orig[orig.len() - 1 - k],
        decreases channels@.len(),
    {
        let c = channels.pop().unwrap();
        rev.push(c);
        assert(channels@ =~= orig.take(channels@.len() as int));
    }
    while rev.len() > 0
        invariant
            rev@.len() + out@.len() == orig.len(),
            forall|k: int| 0 <= k < rev@.len() ==> #[trigger] rev@[k] == orig[orig.len() - 1 - k],
            forall|i: int|
                0 <= i < out@.len() ==> {
                    let c = #[trigger] out@[i];
                    &&& c.name == orig[i].name
                    &&& c.url == orig[i].url
                    &&& c.group == orig[i].group
                    &&& c.logo_url == orig[i].logo_url
                    &&& c.tvg_id == orig[i].tvg_id
                    &&& c.source_id@ == source_id@
                },
        decreases rev@.len(),
    {
        let c = rev.pop().unwrap();
        assert(c == orig[out@.len() as int]);
        out.push(Channel {
            name: c.name,
            url: c.url,
            group: c.group,
            logo_url: c.logo_url,
            tvg_id: c.tvg_id,
            source_id: source_id.to_owned(),
        });
    }
    out
}

/// The answer of a channel's URL is a live HLS manifest: a success status
/// and a body that starts, past leading whitespace, with `#EXTM3U`. The
/// channel's final URL (after redirects) is kept.
pub open spec fn manifest_check(status_ok: bool, status_text: Seq<char>, body: Seq<char>) -> Option<Seq<char>> {
    if !status_ok {
        Some("el canal respondió con estado "@ + status_text)
    } else if !matches_at(body, trim_lo(body, 0, body.len() as int), "#EXTM3U"@) {
        Some("la URL no devolvió un manifest HLS válido (no empieza con #EXTM3U)"@)
    } else {
        None
    }
}

/// Checks the answer of a channel's URL (see `manifest_check`); the final
/// URL when it is a manifest.
pub fn validate_manifest(status_ok: bool, status_text: &str, final_url: String, body: &str) -> (r: Result<String, String>)
    ensures
        match manifest_check(status_ok, status_text@, body@) {
            Some(e) => r matches Err(x) && x@ == e,
            None => r matches Ok(u) && u@ == final_url@,
        },
{
    if !status_ok {
        let mut e = "el canal respondió con estado ".to_owned();
        push_all(&mut e, status_text);
        return Err(e);
    }
    let v = chars_of(body);
    let (a, _) = trim_bounds(&v, 0, v.len());
    let tag = chars_of("#EXTM3U");
    if !matches_at_exec(&v, a, &tag) {
        return Err("la URL no devolvió un manifest HLS válido (no empieza con #EXTM3U)".to_owned());
    }
    Ok(final_url)
}

} // verus!
