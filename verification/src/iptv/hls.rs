//! The HLS playlists a recording reads (parsed by `m3u8-rs`): which media
//! playlists the recorder accepts, and which variant of a master playlist
//! it records.
use vstd::prelude::*;
use crate::iptv::opt_view;
use crate::text::push_all;
use m3u8_rs::{parse_playlist_res, KeyMethod, Playlist};

verus! {

/// How the segments after an `EXT-X-KEY` tag are encrypted.
#[derive(PartialEq, Eq, Structural, Clone, Copy, Debug)]
pub enum KeyMethodKind {
    NoEncryption,
    Aes128,
    SampleAes,
    Other,
}

/// What the recorder reads of a segment of a media playlist.
pub struct SegmentInfo {
    pub uri: String,
    pub key_method: Option<KeyMethodKind>,
    pub byte_range: bool,
}

/// What the recorder reads of a variant of a master playlist.
pub struct VariantInfo {
    pub uri: String,
    pub bandwidth: u64,
    pub is_i_frame: bool,
}

/// A parsed HLS playlist.
pub enum HlsManifest {
    Master(Vec<VariantInfo>),
    Media { target_duration: u64, end_list: bool, segments: Vec<SegmentInfo> },
}

/// A segment as plain values.
pub struct SegmentModel {
    pub uri: Seq<char>,
    pub key_method: Option<KeyMethodKind>,
    pub byte_range: bool,
}

/// A variant as plain values.
pub struct VariantModel {
    pub uri: Seq<char>,
    pub bandwidth: u64,
    pub is_i_frame: bool,
}

/// A parsed playlist as plain values.
pub enum HlsModel {
    Master(Seq<VariantModel>),
    Media { target_duration: u64, end_list: bool, segments: Seq<SegmentModel> },
}

impl View for SegmentInfo {
    type V = SegmentModel;

    open spec fn view(&self) -> SegmentModel {
        SegmentModel { uri: self.uri@, key_method: self.key_method, byte_range: self.byte_range }
    }
}

impl View for VariantInfo {
    type V = VariantModel;

    open spec fn view(&self) -> VariantModel {
        VariantModel { uri: self.uri@, bandwidth: self.bandwidth, is_i_frame: self.is_i_frame }
    }
}

impl View for HlsManifest {
    type V = HlsModel;

    open spec fn view(&self) -> HlsModel {
        match self {
            HlsManifest::Master(v) => HlsModel::Master(v@.map_values(|x: VariantInfo| x@)),
            HlsManifest::Media { target_duration, end_list, segments } => HlsModel::Media {
                target_duration: *target_duration,
                end_list: *end_list,
                segments: segments@.map_values(|x: SegmentInfo| x@),
            },
        }
    }
}

/// What `m3u8_rs::parse_playlist_res` makes of a body: the playlist, or
/// the text of its parse error.
pub uninterp spec fn hls_parse(body: Seq<u8>) -> Result<HlsModel, Seq<char>>;

/// Calls `m3u8_rs::parse_playlist_res` and keeps of the playlist what the
/// recorder reads; its result is a function of the body alone, named
/// `hls_parse`.
#[verifier::external_body]
fn parse_hls(body: &[u8]) -> (r: Result<HlsManifest, String>)
    ensures
        match r {
            Ok(m) => hls_parse(body@) == Ok::<HlsModel, Seq<char>>(m@),
            Err(e) => hls_parse(body@) == Err::<HlsModel, Seq<char>>(e@),
        },
{
    match parse_playlist_res(body) {
        Ok(Playlist::MasterPlaylist(m)) => Ok(HlsManifest::Master(m.variants.into_iter().map(|v| VariantInfo {
            uri: v.uri, bandwidth: v.bandwidth, is_i_frame: v.is_i_frame }).collect())),
        Ok(Playlist::MediaPlaylist(m)) => Ok(HlsManifest::Media {
            target_duration: m.target_duration, end_list: m.end_list,
            segments: m.segments.into_iter().map(|g| SegmentInfo {
                key_method: g.key.map(|k| match k.method {
                    KeyMethod::None => KeyMethodKind::NoEncryption,
                    KeyMethod::AES128 => KeyMethodKind::Aes128,
                    KeyMethod::SampleAES => KeyMethodKind::SampleAes,
                    _ => KeyMethodKind::Other,
                }), byte_range: g.byte_range.is_some(), uri: g.uri }).collect(),
        }),
        Err(e) => Err(e.to_string()),
    }
}

/// A segment to record.
#[derive(Debug)]
pub struct Segment {
    pub uri: String,
}

/// A media playlist the recorder accepts.
#[derive(Debug)]
pub struct MediaPlaylist {
    pub target_duration: u64,
    pub end_list: bool,
    pub segments: Vec<Segment>,
}

pub open spec fn encrypted(s: SegmentModel) -> bool {
    s.key_method matches Some(k) && k != KeyMethodKind::NoEncryption
}

/// The first segment that the recorder refuses, from `i` on: encrypted,
/// or read by byte range.
pub open spec fn first_refused(segs: Seq<SegmentModel>, i: int) -> Option<int>
    decreases segs.len() - i,
{
    if i < 0 || i >= segs.len() {
        None
    } else if encrypted(segs[i]) || segs[i].byte_range {
        Some(i)
    } else {
        first_refused(segs, i + 1)
    }
}

pub open spec fn master_refused() -> Seq<char> {
    "manifest multi-bitrate (playlist maestra) no soportado en v1 para grabación — elegí la URL de una variante específica, no la maestra"@
}

pub open spec fn encrypted_refused() -> Seq<char> {
    "segmento cifrado (EXT-X-KEY) no soportado en v1 para grabación"@
}

pub open spec fn byte_range_refused() -> Seq<char> {
    "segmento con EXT-X-BYTERANGE no soportado en v1 para grabación"@
}

/// What `parse_media_playlist` gives for a parsed playlist: a master
/// playlist is refused, and so is a media playlist with an encrypted or
/// byte-range segment (the first such segment names the reason); otherwise
/// the segments' URIs in order.
pub open spec fn media_playlist_of(parsed: Result<HlsModel, Seq<char>>) -> Result<(u64, bool, Seq<Seq<char>>), Seq<char>> {
    match parsed {
        Err(e) => Err("no se pudo parsear la media playlist HLS: "@ + e),
        Ok(HlsModel::Master(_)) => Err(master_refused()),
        Ok(HlsModel::Media { target_duration, end_list, segments }) => match first_refused(segments, 0) {
            Some(i) => if encrypted(segments[i]) {
                Err(encrypted_refused())
            } else {
                Err(byte_range_refused())
            },
            None => Ok((target_duration, end_list, segments.map_values(|s: SegmentModel| s.uri))),
        },
    }
}

/// The parse result as plain values.
pub open spec fn parsed_view(parsed: Result<HlsManifest, String>) -> Result<HlsModel, Seq<char>> {
    match parsed {
        Ok(m) => Ok(m@),
        Err(e) => Err(e@),
    }
}

/// The media playlist to record from a parsed manifest (see
/// `media_playlist_of`).
pub fn media_playlist_from(parsed: Result<HlsManifest, String>) -> (r: Result<MediaPlaylist, String>)
    ensures
        match r {
            Ok(p) => media_playlist_of(parsed_view(parsed)) == Ok::<(u64, bool, Seq<Seq<char>>), Seq<char>>(
                (p.target_duration, p.end_list, p.segments@.map_values(|s: Segment| s.uri@)),
            ),
            Err(e) => media_playlist_of(parsed_view(parsed)) == Err::<(u64, bool, Seq<Seq<char>>), Seq<char>>(e@),
        },
{
    let ghost pv = parsed_view(parsed);
    match parsed {
        Err(e) => {
            let mut m = "no se pudo parsear la media playlist HLS: ".to_owned();
            push_all(&mut m, e.as_str());
            Err(m)
        },
        Ok(HlsManifest::Master(_)) => Err(
            "manifest multi-bitrate (playlist maestra) no soportado en v1 para grabación — elegí la URL de una variante específica, no la maestra".to_owned(),
        ),
        Ok(HlsManifest::Media { target_duration, end_list, segments }) => {
            let ghost segs = segments@.map_values(|x: SegmentInfo| x@);
            let mut out: Vec<Segment> = Vec::new();
            let mut i: usize = 0;
            while i < segments.len()
                invariant
                    i <= segments@.len(),
                    segs == segments@.map_values(|x: SegmentInfo| x@),
                    pv == Ok::<HlsModel, Seq<char>>(HlsModel::Media { target_duration, end_list, segments: segs }),
                    pv == parsed_view(parsed),
                    first_refused(segs, 0) == first_refused(segs, i as int),
                    out@.map_values(|s: Segment| s.uri@) == segs.take(i as int).map_values(|s: SegmentModel| s.uri),
                decreases segments@.len() - i,
            {
                let s = &segments[i];
                assert(segs[i as int] == s@);
                let enc = match s.key_method {
                    Some(KeyMethodKind::NoEncryption) => false,
                    Some(_) => true,
                    None => false,
                };
                if enc {
                    return Err("segmento cifrado (EXT-X-KEY) no soportado en v1 para grabación".to_owned());
                }
                if s.byte_range {
                    return Err("segmento con EXT-X-BYTERANGE no soportado en v1 para grabación".to_owned());
                }
                let ghost prev = out@.map_values(|s: Segment| s.uri@);
                out.push(Segment { uri: s.uri.clone() });
                assert(out@.map_values(|s: Segment| s.uri@) =~= prev.push(segs[i as int].uri));
                assert(segs.take(i + 1).map_values(|s: SegmentModel| s.uri) =~= segs.take(i as int).map_values(
                    |s: SegmentModel| s.uri,
                ).push(segs[i as int].uri));
                i += 1;
            }
            assert(segs.take(i as int) =~= segs);
            Ok(MediaPlaylist { target_duration, end_list, segments: out })
        },
    }
}

/// Reads the media playlist of a channel for recording, refusing what the
/// recorder cannot record faithfully: a master playlist (no variant is
/// guessed), encrypted segments and byte-range segments.
pub fn parse_media_playlist(body: &[u8]) -> (r: Result<MediaPlaylist, String>)
    ensures
        match r {
            Ok(p) => media_playlist_of(hls_parse(body@)) == Ok::<(u64, bool, Seq<Seq<char>>), Seq<char>>(
                (p.target_duration, p.end_list, p.segments@.map_values(|s: Segment| s.uri@)),
            ),
            Err(e) => media_playlist_of(hls_parse(body@)) == Err::<(u64, bool, Seq<Seq<char>>), Seq<char>>(e@),
        },
{
    media_playlist_from(parse_hls(body))
}

/// `url::Url::join` of `rel` against the URL `base` (which is parsed
/// first): the resolved URL's text, `None` when either fails.
pub uninterp spec fn url_join(base: Seq<char>, rel: Seq<char>) -> Option<Seq<char>>;

/// Calls `url::Url::parse(base)` and `Url::join(rel)` on the result, as
/// RFC 3986 reference resolution; a function of the two texts alone.
#[verifier::external_body]
pub(crate) fn join_url(base: &str, rel: &str) -> (r: Option<String>)
    ensures
        opt_view(r) == url_join(base@, rel@),
{
    match url::Url::parse(base) {
        Ok(b) => match b.join(rel) {
            Ok(u) => Some(u.to_string()),
            Err(_) => None,
        },
        Err(_) => None,
    }
}

/// The variant a recording takes: the one of highest bandwidth among the
/// variants that are not I-frame-only (the last of them on a tie), from
/// position `i` on, given the best so far.
pub open spec fn best_variant_from(v: Seq<VariantModel>, i: int, best: Option<int>) -> Option<int>
    decreases v.len() - i,
{
    if i < 0 || i >= v.len() {
        best
    } else if v[i].is_i_frame {
        best_variant_from(v, i + 1, best)
    } else {
        match best {
            Some(b) => if v[i].bandwidth >= v[b].bandwidth {
                best_variant_from(v, i + 1, Some(i))
            } else {
                best_variant_from(v, i + 1, best)
            },
            None => best_variant_from(v, i + 1, Some(i)),
        }
    }
}

pub proof fn lemma_best_variant(v: Seq<VariantModel>, i: int, best: Option<int>)
    requires
        0 <= i,
        best matches Some(b) ==> 0 <= b < v.len() && !v[b].is_i_frame,
    ensures
        best_variant_from(v, i, best) matches Some(b) ==> 0 <= b < v.len() && !v[b].is_i_frame,
        best is Some ==> best_variant_from(v, i, best) is Some,
    decreases v.len() - i,
{
    if i < v.len() {
        if v[i].is_i_frame {
            lemma_best_variant(v, i + 1, best);
        } else {
            match best {
                Some(b) => if v[i].bandwidth >= v[b].bandwidth {
                    lemma_best_variant(v, i + 1, Some(i));
                } else {
                    lemma_best_variant(v, i + 1, best);
                },
                None => lemma_best_variant(v, i + 1, Some(i)),
            }
        }
    }
}

/// The variant a recording takes has the highest bandwidth of all the
/// variants that are not I-frame-only, and there is one exactly when such
/// a variant exists.
pub proof fn recorded_variant_has_the_highest_bandwidth(v: Seq<VariantModel>)
    ensures
        best_variant_from(v, 0, None) matches Some(b) ==> 0 <= b < v.len() && !v[b].is_i_frame && forall|
            k: int,
        | 0 <= k < v.len() && !v[k].is_i_frame ==> #[trigger] v[k].bandwidth <= v[b].bandwidth,
        best_variant_from(v, 0, None) is None ==> forall|k: int| 0 <= k < v.len() ==> #[trigger] v[k].is_i_frame,
{
    lemma_best_is_max(v, 0, None);
    lemma_best_variant(v, 0, None);
}

proof fn lemma_best_is_max(v: Seq<VariantModel>, i: int, best: Option<int>)
    requires
        0 <= i <= v.len(),
        best matches Some(b) ==> 0 <= b < v.len() && !v[b].is_i_frame && forall|k: int|
            0 <= k < i && !v[k].is_i_frame ==> #[trigger] v[k].bandwidth <= v[b].bandwidth,
        best is None ==> forall|k: int| 0 <= k < i ==> #[trigger] v[k].is_i_frame,
    ensures
        best_variant_from(v, i, best) matches Some(r) ==> forall|k: int|
            0 <= k < v.len() && !v[k].is_i_frame ==> #[trigger] v[k].bandwidth <= v[r].bandwidth,
        best_variant_from(v, i, best) is None ==> forall|k: int| 0 <= k < v.len() ==> #[trigger] v[k].is_i_frame,
    decreases v.len() - i,
{
    if i < v.len() {
        if v[i].is_i_frame {
            lemma_best_is_max(v, i + 1, best);
        } else {
            match best {
                Some(b) => if v[i].bandwidth >= v[b].bandwidth {
                    lemma_best_is_max(v, i + 1, Some(i));
                } else {
                    lemma_best_is_max(v, i + 1, best);
                },
                None => lemma_best_is_max(v, i + 1, Some(i)),
            }
        }
    }
}

/// What `resolve_master_variant` gives for a parsed manifest and a base
/// URL: `None` for a media playlist; for a master playlist the URL of its
/// best variant resolved against the base.
pub open spec fn master_variant_of(parsed: Result<HlsModel, Seq<char>>, base: Seq<char>) -> Result<Option<Seq<char>>, Seq<char>> {
    match parsed {
        Err(e) => Err("no se pudo parsear el manifest HLS: "@ + e),
        Ok(HlsModel::Media { .. }) => Ok(None),
        Ok(HlsModel::Master(v)) => match best_variant_from(v, 0, None) {
            None => Err("playlist maestra sin variantes de video reproducibles"@),
            Some(b) => match url_join(base, v[b].uri) {
                Some(u) => Ok(Some(u)),
                None => Err("URI de variante inválida '"@ + v[b].uri + "'"@),
            },
        },
    }
}

/// The position of the variant a recording takes (see
/// `best_variant_from`).
pub fn best_variant(variants: &Vec<VariantInfo>) -> (r: Option<usize>)
    ensures
        match r {
            Some(b) => best_variant_from(variants@.map_values(|x: VariantInfo| x@), 0, None) == Some(b as int)
                && b < variants@.len(),
            None => best_variant_from(variants@.map_values(|x: VariantInfo| x@), 0, None) is None,
        },
{
    let ghost vs = variants@.map_values(|x: VariantInfo| x@);
    let mut best: Option<usize> = None;
    let mut i: usize = 0;
    while i < variants.len()
        invariant
            i <= variants@.len(),
            vs == variants@.map_values(|x: VariantInfo| x@),
            best matches Some(b) ==> b < i && !vs[b as int].is_i_frame,
            best_variant_from(vs, 0, None) == best_variant_from(vs, i as int, match best {
                Some(b) => Some(b as int),
                None => None,
            }),
        decreases variants@.len() - i,
    {
        assert(vs[i as int] == variants@[i as int]@);
        if !variants[i].is_i_frame {
            match best {
                Some(b) => {
                    assert(vs[b as int] == variants@[b as int]@);
                    if variants[i].bandwidth >= variants[b].bandwidth {
                        best = Some(i);
                    }
                },
                None => {
                    best = Some(i);
                },
            }
        }
        i += 1;
    }
    best
}

/// For a master (multi-bitrate) playlist, the URL of the variant to
/// record: the highest bandwidth that is not I-frame-only, resolved
/// against the manifest's URL; `None` for a media playlist.
pub fn resolve_master_variant(body: &[u8], base_url: &str) -> (r: Result<Option<String>, String>)
    ensures
        match r {
            Ok(u) => master_variant_of(hls_parse(body@), base_url@) == Ok::<Option<Seq<char>>, Seq<char>>(opt_view(u)),
            Err(e) => master_variant_of(hls_parse(body@), base_url@) == Err::<Option<Seq<char>>, Seq<char>>(e@),
        },
{
    match parse_hls(body) {
        Err(e) => {
            let mut m = "no se pudo parsear el manifest HLS: ".to_owned();
            push_all(&mut m, e.as_str());
            Err(m)
        },
        Ok(HlsManifest::Media { .. }) => Ok(None),
        Ok(HlsManifest::Master(variants)) => {
            match best_variant(&variants) {
                None => Err("playlist maestra sin variantes de video reproducibles".to_owned()),
                Some(b) => {
                    assert(variants@.map_values(|x: VariantInfo| x@)[b as int] == variants@[b as int]@);
                    match join_url(base_url, variants[b].uri.as_str()) {
                        Some(u) => Ok(Some(u)),
                        None => {
                            let mut m = "URI de variante inválida '".to_owned();
                            push_all(&mut m, variants[b].uri.as_str());
                            push_all(&mut m, "'");
                            Err(m)
                        },
                    }
                },
            }
        },
    }
}


proof fn lemma_first_refused(segs: Seq<SegmentModel>, k: int, i: int)
    requires
        0 <= k <= i < segs.len(),
        encrypted(segs[i]) || segs[i].byte_range,
    ensures
        first_refused(segs, k) matches Some(j) && k <= j <= i && (encrypted(segs[j]) || segs[j].byte_range)
            && forall|m: int| k <= m < j ==> !encrypted(#[trigger] segs[m]) && !segs[m].byte_range,
    decreases i - k,
{
    if k < i && !(encrypted(segs[k]) || segs[k].byte_range) {
        lemma_first_refused(segs, k + 1, i);
    }
}

proof fn lemma_nothing_refused(segs: Seq<SegmentModel>, k: int)
    requires
        0 <= k,
        first_refused(segs, k) is None,
    ensures
        forall|m: int| k <= m < segs.len() ==> !encrypted(#[trigger] segs[m]) && !segs[m].byte_range,
    decreases segs.len() - k,
{
    if k < segs.len() {
        lemma_nothing_refused(segs, k + 1);
    }
}

/// A media playlist is recorded only when no segment is encrypted (an
/// `EXT-X-KEY` method other than `NONE`: AES-128, SAMPLE-AES or another)
/// and none is read by byte range; then its segments are recorded in
/// order. A segment encrypted by any method, with only plain segments
/// before it, refuses the playlist with the encrypted-segment error.
pub proof fn encrypted_segments_are_never_recorded(target_duration: u64, end_list: bool, segs: Seq<SegmentModel>)
    ensures
        ({
            let r = media_playlist_of(Ok(HlsModel::Media { target_duration, end_list, segments: segs }));
            &&& r is Ok ==> forall|m: int|
                0 <= m < segs.len() ==> ((#[trigger] segs[m]).key_method is None || segs[m].key_method == Some(
                    KeyMethodKind::NoEncryption,
                )) && !segs[m].byte_range
            &&& r is Ok ==> r == Ok::<(u64, bool, Seq<Seq<char>>), Seq<char>>(
                (target_duration, end_list, segs.map_values(|s: SegmentModel| s.uri)),
            )
            &&& forall|i: int|
                0 <= i < segs.len() && ((#[trigger] segs[i]).key_method matches Some(k) && k
                    != KeyMethodKind::NoEncryption) && (forall|m: int|
                    0 <= m < i ==> ((#[trigger] segs[m]).key_method is None || segs[m].key_method == Some(
                        KeyMethodKind::NoEncryption,
                    )) && !segs[m].byte_range) ==> r == Err::<(u64, bool, Seq<Seq<char>>), Seq<char>>(
                    "segmento cifrado (EXT-X-KEY) no soportado en v1 para grabación"@,
                )
        }),
{
    let r = media_playlist_of(Ok(HlsModel::Media { target_duration, end_list, segments: segs }));
    if first_refused(segs, 0) is None {
        lemma_nothing_refused(segs, 0);
    }
    assert forall|i: int|
        0 <= i < segs.len() && ((#[trigger] segs[i]).key_method matches Some(k) && k != KeyMethodKind::NoEncryption)
            && (forall|m: int|
            0 <= m < i ==> ((#[trigger] segs[m]).key_method is None || segs[m].key_method == Some(
                KeyMethodKind::NoEncryption,
            )) && !segs[m].byte_range) implies r == Err::<(u64, bool, Seq<Seq<char>>), Seq<char>>(
        "segmento cifrado (EXT-X-KEY) no soportado en v1 para grabación"@,
    ) by {
        lemma_first_refused(segs, 0, i);
        let j = first_refused(segs, 0)->0;
        if j < i {
            assert(!encrypted(segs[j]) && !segs[j].byte_range);
        }
        assert(j == i);
    }
}

} // verus!
