use popcorn::iptv::recorder::segment_url;
use popcorn::iptv::hls::{parse_media_playlist, resolve_master_variant};
use popcorn::iptv::parse::channel_list;
use popcorn::iptv::recorder::{
    deadline_secs, end_status, mark_seen, poll_backoff_secs, poll_outcome, segment_step, PollOutcome,
    RecordingEnd, SegmentStep,
};
use popcorn::iptv::{channel_source_route, tag_channels, validate_manifest, ChannelSourceRoute, IptvSource};

const LIVE_PLAYLIST: &[u8] = b"#EXTM3U
#EXT-X-TARGETDURATION:10
#EXT-X-VERSION:3
#EXT-X-MEDIA-SEQUENCE:2680

#EXTINF:9.009,
https://priv.example.com/fileSequence2680.ts
#EXTINF:9.009,
https://priv.example.com/fileSequence2681.ts
#EXTINF:9.009,
https://priv.example.com/fileSequence2682.ts
";

const VOD_PLAYLIST: &[u8] = b"#EXTM3U
#EXT-X-VERSION:3
#EXT-X-TARGETDURATION:10
#EXT-X-PLAYLIST-TYPE:VOD
#EXTINF:9.009,
http://media.example.com/first.ts
#EXTINF:9.009,
http://media.example.com/second.ts
#EXTINF:3.003,
http://media.example.com/third.ts
#EXT-X-ENDLIST
";

const MASTER_PLAYLIST: &[u8] = b"#EXTM3U
#EXT-X-STREAM-INF:BANDWIDTH=1280000,AVERAGE-BANDWIDTH=1000000
low/index.m3u8
#EXT-X-STREAM-INF:BANDWIDTH=2560000,AVERAGE-BANDWIDTH=2000000
mid/index.m3u8
";

const ENCRYPTED_PLAYLIST: &[u8] = b"#EXTM3U
#EXT-X-VERSION:3
#EXT-X-MEDIA-SEQUENCE:7794
#EXT-X-TARGETDURATION:15
#EXT-X-KEY:METHOD=AES-128,URI=\"https://priv.example.com/key.bin\"
#EXTINF:2.833,
http://media.example.com/fileSequence52.ts
#EXTINF:15.0,
http://media.example.com/fileSequence53.ts
";

const BYTERANGE_PLAYLIST: &[u8] = b"#EXTM3U
#EXT-X-VERSION:4
#EXT-X-TARGETDURATION:10
#EXT-X-PLAYLIST-TYPE:VOD
#EXT-X-BYTERANGE:76242@0
#EXTINF:10.0,
video.ts
#EXT-X-BYTERANGE:82112@76242
#EXTINF:10.0,
video.ts
#EXT-X-ENDLIST
";

#[test]
fn parses_real_shaped_iptv_org_public_category_entries() {
    let body = r#"#EXTM3U
#EXTINF:-1 tvg-id="3CatCameresdeltemps.es@SD" tvg-logo="https://i.imgur.com/zXy2kbe.png" group-title="Public;Weather",3Cat Càmeres del temps (1080p)
https://directes-tv-int.3catdirectes.cat/live-content/beauties-hls/master.m3u8
#EXTINF:-1 tvg-id="24Horas.es@SD" tvg-logo="https://i.ibb.co/21sXZ3GT/24h.png" group-title="News;Public",24 Horas (1080p)
http://185.47.212.25:8080/24h_HD/index.m3u8
"#;
    let channels = channel_list(body);
    assert_eq!(channels.len(), 2);
    assert_eq!(channels[0].name, "3Cat Càmeres del temps (1080p)");
    assert_eq!(channels[0].tvg_id.as_deref(), Some("3CatCameresdeltemps.es@SD"));
    assert_eq!(channels[0].group.as_deref(), Some("Public;Weather"));
    assert_eq!(channels[0].logo_url.as_deref(), Some("https://i.imgur.com/zXy2kbe.png"));
    assert_eq!(
        channels[0].url,
        "https://directes-tv-int.3catdirectes.cat/live-content/beauties-hls/master.m3u8"
    );
    assert_eq!(channels[1].name, "24 Horas (1080p)");
    assert_eq!(channels[1].url, "http://185.47.212.25:8080/24h_HD/index.m3u8");
}

#[test]
fn name_with_embedded_comma_is_not_truncated() {
    let body = r#"#EXTINF:-1 group-title="News",Canal 24 Horas, Edición Fin de Semana
https://example.org/stream.m3u8"#;
    let channels = channel_list(body);
    assert_eq!(channels.len(), 1);
    assert_eq!(channels[0].name, "Canal 24 Horas, Edición Fin de Semana");
}

#[test]
fn extinf_without_any_attributes_still_parses() {
    let body = "#EXTINF:-1,Canal Simple\nhttps://example.org/simple.m3u8";
    let channels = channel_list(body);
    assert_eq!(channels.len(), 1);
    assert_eq!(channels[0].name, "Canal Simple");
    assert_eq!(channels[0].group, None);
    assert_eq!(channels[0].logo_url, None);
    assert_eq!(channels[0].tvg_id, None);
}

#[test]
fn skips_extra_directives_between_extinf_and_url() {
    let body = "#EXTINF:-1,Canal Con VLC Opts\n#EXTVLCOPT:network-caching=1000\nhttps://example.org/vlc.m3u8";
    let channels = channel_list(body);
    assert_eq!(channels.len(), 1);
    assert_eq!(channels[0].url, "https://example.org/vlc.m3u8");
}

#[test]
fn extinf_without_a_following_url_is_dropped() {
    let body = "#EXTM3U\n#EXTINF:-1,Canal Huérfano";
    assert!(channel_list(body).is_empty());
}

#[test]
fn empty_body_returns_no_channels() {
    assert!(channel_list("").is_empty());
}

#[test]
fn extinf_without_a_name_is_dropped() {
    let body = "#EXTINF:-1 group-title=\"News\",   \nhttps://example.org/a.m3u8\n#EXTINF:-1,B\nhttps://example.org/b.m3u8";
    let channels = channel_list(body);
    assert_eq!(channels.len(), 1);
    assert_eq!(channels[0].name, "B");
}

#[test]
fn parses_live_playlist_without_endlist() {
    let playlist = parse_media_playlist(LIVE_PLAYLIST).unwrap();
    assert_eq!(playlist.target_duration, 10);
    assert!(!playlist.end_list, "playlist en vivo no trae EXT-X-ENDLIST");
    assert_eq!(playlist.segments.len(), 3);
    assert_eq!(playlist.segments[0].uri, "https://priv.example.com/fileSequence2680.ts");
}

#[test]
fn parses_vod_playlist_with_endlist() {
    let playlist = parse_media_playlist(VOD_PLAYLIST).unwrap();
    assert!(playlist.end_list, "playlist VOD sí trae EXT-X-ENDLIST");
    assert_eq!(playlist.segments.len(), 3);
}

#[test]
fn rejects_master_playlist_explicitly() {
    let err = parse_media_playlist(MASTER_PLAYLIST).unwrap_err();
    assert!(
        err.contains("maestra"),
        "el error debe explicar que es una playlist maestra, no adivinar una variante: {err}"
    );
}

#[test]
fn rejects_encrypted_segments_explicitly() {
    let err = parse_media_playlist(ENCRYPTED_PLAYLIST).unwrap_err();
    assert!(
        err.contains("cifrado"),
        "el error debe explicar que hay cifrado, no descargar bytes inútiles en silencio: {err}"
    );
}

#[test]
fn rejects_byte_range_segments_explicitly() {
    let err = parse_media_playlist(BYTERANGE_PLAYLIST).unwrap_err();
    assert!(err.contains("BYTERANGE"), "el error debe explicar el motivo real: {err}");
}

#[test]
fn resolve_master_variant_picks_highest_bandwidth_and_resolves_relative_uri() {
    let resolved = resolve_master_variant(MASTER_PLAYLIST, "http://example.org/live/master.m3u8").unwrap();
    assert_eq!(
        resolved.as_deref(),
        Some("http://example.org/live/mid/index.m3u8"),
        "debe elegir la variante de mayor bandwidth (2560000 > 1280000), resuelta contra la URL base"
    );
}

#[test]
fn resolve_master_variant_returns_none_for_media_playlist() {
    assert!(resolve_master_variant(VOD_PLAYLIST, "http://example.org/live/index.m3u8").unwrap().is_none());
}

#[test]
fn rejects_malformed_input() {
    assert!(parse_media_playlist(b"esto no es un m3u8 valido").is_err());
}

#[test]
fn resolve_master_variant_keeps_an_absolute_variant_uri() {
    let master = b"#EXTM3U
#EXT-X-STREAM-INF:BANDWIDTH=100
https://cdn.example.net/a/index.m3u8
";
    let resolved = resolve_master_variant(master, "http://example.org/live/master.m3u8").unwrap();
    assert_eq!(resolved.as_deref(), Some("https://cdn.example.net/a/index.m3u8"));
}

#[test]
fn a_segment_is_downloaded_once_over_the_whole_recording() {
    let mut seen: Vec<String> = Vec::new();
    assert_eq!(segment_step(false, &mut seen, "a.ts"), SegmentStep::Download);
    assert_eq!(segment_step(false, &mut seen, "b.ts"), SegmentStep::Download);
    assert_eq!(segment_step(false, &mut seen, "a.ts"), SegmentStep::Skip);
    assert_eq!(segment_step(true, &mut seen, "c.ts"), SegmentStep::Stop);
    assert_eq!(seen, vec!["a.ts", "b.ts"]);
    assert!(!mark_seen(&mut seen, "b.ts"));
    assert!(mark_seen(&mut seen, "c.ts"));
}

#[test]
fn poll_outcome_and_backoff() {
    assert_eq!(poll_outcome(true, true, 10), PollOutcome::Stopped);
    assert_eq!(poll_outcome(false, true, 10), PollOutcome::Done);
    assert_eq!(poll_outcome(false, false, 10), PollOutcome::Continue { target_duration: 10 });
    assert_eq!(poll_backoff_secs(0), 1);
    assert_eq!(poll_backoff_secs(3), 3);
    assert_eq!(poll_backoff_secs(10), 5);
    assert_eq!(deadline_secs(Some(2)), Some(120));
    assert_eq!(deadline_secs(None), None);
}

#[test]
fn end_status_names_how_a_recording_ended() {
    assert_eq!(end_status(RecordingEnd::Stopped), ("stopped", None));
    assert_eq!(
        end_status(RecordingEnd::Error("sin red".to_string())),
        ("error", Some("sin red".to_string()))
    );
}

#[test]
fn manifest_validation_requires_success_and_extm3u() {
    assert_eq!(
        validate_manifest(true, "200 OK", "http://x/final.m3u8".to_string(), "  \n#EXTM3U\n").unwrap(),
        "http://x/final.m3u8"
    );
    assert_eq!(
        validate_manifest(false, "404 Not Found", "u".to_string(), "#EXTM3U").err().unwrap(),
        "el canal respondió con estado 404 Not Found"
    );
    assert_eq!(
        validate_manifest(true, "200 OK", "u".to_string(), "<html>").err().unwrap(),
        "la URL no devolvió un manifest HLS válido (no empieza con #EXTM3U)"
    );
}

#[test]
fn channel_sources_route_by_kind_and_channels_carry_their_source() {
    let url_source = IptvSource {
        id: "s1".to_string(),
        name: "S".to_string(),
        source_kind: "url".to_string(),
        playlist_url: Some("https://iptv-org.github.io/iptv/categories/public.m3u".to_string()),
        enabled: true,
    };
    match channel_source_route(&url_source).unwrap() {
        ChannelSourceRoute::Url(u) => assert_eq!(u, "https://iptv-org.github.io/iptv/categories/public.m3u"),
        ChannelSourceRoute::File => panic!("una fuente url se descarga"),
    }
    let broken = IptvSource { playlist_url: None, ..url_source };
    assert_eq!(channel_source_route(&broken).err().unwrap(), "fuente 'url' sin playlist_url");

    let channels = tag_channels(channel_list("#EXTINF:-1,A\nhttp://a/1.m3u8"), "s1");
    assert_eq!(channels.len(), 1);
    assert_eq!(channels[0].source_id, "s1");
    assert_eq!(channels[0].name, "A");
}

#[test]
fn segment_urls_resolve_against_the_playlist_url() {
    assert_eq!(segment_url("http://example.org/live/index.m3u8", "seg1.ts").unwrap(), "http://example.org/live/seg1.ts");
    assert_eq!(
        segment_url("http://example.org/live/index.m3u8", "https://cdn.example.net/a.ts").unwrap(),
        "https://cdn.example.net/a.ts"
    );
    assert_eq!(segment_url("not a url", "seg1.ts").err().unwrap(), "URI de segmento inválida 'seg1.ts'");
}
