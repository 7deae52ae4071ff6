use mp4::{AudioObjectType, ChannelConfig, SampleFreqIndex};
use popcorn::engine::remux::{
    audio_sample_duration, needs_remux, parse_audio_specific_config, parse_avcc, route_frame, select_remux_tracks,
    to_mp4_timescale, video_sample_duration, FrameRoute, TrackKind, TrackSummary,
};
use popcorn::engine::stream_server::{parse_range, range_response_headers, resolve_range, ByteRange, RangeStatus};
use popcorn::engine::{hex_encode, state_label, QbState};

#[test]
fn needs_remux_only_matches_mkv_case_insensitive() {
    assert!(needs_remux("One.Piece.mkv"));
    assert!(needs_remux("One.Piece.MKV"));
    assert!(!needs_remux("Sintel.mp4"));
    assert!(!needs_remux("no_extension"));
}

#[test]
fn remux_rejects_unsupported_video_codec() {
    assert!(parse_avcc(&[0, 0]).is_err());
}

#[test]
fn parse_avcc_reads_the_first_sps_and_pps_without_length_prefixes() {
    let record = [1, 0x64, 0, 0x1f, 0xff, 0xe1, 0, 3, 0x67, 0x64, 0x00, 1, 0, 2, 0x68, 0xee];
    let (sps, pps) = parse_avcc(&record).unwrap();
    assert_eq!(sps, vec![0x67, 0x64, 0x00]);
    assert_eq!(pps, vec![0x68, 0xee]);
    assert_eq!(parse_avcc(&[1, 0, 0, 0, 0, 0xe0]).err().unwrap(), "AVCDecoderConfigurationRecord sin SPS");
    assert_eq!(parse_avcc(&[1, 0, 0, 0, 0, 0xe1, 0, 9, 1]).err().unwrap(), "SPS truncado");
}

#[test]
fn parse_avcc_refuses_records_cut_short() {
    assert_eq!(parse_avcc(&[0x00, 0x00, 0x00, 0x00, 0x00, 0x01]).err().unwrap(), "SPS truncado");
    assert_eq!(parse_avcc(&[1, 0, 0, 0, 0, 0xE2, 0, 1, 0x67, 0]).err().unwrap(), "SPS truncado");
    assert_eq!(parse_avcc(&[1, 0, 0, 0, 0, 0xE1, 0, 1, 0x67, 1, 0]).err().unwrap(), "PPS truncado");
    assert_eq!(parse_avcc(&[1, 0, 0, 0, 0, 0xE1, 0, 1, 0x67, 1, 0, 1, 0x68]).unwrap(), (vec![0x67], vec![0x68]));
}

#[test]
fn parse_audio_specific_config_rejects_explicit_frequency() {
    let data = [0x17, 0x90];
    assert!(parse_audio_specific_config(&data).is_err());
}

#[test]
fn parse_audio_specific_config_reads_common_aac_lc_48khz_stereo() {
    let data = [0x11, 0x90];
    let (obj, freq, chan) = parse_audio_specific_config(&data).unwrap();
    assert_eq!(obj, AudioObjectType::AacLowComplexity);
    assert_eq!(freq, SampleFreqIndex::Freq48000);
    assert_eq!(chan, ChannelConfig::Stereo);
}

#[test]
fn parse_audio_specific_config_refuses_short_or_invalid_headers() {
    assert_eq!(parse_audio_specific_config(&[0x11]).err().unwrap(), "AudioSpecificConfig demasiado corto");
    assert_eq!(
        parse_audio_specific_config(&[0x17, 0x90]).err().unwrap(),
        "frecuencia de muestreo explícita no soportada"
    );
    assert!(parse_audio_specific_config(&[0x11, 0x80]).is_err(), "channelConfiguration 0");
}

#[test]
fn timestamps_convert_to_the_mp4_timescale() {
    assert_eq!(to_mp4_timescale(1000, 1_000_000), 90_000);
    assert_eq!(to_mp4_timescale(0, 1_000_000), 0);
    assert_eq!(to_mp4_timescale(u64::MAX, 2), u64::MAX / 1_000_000_000);
    assert_eq!(video_sample_duration(None), 3749);
    assert_eq!(video_sample_duration(Some(40_000_000)), 3600);
    assert_eq!(audio_sample_duration(48_000), 1920);
    assert_eq!(audio_sample_duration(44_100), 2089);
}

#[test]
fn remux_takes_the_first_h264_and_aac_tracks() {
    let tracks = vec![
        TrackSummary { kind: TrackKind::Other, codec_id: "S_TEXT/UTF8".to_string() },
        TrackSummary { kind: TrackKind::Audio, codec_id: "A_AAC".to_string() },
        TrackSummary { kind: TrackKind::Video, codec_id: "V_MPEG4/ISO/AVC".to_string() },
        TrackSummary { kind: TrackKind::Audio, codec_id: "A_AAC".to_string() },
    ];
    assert_eq!(select_remux_tracks(&tracks).unwrap(), (2, 1));
    let hevc = vec![TrackSummary { kind: TrackKind::Video, codec_id: "V_MPEGH/ISO/HEVC".to_string() }];
    assert_eq!(
        select_remux_tracks(&hevc).err().unwrap(),
        "sin track de video H.264 — códec no soportado para remux"
    );
    let no_audio = vec![TrackSummary { kind: TrackKind::Video, codec_id: "V_MPEG4/ISO/AVC".to_string() }];
    assert_eq!(
        select_remux_tracks(&no_audio).err().unwrap(),
        "sin track de audio AAC — códec no soportado para remux"
    );
    assert_eq!(route_frame(1, 1, 2), FrameRoute::Video);
    assert_eq!(route_frame(2, 1, 2), FrameRoute::Audio);
    assert_eq!(route_frame(3, 1, 2), FrameRoute::Skip);
}

#[test]
fn state_label_maps_every_qbittorrent_state_to_the_frontends_closed_vocabulary() {
    assert_eq!(state_label(Some(QbState::Error)), "error");
    assert_eq!(state_label(Some(QbState::MissingFiles)), "error");
    assert_eq!(state_label(Some(QbState::PausedDL)), "paused");
    assert_eq!(state_label(Some(QbState::PausedUP)), "paused");
    assert_eq!(state_label(Some(QbState::Downloading)), "live");
    assert_eq!(state_label(Some(QbState::StalledUP)), "live");
    assert_eq!(state_label(Some(QbState::CheckingDL)), "initializing");
    assert_eq!(state_label(Some(QbState::Unknown)), "initializing");
    assert_eq!(state_label(None), "initializing");
}

#[test]
fn hex_encode_writes_lower_case_pairs() {
    assert_eq!(hex_encode(&[0x00, 0x8f, 0xff, 0x4d]), "008fff4d");
    assert_eq!(hex_encode(&[]), "");
}

#[test]
fn parses_bounded_range() {
    let r = parse_range(Some("bytes=0-1023")).unwrap();
    assert_eq!(r.start, 0);
    assert_eq!(r.end, Some(1023));
}

#[test]
fn parses_open_ended_range() {
    let r = parse_range(Some("bytes=500-")).unwrap();
    assert_eq!(r.start, 500);
    assert_eq!(r.end, None);
}

#[test]
fn rejects_malformed_range() {
    assert!(parse_range(Some("not-a-range")).is_none());
}

#[test]
fn no_range_header_returns_none() {
    assert!(parse_range(None).is_none());
}

#[test]
fn range_edge_cases() {
    assert!(parse_range(Some("bytes=-500")).is_none());
    assert_eq!(parse_range(Some("bytes=1-x")), Some(ByteRange { start: 1, end: None }));
    assert_eq!(parse_range(Some("bytes=+7-+9")), Some(ByteRange { start: 7, end: Some(9) }));
    assert!(parse_range(Some("bytes=99999999999999999999-")).is_none());
}

#[test]
fn served_ranges_stay_inside_the_file() {
    assert_eq!(resolve_range(None, 1000), Some((0, 999, RangeStatus::Full)));
    assert_eq!(resolve_range(Some(ByteRange { start: 500, end: None }), 1000), Some((500, 999, RangeStatus::Partial)));
    assert_eq!(resolve_range(Some(ByteRange { start: 1000, end: None }), 1000), None);
    assert_eq!(resolve_range(Some(ByteRange { start: 9, end: Some(3) }), 1000), None);
    assert_eq!(resolve_range(None, 0), None);
    assert_eq!(range_response_headers(0, 999, 1000, RangeStatus::Full), (1000, None));
    assert_eq!(
        range_response_headers(500, 999, 1000, RangeStatus::Partial),
        (500, Some("bytes 500-999/1000".to_string()))
    );
}
