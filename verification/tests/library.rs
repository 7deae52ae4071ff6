use popcorn::keychain::{read_outcome, removal_outcome, secret_target, store_outcome, StoreError};
use popcorn::commands::{effective_file_idx, healed_file_idx, remux_step, seed_row_action, RemuxStep, SeedRowAction};
use popcorn::os_accent::color_hex;
use popcorn::app_settings::{
    check_engine_kind, engine_kind_or_default, kbps_to_bps, parse_kbps, password_to_store, require_qbittorrent_url,
};
use popcorn::availability_ping::{available_positions, next_failure_count, still_available};
use popcorn::commands::{heal_route, recheck_step, HealRoute, RecheckStep};
use popcorn::http_retry::{decide, AttemptOutcome, RetryDecision, MAX_ATTEMPTS};
use popcorn::local_library::video_extension;
use popcorn::subtitles::{check_subtitle_text, valid_origin};
use popcorn::torrent_health::{final_report, no_data, tracker_report};
use popcorn::youtube::parse::{extract_channel_reference, ChannelReference, RawVideo};
use popcorn::youtube::{
    add_uploads_page, check_category, matching_videos, pick_thumbnail, title_matches, valid_category,
    youtube_video_key, YoutubeSource, MAX_VIDEOS_PER_SOURCE,
};

fn source() -> YoutubeSource {
    YoutubeSource {
        id: "src1".to_string(),
        name: "Muse Asia".to_string(),
        channel_url: "https://www.youtube.com/@MuseAsia".to_string(),
        channel_id: Some("UC1".to_string()),
        category: "anime".to_string(),
        enabled: true,
    }
}

fn raw(id: &str, title: &str) -> RawVideo {
    RawVideo {
        video_id: id.to_string(),
        title: title.to_string(),
        published_at: "2026-01-01T00:00:00Z".to_string(),
        thumbnail_url: None,
    }
}

#[test]
fn valid_origin_accepts_the_three_known_values_and_rejects_others() {
    assert!(valid_origin("original"));
    assert!(valid_origin("ai_translated"));
    assert!(valid_origin("human_edited"));
    assert!(!valid_origin("community_rated"));
}

#[test]
fn add_subtitle_text_core_rejects_invalid_origin() {
    assert!(check_subtitle_text("community_rated", "contenido real").is_err());
}

#[test]
fn add_subtitle_text_core_rejects_empty_content() {
    assert!(check_subtitle_text("original", "   ").is_err());
}

#[test]
fn subtitle_check_messages() {
    assert_eq!(
        check_subtitle_text("community_rated", "x").err().unwrap(),
        "origin inválido: community_rated (debe ser original, ai_translated o human_edited)"
    );
    assert_eq!(check_subtitle_text("original", " \n").err().unwrap(), "el subtítulo no puede estar vacío");
    assert!(check_subtitle_text("human_edited", "1\n00:00:01,000 --> 00:00:02,000\nHola").is_ok());
}

#[test]
fn title_matches_is_case_insensitive_substring() {
    assert!(title_matches("Episodio 42: El Regreso", "regreso"));
    assert!(title_matches("Episodio 42: El Regreso", "episodio"));
    assert!(!title_matches("Episodio 42: El Regreso", "temporada 3"));
}

#[test]
fn title_matches_empty_query_matches_everything() {
    assert!(title_matches("cualquier título", ""));
}

#[test]
fn extracts_handle_from_bare_at_prefix() {
    assert_eq!(extract_channel_reference("@MuseAsia").unwrap(), ChannelReference::Handle("MuseAsia".to_string()));
}

#[test]
fn extracts_handle_from_full_url() {
    assert_eq!(
        extract_channel_reference("https://www.youtube.com/@MuseAsia").unwrap(),
        ChannelReference::Handle("MuseAsia".to_string())
    );
}

#[test]
fn extracts_handle_from_url_with_trailing_path() {
    assert_eq!(
        extract_channel_reference("https://www.youtube.com/@MuseAsia/videos").unwrap(),
        ChannelReference::Handle("MuseAsia".to_string())
    );
}

#[test]
fn decodes_percent_encoded_accented_handle_bug_reported_live() {
    assert_eq!(
        extract_channel_reference("https://www.youtube.com/@RadioEmancipaci%C3%B3nChile").unwrap(),
        ChannelReference::Handle("RadioEmancipaciónChile".to_string())
    );
}

#[test]
fn bare_at_prefix_also_decodes_percent_encoding() {
    assert_eq!(
        extract_channel_reference("@RadioEmancipaci%C3%B3nChile").unwrap(),
        ChannelReference::Handle("RadioEmancipaciónChile".to_string())
    );
}

#[test]
fn extracts_id_from_channel_url() {
    assert_eq!(
        extract_channel_reference("https://www.youtube.com/channel/UCLYtSCJIkm-8hOZoBHfaHCA").unwrap(),
        ChannelReference::Id("UCLYtSCJIkm-8hOZoBHfaHCA".to_string())
    );
}

#[test]
fn extracts_bare_channel_id() {
    assert_eq!(
        extract_channel_reference("UCLYtSCJIkm-8hOZoBHfaHCA").unwrap(),
        ChannelReference::Id("UCLYtSCJIkm-8hOZoBHfaHCA".to_string())
    );
}

#[test]
fn rejects_legacy_custom_url_instead_of_guessing() {
    let result = extract_channel_reference("https://www.youtube.com/c/SomeCustomName");
    assert!(result.is_err(), "no debe adivinar una resolución para /c/, debe pedir un formato soportado");
}

#[test]
fn channel_reference_trims_and_refuses_what_it_cannot_read() {
    assert_eq!(extract_channel_reference("  @MuseAsia  ").unwrap(), ChannelReference::Handle("MuseAsia".to_string()));
    assert!(extract_channel_reference("").is_err());
    assert!(extract_channel_reference("https://www.youtube.com/user/legacy").is_err());
}

#[test]
fn youtube_categories_and_keys() {
    assert!(valid_category("cine"));
    assert!(valid_category("series"));
    assert!(valid_category("anime"));
    assert!(!valid_category("musica"));
    assert_eq!(check_category("musica").err().unwrap(), "categoría inválida: musica (debe ser cine, series o anime)");
    assert!(check_category("anime").is_ok());
    let v = popcorn::youtube::video_from_raw(raw("abc", "T"), &source());
    assert_eq!(v.source_id, "src1");
    assert_eq!(v.category, "anime");
    assert_eq!(youtube_video_key(&v), "src1:abc");
    assert_eq!(pick_thumbnail(Some("h".to_string()), Some("d".to_string())), Some("h".to_string()));
    assert_eq!(pick_thumbnail(None, Some("d".to_string())), Some("d".to_string()));
}

#[test]
fn uploads_pages_stop_at_the_limit_per_source() {
    let mut videos = Vec::new();
    let page: Vec<RawVideo> = (0..150).map(|i| raw(&format!("v{i}"), "t")).collect();
    assert!(!add_uploads_page(&mut videos, page, &source()));
    assert_eq!(videos.len(), 150);
    let page: Vec<RawVideo> = (150..300).map(|i| raw(&format!("v{i}"), "t")).collect();
    assert!(add_uploads_page(&mut videos, page, &source()));
    assert_eq!(videos.len(), MAX_VIDEOS_PER_SOURCE);
    assert_eq!(videos[199].video_id, "v199");
}

#[test]
fn matching_videos_keeps_titles_that_contain_the_query() {
    let page = vec![raw("a", "Episodio 1: El Inicio"), raw("b", "Trailer"), raw("c", "EL FINAL")];
    let found = matching_videos(page, "el ", &source());
    let ids: Vec<&str> = found.iter().map(|v| v.video_id.as_str()).collect();
    assert_eq!(ids, vec!["a", "c"]);
}

#[test]
fn requests_are_retried_a_bounded_number_of_times() {
    let failed = AttemptOutcome::ConnectionFailed;
    assert_eq!(decide(1, failed), RetryDecision::Retry);
    assert_eq!(decide(MAX_ATTEMPTS, failed), RetryDecision::GiveUp);
    assert_eq!(decide(1, AttemptOutcome::Answered { server_error: true }), RetryDecision::Retry);
    assert_eq!(decide(MAX_ATTEMPTS, AttemptOutcome::Answered { server_error: true }), RetryDecision::Deliver);
    assert_eq!(decide(2, AttemptOutcome::Answered { server_error: false }), RetryDecision::Deliver);
    assert_eq!(decide(3, AttemptOutcome::TimedOut), RetryDecision::Retry);
}

#[test]
fn ping_failures_accumulate_and_a_success_restores() {
    assert_eq!(next_failure_count(None, false), 1);
    assert_eq!(next_failure_count(Some(4), false), 5);
    assert_eq!(next_failure_count(Some(4), true), 0);
    assert!(still_available(None));
    assert!(still_available(Some(4)));
    assert!(!still_available(Some(5)));
    assert_eq!(available_positions(&vec![None, Some(7), Some(0), Some(5), Some(4)]), vec![0, 2, 4]);
}

#[test]
fn torrent_health_prefers_the_dht_then_the_trackers() {
    assert!(tracker_report(Some(0)).is_none());
    assert!(tracker_report(None).is_none());
    let t = tracker_report(Some(12)).unwrap();
    assert_eq!((t.peers_found, t.source), (Some(12), "tracker"));
    let f = final_report(Some(0), Some(3));
    assert_eq!((f.peers_found, f.source), (Some(3), "dht"));
    let f = final_report(Some(0), None);
    assert_eq!((f.peers_found, f.source), (Some(0), "tracker"));
    let n = no_data();
    assert_eq!((n.peers_found, n.source), (None, "sin datos"));
}

#[test]
fn heal_routes_by_source_type() {
    assert_eq!(heal_route("archive_org").unwrap(), HealRoute::ArchiveOrg);
    assert_eq!(heal_route("magnet").unwrap(), HealRoute::Magnet);
    assert_eq!(heal_route("public_domain_torrents").unwrap(), HealRoute::PublicDomainTorrents);
    assert_eq!(
        heal_route("torrent_file").err().unwrap(),
        "el ítem de tipo 'torrent_file' no se puede re-agregar automáticamente: no se guardaron los bytes originales del .torrent"
    );
    assert_eq!(recheck_step(true, 0), RecheckStep::Complete);
    assert_eq!(recheck_step(false, 3), RecheckStep::Wait);
    assert_eq!(recheck_step(false, 11), RecheckStep::NeedsFallback);
}

#[test]
fn speed_limits_and_engine_settings() {
    assert_eq!(parse_kbps(Some("250")), Some(250));
    assert_eq!(parse_kbps(Some("abc")), None);
    assert_eq!(parse_kbps(None), None);
    assert_eq!(kbps_to_bps(Some(250)), Some(250_000));
    assert_eq!(kbps_to_bps(None), None);
    assert_eq!(engine_kind_or_default(None), "embedded");
    assert_eq!(engine_kind_or_default(Some("qbittorrent".to_string())), "qbittorrent");
    assert!(check_engine_kind("embedded").is_ok());
    assert_eq!(check_engine_kind("transmission").err().unwrap(), "motor inválido: transmission");
    assert_eq!(require_qbittorrent_url(Some("http://nas:8080".to_string())).unwrap(), "http://nas:8080");
    assert_eq!(
        require_qbittorrent_url(Some("  ".to_string())).err().unwrap(),
        "falta la URL de la WebUI de qBittorrent en la configuración"
    );
    assert_eq!(password_to_store(Some(String::new())), None);
    assert_eq!(password_to_store(Some("pw".to_string())), Some("pw".to_string()));
}

#[test]
fn local_library_lists_video_extensions_case_aside() {
    assert!(video_extension("MKV"));
    assert!(video_extension("mp4"));
    assert!(video_extension("m4v"));
    assert!(!video_extension("srt"));
}

#[test]
fn the_played_file_prefers_the_fresh_primary_then_the_stored_one() {
    assert_eq!(effective_file_idx(Some(3), Some(1), 0), 3);
    assert_eq!(effective_file_idx(None, Some(1), 0), 1);
    assert_eq!(effective_file_idx(None, None, 2), 2);
    assert_eq!(remux_step(true, false).unwrap(), RemuxStep::ServeCached);
    assert_eq!(remux_step(false, true).unwrap(), RemuxStep::Remux);
    assert_eq!(
        remux_step(false, false).err().unwrap(),
        "este formato (MKV) necesita terminar de descargar antes de poder reproducirse"
    );
}

#[test]
fn accent_colors_are_written_as_hex() {
    assert_eq!(color_hex(0, 0, 0), "#000000");
    assert_eq!(color_hex(255, 255, 255), "#ffffff");
    assert_eq!(color_hex(2, 132, 199), "#0284c7");
    assert_eq!(color_hex(0, 255, 128), "#00ff80");
}

#[test]
fn store_answers_are_reported_with_a_missing_secret_as_none() {
    assert_eq!(read_outcome(Ok("sk-1".to_string())), Ok(Some("sk-1".to_string())));
    assert_eq!(read_outcome(Err(StoreError::NoEntry("no entry".to_string()))), Ok(None));
    assert_eq!(read_outcome(Err(StoreError::Other("locked".to_string()))), Err("locked".to_string()));
    assert_eq!(removal_outcome(Err(StoreError::NoEntry("no entry".to_string()))), Ok(()));
    assert_eq!(removal_outcome(Err(StoreError::Other("locked".to_string()))), Err("locked".to_string()));
    assert_eq!(store_outcome(Err(StoreError::NoEntry("no entry".to_string()))), Err("no entry".to_string()));
    assert_eq!(store_outcome(Ok(())), Ok(()));
}

#[test]
fn a_secret_is_kept_under_the_application_service_with_its_id() {
    let t = secret_target("gemini-1");
    assert_eq!(t.service(), "popcorn-p2p");
    assert_eq!(t.user(), "gemini-1");
}

#[test]
fn a_heal_keeps_the_stored_file_index_when_it_finds_none() {
    assert_eq!(healed_file_idx(Some(2), Some(5)), Some(2));
    assert_eq!(healed_file_idx(None, Some(5)), Some(5));
    assert_eq!(healed_file_idx(None, None), None);
}

#[test]
fn a_seeded_item_updates_its_row_or_adds_one() {
    assert_eq!(seed_row_action(true), SeedRowAction::UpdateExisting);
    assert_eq!(seed_row_action(false), SeedRowAction::InsertNew);
}
