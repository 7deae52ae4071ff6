use librqbit_buffers::ByteBufOwned;
use librqbit_core::torrent_metainfo::{TorrentMetaV1, TorrentMetaV1File, TorrentMetaV1Info};
use librqbit_core::Id20;
use popcorn::online_library::{online_add_route, online_item_from_archive_org, online_item_from_pdt, online_tab, OnlineAddRoute};
use popcorn::opensubtitles::require_application_key_from;
use popcorn::sources::archive_org::{
    blender_foundation_items, collection_query, download_url, primary_video_url, resolve_torrent_files,
    search_query, seed_download_url, thumbnail_url, torrent_file_targets, torrent_url, ArchiveOrgItem,
    MetadataFile, TorrentListing, TorrentLayout, layout_is_sound,
};
use popcorn::sources::public_domain_torrents::{parse_detail_page, parse_rss, PublicDomainMovie};
use popcorn::sources::settings::curates;

const RSS_FIXTURE: &str = r#"<?xml version="1.0" encoding="utf-8"?>
<rss version="2.0" xml:base="">
<channel>
<title>Public Domain Movie Torrents</title>
 <item> <title>Thirteenth_Guest</title>
<link>http://www.publicdomaintorrents.com/nshowmovie.html?rstitle=Thirteenth_Guest.avi</link>
<guid isPermaLink="false"></guid>
<description>Filename: Thirteenth_Guest.avi &lt;br /&gt;
Uploaders: 0&lt;br /&gt;
Downloaders: 0&lt;br /&gt;
Size: 0.00MB</description>
<enclosure
url="http://www.publicdomaintorrents.com/nshowmovie.html?rstitle=Thirteenth_Guest.avi"  />
 <pubDate>Thu, 01 Jan 1970 00:00:00 +0000</pubDate>
</item>
 <item> <title>To_the_Shores_of_Iwo_Jima</title>
<link>http://www.publicdomaintorrents.com/nshowmovie.html?rstitle=To_the_Shores_of_Iwo_Jima.avi</link>
<guid isPermaLink="false"></guid>
<description>Filename: To_the_Shores_of_Iwo_Jima.avi &lt;br /&gt;</description>
<enclosure
url="http://www.publicdomaintorrents.com/nshowmovie.html?rstitle=To_the_Shores_of_Iwo_Jima.avi"  />
 <pubDate>Thu, 01 Jan 1970 00:00:00 +0000</pubDate>
</item>
</channel></rss>"#;

const DETAIL_FIXTURE_THREE_LINKS: &str = r#"
<h3>Thirteenth Guest</h3><br>
<tr><td><a
href=http://www.publicdomaintorrents.com/bt/btdownload.php?type=torrent&file=Thirteenth_Guest.avi.torrent>Click for Divx 764MB AVI</a></td>
<td><img src=divxi.jpg></img></td>
</tr>
<tr><td><a
href=http://www.publicdomaintorrents.com/bt/btdownload.php?type=torrent&file=Thirteenth_Guest.mp4.torrent>Click for IPOD MP4  192 MB</a></td><td><img src=ipod.jpg></img></td></tr><tr><td><a
href=http://www.publicdomaintorrents.com/bt/btdownload.php?type=torrent&file=Thirteenth_Guest_PSP.MP4.torrent>Click for PSP MP4  440 MB</a></td><td><img src=psp.gif></img></td></tr>
"#;

const DETAIL_FIXTURE_TWO_LINKS: &str = r#"
<h3>To the Shores of Iwo Jima</h3><br>
<tr><td><a
href=http://www.publicdomaintorrents.com/bt/btdownload.php?type=torrent&file=To_the_Shores_of_Iwo_Jima.avi.torrent>Click for Divx AVI</a></td></tr>
<tr><td><a
href=http://www.publicdomaintorrents.com/bt/btdownload.php?type=torrent&file=To_the_Shores_of_Iwo_Jima.mp4.torrent>Click for IPOD MP4</a></td></tr>
"#;

fn serialize(meta: &TorrentMetaV1<ByteBufOwned>) -> Vec<u8> {
    let mut buf = Vec::new();
    librqbit_bencode::bencode_serialize_to_writer(meta, &mut buf).unwrap();
    buf
}

fn base_meta(info: TorrentMetaV1Info<ByteBufOwned>) -> TorrentMetaV1<ByteBufOwned> {
    TorrentMetaV1 {
        announce: Some(ByteBufOwned::from(b"http://example.org/ann".as_slice())),
        announce_list: vec![],
        info: librqbit_bencode::WithRawBytes { data: info, raw_bytes: ByteBufOwned::from(Vec::new()) },
        comment: None,
        created_by: None,
        encoding: None,
        publisher: None,
        publisher_url: None,
        creation_date: None,
        info_hash: Id20::new([0u8; 20]),
    }
}

#[test]
fn online_item_from_archive_org_carries_kind_and_thumbnail() {
    let item = ArchiveOrgItem {
        identifier: "sita_sings_the_blues".to_string(),
        title: "Sita Sings the Blues".to_string(),
        year: Some(2008),
        licenseurl: Some("http://creativecommons.org/licenses/by-sa/3.0/".to_string()),
        thumbnail_url: "https://archive.org/services/img/sita_sings_the_blues".to_string(),
    };
    let online = online_item_from_archive_org("blender_foundation", item);
    assert_eq!(online.kind, "blender_foundation");
    assert_eq!(online.identifier, "sita_sings_the_blues");
    assert_eq!(online.year, Some(2008));
    assert!(online.thumbnail_url.is_some());
}

#[test]
fn online_item_from_pdt_has_no_year_license_or_thumbnail() {
    let item = PublicDomainMovie {
        title: "Nosferatu".to_string(),
        identifier: "http://example.org/nosferatu.torrent".to_string(),
    };
    let online = online_item_from_pdt(item);
    assert_eq!(online.kind, "public_domain_torrents");
    assert_eq!(online.year, None);
    assert_eq!(online.license, None);
    assert_eq!(online.thumbnail_url, None);
}

#[test]
fn online_add_route_by_kind() {
    for kind in ["archive_org", "blender_foundation", "prelinger", "feature_films"] {
        assert_eq!(online_add_route(kind).unwrap(), OnlineAddRoute::ArchiveOrg);
    }
    assert_eq!(online_add_route("public_domain_torrents").unwrap(), OnlineAddRoute::PublicDomainTorrents);
    assert_eq!(online_add_route("vimeo").err().unwrap(), "kind de ítem Online desconocido: vimeo");
}

#[test]
fn require_application_key_fails_explicitly_while_unconfigured() {
    assert!(require_application_key_from("").is_err());
}

#[test]
fn require_application_key_hands_back_a_configured_key() {
    assert_eq!(require_application_key_from("abc123").unwrap(), "abc123");
}

#[test]
fn blender_foundation_items_returns_the_five_verified_titles() {
    let items = blender_foundation_items();
    assert_eq!(items.len(), 5);
    let identifiers: Vec<&str> = items.iter().map(|i| i.identifier.as_str()).collect();
    assert_eq!(
        identifiers,
        vec![
            "Sintel",
            "BigBuckBunny_124",
            "ElephantsDream",
            "tearsofsteelblendervfxopenmovie800p",
            "cosmos-laundromat",
        ]
    );
    assert_eq!(items[0].title, "Sintel");
    assert_eq!(items[0].year, Some(2010));
    assert_eq!(items[0].thumbnail_url, "https://archive.org/services/img/Sintel");
}

#[test]
fn archive_org_urls_and_queries() {
    assert_eq!(thumbnail_url("x"), "https://archive.org/services/img/x");
    assert_eq!(torrent_url("Sintel"), "https://archive.org/download/Sintel/Sintel_archive.torrent");
    assert_eq!(download_url("Sintel", "sintel.mp4"), "https://archive.org/download/Sintel/sintel.mp4");
    assert_eq!(
        seed_download_url("cosmos-laundromat", "Cosmos Laundromat.mp4"),
        "https://archive.org/download/cosmos-laundromat/Cosmos%20Laundromat.mp4"
    );
    assert_eq!(search_query("sintel", Some("movies")), "(sintel) AND mediatype:(movies)");
    assert_eq!(search_query("sintel", Some("")), "sintel");
    assert_eq!(search_query("sintel", None), "sintel");
    assert_eq!(collection_query("prelinger"), "collection:(prelinger)");
}

#[test]
fn primary_video_url_takes_the_first_playable_format_case_aside() {
    let files = vec![
        MetadataFile { name: "x_meta.xml".to_string(), format: Some("Metadata".to_string()) },
        MetadataFile { name: "x.ogv".to_string(), format: None },
        MetadataFile { name: "x.mp4".to_string(), format: Some("H.264".to_string()) },
        MetadataFile { name: "x_512kb.mp4".to_string(), format: Some("512Kb MPEG4".to_string()) },
    ];
    assert_eq!(primary_video_url("x", &files).unwrap(), "https://archive.org/download/x/x.mp4");
    let unplayable = vec![
        MetadataFile { name: "x_meta.xml".to_string(), format: Some("Metadata".to_string()) },
        MetadataFile { name: "x.ogv".to_string(), format: None },
    ];
    assert_eq!(
        primary_video_url("x", &unplayable).err().unwrap(),
        "no se encontró un archivo de video reproducible en el ítem"
    );
}

#[test]
fn parse_rss_extracts_title_and_detail_link_per_item() {
    let items = parse_rss(RSS_FIXTURE);
    assert_eq!(items.len(), 2);
    assert_eq!(items[0].0, "Thirteenth_Guest");
    assert_eq!(
        items[0].1,
        "http://www.publicdomaintorrents.com/nshowmovie.html?rstitle=Thirteenth_Guest.avi"
    );
    assert_eq!(items[1].0, "To_the_Shores_of_Iwo_Jima");
}

#[test]
fn parse_detail_page_prefers_generic_mp4_over_avi_and_psp() {
    let detail = parse_detail_page(DETAIL_FIXTURE_THREE_LINKS).unwrap();
    assert_eq!(detail.title, "Thirteenth Guest");
    assert_eq!(
        detail.torrent_url,
        "http://www.publicdomaintorrents.com/bt/btdownload.php?type=torrent&file=Thirteenth_Guest.mp4.torrent"
    );
}

#[test]
fn parse_detail_page_extracts_real_title_case_distinct_from_rss_filename() {
    let detail = parse_detail_page(DETAIL_FIXTURE_TWO_LINKS).unwrap();
    assert_eq!(detail.title, "To the Shores of Iwo Jima");
    assert_eq!(
        detail.torrent_url,
        "http://www.publicdomaintorrents.com/bt/btdownload.php?type=torrent&file=To_the_Shores_of_Iwo_Jima.mp4.torrent"
    );
}

#[test]
fn parse_detail_page_falls_back_to_first_link_when_no_mp4_exists() {
    let html = r#"<h3>Only Avi</h3>
<a href=http://www.publicdomaintorrents.com/bt/btdownload.php?type=torrent&file=Only_Avi.avi.torrent>Click for Divx AVI</a>"#;
    let detail = parse_detail_page(html).unwrap();
    assert_eq!(
        detail.torrent_url,
        "http://www.publicdomaintorrents.com/bt/btdownload.php?type=torrent&file=Only_Avi.avi.torrent"
    );
}

#[test]
fn parse_detail_page_returns_none_when_item_has_no_download_link() {
    let html = "<h3>Retirado</h3><p>Este título ya no está disponible.</p>";
    assert!(parse_detail_page(html).is_none());
}

#[test]
fn parse_detail_page_returns_none_without_a_title() {
    let html = "<p>página inesperada, sin bloque de título</p>";
    assert!(parse_detail_page(html).is_none());
}

#[test]
fn resolves_single_file_torrent_without_subfolder() {
    let info = TorrentMetaV1Info::<ByteBufOwned> {
        name: Some(ByteBufOwned::from(b"pelicula.mp4".as_slice())),
        pieces: ByteBufOwned::from(vec![0u8; 20]),
        piece_length: 16384,
        length: Some(123),
        files: None,
        ..Default::default()
    };
    let bytes = serialize(&base_meta(info));

    let files = resolve_torrent_files(&bytes).unwrap();
    assert_eq!(files.len(), 1);
    assert_eq!(files[0].local_path, vec!["pelicula.mp4".to_string()]);
    assert_eq!(files[0].archive_org_filename, "pelicula.mp4");
}

#[test]
fn resolves_multi_file_torrent_with_subfolder_for_every_file() {
    let info = TorrentMetaV1Info::<ByteBufOwned> {
        name: Some(ByteBufOwned::from(b"mi_item".as_slice())),
        pieces: ByteBufOwned::from(vec![0u8; 20]),
        piece_length: 16384,
        length: None,
        files: Some(vec![
            TorrentMetaV1File {
                length: 999,
                path: vec![ByteBufOwned::from(b"mi_item_meta.xml".as_slice())],
                attr: None,
                sha1: None,
                symlink_path: None,
            },
            TorrentMetaV1File {
                length: 123,
                path: vec![ByteBufOwned::from(b"pelicula.mp4".as_slice())],
                attr: None,
                sha1: None,
                symlink_path: None,
            },
        ]),
        ..Default::default()
    };
    let bytes = serialize(&base_meta(info));

    let files = resolve_torrent_files(&bytes).unwrap();
    assert_eq!(files.len(), 2);
    assert_eq!(files[0].local_path, vec!["mi_item".to_string(), "mi_item_meta.xml".to_string()]);
    assert_eq!(files[0].archive_org_filename, "mi_item_meta.xml");
    assert_eq!(files[1].local_path, vec!["mi_item".to_string(), "pelicula.mp4".to_string()]);
    assert_eq!(files[1].archive_org_filename, "pelicula.mp4");
}

#[test]
fn resolve_torrent_files_refuses_bytes_that_are_not_a_torrent() {
    assert_eq!(resolve_torrent_files(b"not bencode").err().unwrap(), "no se pudo parsear el .torrent");
}

#[test]
fn torrent_file_targets_nest_under_a_name_only_with_two_files_or_more() {
    let single = TorrentListing { name: Some(b"n".to_vec()), files: vec![vec!["a".to_string(), "b.mp4".to_string()]] };
    let t = torrent_file_targets(&single).unwrap();
    assert_eq!(t[0].local_path, vec!["a".to_string(), "b.mp4".to_string()]);
    assert_eq!(t[0].archive_org_filename, "b.mp4");

    let unnamed = TorrentListing { name: Some(Vec::new()), files: vec![vec!["x".to_string()], vec!["y".to_string()]] };
    let t = torrent_file_targets(&unnamed).unwrap();
    assert_eq!(t[1].local_path, vec!["y".to_string()]);

    let lossy = TorrentListing { name: Some(vec![0x66, 0xff]), files: vec![vec!["x".to_string()], vec!["y".to_string()]] };
    let t = torrent_file_targets(&lossy).unwrap();
    assert_eq!(t[0].local_path, vec!["f\u{fffd}".to_string(), "x".to_string()]);

    let broken = TorrentListing { name: None, files: vec![vec!["x".to_string()], vec![]] };
    assert!(torrent_file_targets(&broken).is_none());
}

#[test]
fn resolve_torrent_files_refuses_a_zero_piece_length() {
    let info = TorrentMetaV1Info::<ByteBufOwned> {
        name: Some(ByteBufOwned::from(b"pelicula.mp4".as_slice())),
        pieces: ByteBufOwned::from(vec![0u8; 20]),
        piece_length: 0,
        length: Some(123),
        files: None,
        ..Default::default()
    };
    let bytes = serialize(&base_meta(info));
    assert_eq!(resolve_torrent_files(&bytes).err().unwrap(), "estructura de archivos del .torrent inválida");
}

#[test]
fn layouts_are_sound_only_with_a_piece_length_for_a_nonempty_total() {
    let single = |p: u32, n: u64| TorrentLayout { piece_length: p, length: Some(n), file_lengths: None };
    assert!(layout_is_sound(&single(16384, 123)));
    assert!(!layout_is_sound(&single(0, 123)));
    assert!(layout_is_sound(&single(0, 0)));
    assert!(!layout_is_sound(&single(1, 1u64 << 32)));
    assert!(layout_is_sound(&single(1, (1u64 << 32) + 1)));
    let multi = TorrentLayout { piece_length: 4, length: None, file_lengths: Some(vec![u64::MAX, 1]) };
    assert!(!layout_is_sound(&multi));
    let both = TorrentLayout { piece_length: 0, length: Some(3), file_lengths: Some(vec![1]) };
    assert!(layout_is_sound(&both));
}

#[test]
fn a_file_is_named_by_the_last_component_of_its_path() {
    let dotted = TorrentListing { name: None, files: vec![vec!["a".to_string(), "b.mp4".to_string(), ".".to_string()]] };
    assert_eq!(torrent_file_targets(&dotted).unwrap()[0].archive_org_filename, "b.mp4");
    let empty_tail = TorrentListing { name: None, files: vec![vec!["a".to_string(), "".to_string()]] };
    assert_eq!(torrent_file_targets(&empty_tail).unwrap()[0].archive_org_filename, "a");
    let only_dot = TorrentListing { name: None, files: vec![vec![".".to_string()]] };
    assert!(torrent_file_targets(&only_dot).is_none());
    let parent = TorrentListing { name: None, files: vec![vec!["a".to_string(), "..".to_string()]] };
    assert!(torrent_file_targets(&parent).is_none());
}

#[test]
fn curation_runs_only_when_enabled_with_a_provider() {
    assert!(curates(true, true));
    assert!(!curates(true, false));
    assert!(!curates(false, true));
}

#[test]
fn the_online_tab_skips_failed_catalogs_and_ends_with_blender() {
    let item = |kind: &str, id: &str| {
        online_item_from_archive_org(
            kind,
            ArchiveOrgItem {
                identifier: id.to_string(),
                title: id.to_string(),
                year: None,
                licenseurl: None,
                thumbnail_url: String::new(),
            },
        )
    };
    let tab = online_tab(
        vec![Some(vec![item("archive_org", "a1"), item("archive_org", "a2")]), None, Some(vec![item("feature_films", "f1")])],
        vec![item("blender_foundation", "b1")],
    );
    let ids: Vec<&str> = tab.iter().map(|i| i.identifier.as_str()).collect();
    assert_eq!(ids, vec!["a1", "a2", "f1", "b1"]);
}
