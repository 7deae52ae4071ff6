use popcorn::indexers::json::{json, json_results, parse_json, JsonKind};
use popcorn::indexers::parse::{magnet_list, rss};
use popcorn::indexers::search::{
    check_result_format, indexer_results, search_terms, search_url, tag_results, MergedResults,
};
use popcorn::indexers::{Indexer, IndexerResult, JsonPaths};

fn result(title: &str, magnet: &str) -> IndexerResult {
    IndexerResult {
        title: title.to_string(),
        magnet: magnet.to_string(),
        size: None,
        seeders: None,
        source_indexer: String::new(),
    }
}

fn indexer(format: &str, paths: Option<JsonPaths>) -> Indexer {
    Indexer {
        id: "i1".to_string(),
        name: "Mi indexer".to_string(),
        search_url_template: "https://example.org/?q={query}".to_string(),
        result_format: format.to_string(),
        json_paths: paths,
        enabled: true,
    }
}

#[test]
fn magnet_list_dedupes_and_extracts_dn_as_title() {
    let body = r#"
            <a href="magnet:?xt=urn:btih:AAA&dn=Sita+Sings+the+Blues&tr=udp://tracker">dl</a>
            <a href="magnet:?xt=urn:btih:AAA&dn=Sita+Sings+the+Blues&tr=udp://tracker">dup</a>
            <a href="magnet:?xt=urn:btih:BBB">no title</a>
        "#;
    let results = magnet_list(body);
    assert_eq!(results.len(), 2, "debe deduplicar el magnet repetido");
    assert_eq!(results[0].title, "Sita Sings the Blues");
    assert_eq!(results[1].title, "(sin título)");
}

#[test]
fn rss_parses_nyaa_style_feed_with_cdata_and_namespaced_tags() {
    let body = r#"<?xml version="1.0"?>
<rss><channel>
<item>
<title><![CDATA[Sintel (2010) 1080p]]></title>
<nyaa:magnetUri><![CDATA[magnet:?xt=urn:btih:CCC&dn=Sintel]]></nyaa:magnetUri>
<nyaa:seeders>42</nyaa:seeders>
<nyaa:size>1.4 GiB</nyaa:size>
</item>
<item>
<title>Tears of Steel</title>
<link>magnet:?xt=urn:btih:DDD&dn=Tears</link>
</item>
</channel></rss>"#;
    let results = rss(body);
    assert_eq!(results.len(), 2);
    assert_eq!(results[0].title, "Sintel (2010) 1080p");
    assert_eq!(results[0].magnet, "magnet:?xt=urn:btih:CCC&dn=Sintel");
    assert_eq!(results[0].seeders.as_deref(), Some("42"));
    assert_eq!(results[0].size.as_deref(), Some("1.4 GiB"));
    assert_eq!(results[1].title, "Tears of Steel");
    assert_eq!(results[1].seeders, None);
}

#[test]
fn rss_skips_items_without_a_magnet() {
    let body = "<item><title>Sin magnet</title></item>";
    assert!(rss(body).is_empty());
}

#[test]
fn rss_builds_magnet_from_infohash_when_no_literal_magnet_present() {
    let body = r#"<item>
            <title>[HatSubs] One Piece 1172 (WEB 1080p) [451AF1F0].mkv</title>
            <link>https://nyaa.si/download/2141524.torrent</link>
            <nyaa:seeders>454</nyaa:seeders>
            <nyaa:size>1.3 GiB</nyaa:size>
            <nyaa:infoHash>8f4d28a5c8dbf9993a57aa62e7492681cbef8849</nyaa:infoHash>
        </item>"#;
    let results = rss(body);
    assert_eq!(results.len(), 1);
    assert_eq!(
        results[0].magnet,
        "magnet:?xt=urn:btih:8f4d28a5c8dbf9993a57aa62e7492681cbef8849&dn=%5BHatSubs%5D%20One%20Piece%201172%20%28WEB%201080p%29%20%5B451AF1F0%5D.mkv"
    );
    assert_eq!(results[0].seeders.as_deref(), Some("454"));
}

#[test]
fn json_navigates_items_path_and_fields() {
    let body = r#"{
            "data": {
                "results": [
                    {"name": "Cosmos Laundromat", "link": "magnet:?xt=urn:btih:EEE", "peers": 7, "filesize": "800 MB"},
                    {"name": "Sin magnet"}
                ]
            }
        }"#;
    let paths = JsonPaths {
        items_path: "data.results".to_string(),
        title_field: "name".to_string(),
        magnet_field: "link".to_string(),
        size_field: Some("filesize".to_string()),
        seeders_field: Some("peers".to_string()),
    };
    let results = json(body, Some(&paths)).unwrap();
    assert_eq!(results.len(), 1, "el segundo item sin magnet_field se descarta");
    assert_eq!(results[0].title, "Cosmos Laundromat");
    assert_eq!(results[0].magnet, "magnet:?xt=urn:btih:EEE");
    assert_eq!(results[0].seeders.as_deref(), Some("7"));
    assert_eq!(results[0].size.as_deref(), Some("800 MB"));
}

#[test]
fn json_without_paths_is_an_error() {
    assert!(json("{}", None).is_err());
}

#[test]
fn json_root_as_array_when_items_path_is_empty() {
    let body = r#"[{"t": "X", "m": "magnet:?xt=urn:btih:FFF"}]"#;
    let paths = JsonPaths {
        items_path: String::new(),
        title_field: "t".to_string(),
        magnet_field: "m".to_string(),
        size_field: None,
        seeders_field: None,
    };
    let results = json(body, Some(&paths)).unwrap();
    assert_eq!(results.len(), 1);
    assert_eq!(results[0].magnet, "magnet:?xt=urn:btih:FFF");
}

#[test]
fn json_reports_a_missing_items_path_and_a_non_array() {
    let paths = JsonPaths {
        items_path: "data.results".to_string(),
        title_field: "t".to_string(),
        magnet_field: "m".to_string(),
        size_field: None,
        seeders_field: None,
    };
    assert_eq!(
        json(r#"{"data": {}}"#, Some(&paths)).err().unwrap(),
        "items_path 'data.results' no encontrado"
    );
    assert_eq!(
        json(r#"{"data": {"results": 3}}"#, Some(&paths)).err().unwrap(),
        "items_path 'data.results' no apunta a un array"
    );
    assert_eq!(
        json_results(Err("expected value".to_string()), Some(&paths)).err().unwrap(),
        "expected value"
    );
}

#[test]
fn json_gives_the_text_of_a_non_string_field_and_drops_a_non_string_title() {
    let body = r#"[{"t": 5, "m": "magnet:?xt=urn:btih:A"}, {"t": "ok", "m": "magnet:?xt=urn:btih:B", "s": {"a": [1, 2]}}]"#;
    let paths = JsonPaths {
        items_path: String::new(),
        title_field: "t".to_string(),
        magnet_field: "m".to_string(),
        size_field: Some("s".to_string()),
        seeders_field: Some("absent".to_string()),
    };
    let results = json(body, Some(&paths)).unwrap();
    assert_eq!(results.len(), 1);
    assert_eq!(results[0].title, "ok");
    assert_eq!(results[0].size.as_deref(), Some(r#"{"a":[1,2]}"#));
    assert_eq!(results[0].seeders, None);
}

#[test]
fn search_url_replaces_every_placeholder_with_the_encoded_query() {
    assert_eq!(
        search_url("https://nyaa.si/?page=rss&q={query}", "one piece"),
        "https://nyaa.si/?page=rss&q=one%20piece"
    );
    assert_eq!(search_url("{query}/{query}", "a&b"), "a%26b/a%26b");
    assert_eq!(search_url("https://example.org/", "x"), "https://example.org/");
    assert_eq!(search_url("q={quer", "x"), "q={quer");
    assert_eq!(search_url("q={query}", "ó"), "q=%C3%B3");
}

#[test]
fn check_result_format_accepts_the_three_formats_only() {
    assert!(check_result_format("magnet_list").is_ok());
    assert!(check_result_format("rss").is_ok());
    assert!(check_result_format("json").is_ok());
    assert_eq!(check_result_format("xml").err().unwrap(), "result_format inválido: xml");
}

#[test]
fn indexer_results_reads_the_answer_in_the_indexer_format_and_marks_the_source() {
    let body = r#"<a href="magnet:?xt=urn:btih:AAA&dn=X">x</a>"#;
    let results = indexer_results(&indexer("magnet_list", None), body).unwrap();
    assert_eq!(results.len(), 1);
    assert_eq!(results[0].source_indexer, "Mi indexer");
    assert_eq!(results[0].title, "X");

    let err = indexer_results(&indexer("xml", None), body).err().unwrap();
    assert_eq!(err, "formato de indexer desconocido: xml");

    let err = indexer_results(&indexer("json", None), "{}").err().unwrap();
    assert_eq!(err, "indexer JSON sin json_paths configurado");
}

#[test]
fn tag_results_keeps_everything_but_the_source() {
    let mut r = result("T", "magnet:?xt=urn:btih:Z");
    r.size = Some("1 GB".to_string());
    let tagged = tag_results(&vec![r], &"Nyaa".to_string());
    assert_eq!(tagged.len(), 1);
    assert_eq!(tagged[0].title, "T");
    assert_eq!(tagged[0].magnet, "magnet:?xt=urn:btih:Z");
    assert_eq!(tagged[0].size.as_deref(), Some("1 GB"));
    assert_eq!(tagged[0].source_indexer, "Nyaa");
}

#[test]
fn search_terms_put_the_query_first_and_skip_repeated_terms() {
    let broadened = vec![
        "ワンピース".to_string(),
        "one piece".to_string(),
        "ワンピース".to_string(),
        "onepiece".to_string(),
    ];
    assert_eq!(search_terms("one piece", &broadened), vec!["one piece", "ワンピース", "onepiece"]);
    assert_eq!(search_terms("x", &vec![]), vec!["x"]);
}

#[test]
fn merged_results_keep_each_magnet_once_in_order_found() {
    let mut merged = MergedResults::new();
    merged.add(&vec![result("a", "m1"), result("b", "m2")]);
    merged.add(&vec![result("a again", "m1"), result("c", "m3"), result("c again", "m3")]);
    let all = merged.into_results();
    let titles: Vec<&str> = all.iter().map(|r| r.title.as_str()).collect();
    assert_eq!(titles, vec!["a", "b", "c"]);
}

#[test]
fn json_reports_the_parser_message_on_a_broken_answer() {
    let paths = JsonPaths {
        items_path: String::new(),
        title_field: "t".to_string(),
        magnet_field: "m".to_string(),
        size_field: None,
        seeders_field: None,
    };
    let e = json("{not json", Some(&paths)).err().unwrap();
    assert!(!e.is_empty());
    assert!(!e.starts_with("items_path"));
}

#[test]
fn parse_json_keeps_nested_values_and_their_texts() {
    let v = parse_json(r#"{"a": [1, {"b": "x"}], "c": true}"#).unwrap();
    assert_eq!(v.text, r#"{"a":[1,{"b":"x"}],"c":true}"#);
    match &v.kind {
        JsonKind::Object(entries) => {
            assert_eq!(entries.len(), 2);
            assert_eq!(entries[0].0, "a");
            match &entries[0].1.kind {
                JsonKind::Array(items) => {
                    assert_eq!(items.len(), 2);
                    assert_eq!(items[0].text, "1");
                    match &items[1].kind {
                        JsonKind::Object(inner) => match &inner[0].1.kind {
                            JsonKind::Str(s) => assert_eq!(s, "x"),
                            _ => panic!("b debe ser un string"),
                        },
                        _ => panic!("debe ser un objeto"),
                    }
                }
                _ => panic!("a debe ser un array"),
            }
            assert_eq!(entries[1].1.text, "true");
        }
        _ => panic!("debe ser un objeto"),
    }
}
