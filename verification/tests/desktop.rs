use popcorn::aurorae_icons::{aurorae_theme_name, ini_get, ini_section, resolve_all, svg_data_uri};
use popcorn::svg::active_center_svg;

const AURORAE_LIBRARY: &str = "org.kde.kwin.aurorae";

#[test]
fn ini_section_extracts_only_the_requested_section() {
    let contents = "[General]\nfoo=bar\n[org.kde.kdecoration2]\nlibrary=org.kde.kwin.aurorae\ntheme=__aurorae__svg__Layan\n[Other]\nbaz=qux\n";
    let section = ini_section(contents, "org.kde.kdecoration2").unwrap();
    assert_eq!(ini_get(&section, "library").as_deref(), Some("org.kde.kwin.aurorae"));
    assert_eq!(ini_get(&section, "theme").as_deref(), Some("__aurorae__svg__Layan"));
    assert_eq!(ini_get(&section, "foo"), None, "no debe filtrar claves de otras secciones");
    assert_eq!(ini_get(&section, "baz"), None, "no debe filtrar claves de otras secciones");
}

#[test]
fn ini_section_returns_none_for_missing_section() {
    assert!(ini_section("[General]\nfoo=bar\n", "org.kde.kdecoration2").is_none());
}

#[test]
fn ini_section_reports_a_compiled_decoration_library_as_is() {
    let contents = "[org.kde.kdecoration2]\nlibrary=org.kde.breeze\n";
    let section = ini_section(contents, "org.kde.kdecoration2").unwrap();
    assert_ne!(ini_get(&section, "library").as_deref(), Some(AURORAE_LIBRARY));
}

#[test]
fn ini_section_trims_and_keeps_the_last_value_of_a_key() {
    let contents = "[s]\n  a = 1 \nignored line\n a=2\n[t]\na=3\n";
    let section = ini_section(contents, "s").unwrap();
    assert_eq!(ini_get(&section, "a").as_deref(), Some("2"));
}

#[test]
fn aurorae_theme_name_is_read_only_for_the_aurorae_library() {
    let aurorae = ini_section(
        "[org.kde.kdecoration2]\nlibrary=org.kde.kwin.aurorae\ntheme=__aurorae__svg__Layan\n",
        "org.kde.kdecoration2",
    )
    .unwrap();
    assert_eq!(aurorae_theme_name(&aurorae).as_deref(), Some("Layan"));
    let breeze = ini_section("[org.kde.kdecoration2]\nlibrary=org.kde.breeze\ntheme=Breeze\n", "org.kde.kdecoration2").unwrap();
    assert_eq!(aurorae_theme_name(&breeze), None);
}

#[test]
fn svg_data_uri_is_base64_of_the_document() {
    assert_eq!(svg_data_uri("<svg/>"), "data:image/svg+xml;base64,PHN2Zy8+");
    assert_eq!(svg_data_uri(""), "data:image/svg+xml;base64,");
}

#[test]
fn resolve_all_lists_the_glyphs_found_in_order() {
    assert!(resolve_all(None, None, None, None).is_none());
    let glyph = r##"<svg width="2" height="2"><g id="active-center"/></svg>"##;
    let found = resolve_all(Some(glyph.to_string()), None, Some(glyph.to_string()), None).unwrap();
    let keys: Vec<&str> = found.iter().map(|(k, _)| k.as_str()).collect();
    assert_eq!(keys, vec!["close", "maximize"]);
    assert_eq!(found[0].1, found[1].1);
}

#[test]
fn extract_active_center_svg_pulls_only_that_group_and_keeps_canvas_size() {
    let contents = r##"<svg xmlns="http://www.w3.org/2000/svg" width="22" height="22" viewBox="0 0 22 22">
                <g id="active-center" transform="translate(1,1)"><rect width="10" height="10" fill="#fff"/></g>
                <g id="pressed-center" transform="translate(1,50)"><rect width="10" height="10" fill="#000"/></g>
            </svg>"##;
    let svg = active_center_svg(contents).expect("debe encontrar el grupo active-center");
    assert!(svg.contains(r#"width="22""#));
    assert!(svg.contains(r#"height="22""#));
    assert!(svg.contains(r#"viewBox="0 0 22 22""#));
    assert!(svg.contains(r#"id="active-center""#));
    assert!(svg.contains(r##"fill="#fff""##), "debe conservar el contenido del grupo active-center");
    assert!(!svg.contains(r##"fill="#000""##), "no debe filtrar contenido de otros estados (pressed-center)");
    assert_eq!(
        svg,
        r##"<svg xmlns="http://www.w3.org/2000/svg" width="22" height="22" viewBox="0 0 22 22"><g id="active-center" transform="translate(1,1)"><rect width="10" height="10" fill="#fff"/></g></svg>"##
    );
}

#[test]
fn extract_active_center_svg_returns_none_when_group_is_absent() {
    let contents = r#"<svg xmlns="http://www.w3.org/2000/svg" width="22" height="22"><rect width="10" height="10"/></svg>"#;
    assert!(active_center_svg(contents).is_none(), "tema que no sigue la convención debe degradar a None, nunca romper");
}

#[test]
fn active_center_svg_defaults_the_canvas_and_keeps_text() {
    let contents = r#"<svg><g id="active-center"><!-- x --><text>hi</text><g/></g></svg>"#;
    assert_eq!(
        active_center_svg(contents).unwrap(),
        r#"<svg xmlns="http://www.w3.org/2000/svg" width="22" height="22"><g id="active-center"><text>hi</text><g/></g></svg>"#
    );
    assert!(active_center_svg("<svg").is_none());
}

#[test]
fn resolve_all_gives_data_uris_of_the_active_center_groups() {
    let with_glyph = r##"<svg width="22" height="22"><g id="active-center"><rect width="10" height="10"/></g></svg>"##;
    let without = r##"<svg width="22" height="22"><g id="pressed-center"/></svg>"##;
    assert!(resolve_all(None, Some(without.to_string()), None, None).is_none());
    let found = resolve_all(Some(with_glyph.to_string()), None, Some(without.to_string()), Some(with_glyph.to_string())).unwrap();
    assert_eq!(found.len(), 2);
    assert_eq!(found[0].0, "close");
    assert_eq!(found[1].0, "restore");
    let expected = svg_data_uri(&active_center_svg(with_glyph).unwrap());
    assert_eq!(found[0].1, expected);
    assert!(found[1].1.starts_with("data:image/svg+xml;base64,"));
}

#[test]
fn svg_data_uri_pads_the_last_group() {
    assert_eq!(svg_data_uri("ab"), "data:image/svg+xml;base64,YWI=");
    assert_eq!(svg_data_uri("a"), "data:image/svg+xml;base64,YQ==");
    assert_eq!(svg_data_uri(""), "data:image/svg+xml;base64,");
}
