use popcorn::ai::commands::{build_provider, trim_trailing_slashes, ProviderSpec};
use popcorn::ai::curation::{
    cache_verdict, curate_outcome, group_by_key, select_positions, sort_pool, CacheVerdict, CachedEntry,
    HintCuration,
};
use popcorn::ai::{build_curation_user_text, build_hint_curation_user_text, json_object_candidate, ScoredCandidate, StructuredQuery};

#[test]
fn build_provider_rejects_unknown_kind() {
    assert!(build_provider("mistral-direct", "m".into(), None, None).is_err());
}

#[test]
fn build_provider_gemini_requires_api_key() {
    assert!(build_provider("gemini", "gemini-2.5-flash".into(), None, None).is_err());
    assert!(build_provider("gemini", "gemini-2.5-flash".into(), None, Some("key".into())).is_ok());
}

#[test]
fn build_provider_openai_compatible_requires_base_url_but_not_api_key() {
    assert!(build_provider("openai_compatible", "llama3".into(), None, None).is_err());
    assert!(build_provider(
        "openai_compatible",
        "llama3".into(),
        Some("http://localhost:11434/v1".into()),
        None
    )
    .is_ok());
}

#[test]
fn trims_trailing_slash_from_base_url() {
    match build_provider("openai_compatible", "llama3".into(), Some("http://localhost:11434/v1/".into()), None) {
        Ok(ProviderSpec::OpenAiCompatible { base_url, .. }) => assert_eq!(base_url, "http://localhost:11434/v1"),
        _ => panic!("debe construir un proveedor openai_compatible"),
    }
}

#[test]
fn build_provider_error_messages() {
    assert_eq!(
        build_provider("mistral-direct", "m".into(), None, None).err().unwrap(),
        "kind de proveedor de IA desconocido: mistral-direct"
    );
    assert_eq!(
        build_provider("gemini", "m".into(), None, None).err().unwrap(),
        "el proveedor Gemini activo no tiene API key en el keychain"
    );
    assert_eq!(
        build_provider("openai_compatible", "m".into(), None, None).err().unwrap(),
        "el proveedor openai_compatible activo no tiene base_url"
    );
    assert_eq!(trim_trailing_slashes("http://x//"), "http://x");
    assert_eq!(trim_trailing_slashes("///"), "");
}

#[test]
fn curation_user_texts_number_the_candidates() {
    let query = StructuredQuery { title: "Sintel".to_string(), year: Some(2010), genre: None };
    let candidates = vec!["Sintel (2010)".to_string(), "Sintel trailer".to_string()];
    assert_eq!(
        build_curation_user_text(&query, &candidates),
        "Búsqueda: Sintel\n\nCandidatos:\n0: Sintel (2010)\n1: Sintel trailer"
    );
    assert_eq!(
        build_hint_curation_user_text(&candidates, Some("solo películas")),
        "Criterio: solo películas\n\nCandidatos:\n0: Sintel (2010)\n1: Sintel trailer"
    );
    assert_eq!(
        build_hint_curation_user_text(&candidates, Some("   ")),
        "Candidatos:\n0: Sintel (2010)\n1: Sintel trailer"
    );
    assert_eq!(build_hint_curation_user_text(&candidates, None), "Candidatos:\n0: Sintel (2010)\n1: Sintel trailer");
}

#[test]
fn json_object_candidate_frames_the_object_of_a_reply() {
    assert_eq!(json_object_candidate("```json\n{\"indices\": [1]}\n```").unwrap(), "{\"indices\": [1]}");
    assert_eq!(
        json_object_candidate("sin json").err().unwrap(),
        "la respuesta del proveedor no contiene un objeto JSON"
    );
    assert_eq!(
        json_object_candidate("} y luego {").err().unwrap(),
        "delimitadores de JSON inválidos en la respuesta"
    );
}

#[test]
fn a_curation_keeps_named_items_once_in_the_providers_order() {
    assert_eq!(select_positions(3, &vec![2, 0, 2, 7, 1]), vec![2, 0, 1]);
    let items = vec!["a", "b", "c"];
    assert_eq!(curate_outcome(items.clone(), Ok(vec![2, 2, 0, 9])), vec!["c", "a"]);
    assert_eq!(curate_outcome(items, Err("timeout".to_string())), vec!["a", "b", "c"]);
}

#[test]
fn the_cache_decides_by_the_hint_it_was_written_under() {
    let kept = CachedEntry { included: true, score: Some(80), hint_used: Some("cine".to_string()) };
    let out = CachedEntry { included: false, score: None, hint_used: None };
    assert!(matches!(cache_verdict(Some(&kept), Some("cine")), CacheVerdict::Kept(Some(80))));
    assert!(matches!(cache_verdict(Some(&kept), Some("anime")), CacheVerdict::Stale));
    assert!(matches!(cache_verdict(Some(&kept), None), CacheVerdict::Stale));
    assert!(matches!(cache_verdict(Some(&out), None), CacheVerdict::Excluded));
    assert!(matches!(cache_verdict(None, None), CacheVerdict::Stale));
}

#[test]
fn a_curation_by_hint_sends_stale_items_in_chunks_and_orders_by_score() {
    let mut verdicts = vec![CacheVerdict::Kept(Some(50)), CacheVerdict::Excluded];
    for _ in 0..22 {
        verdicts.push(CacheVerdict::Stale);
    }
    let mut c = HintCuration::start(&verdicts);
    assert!(!c.finished());
    let first = c.next_chunk();
    assert_eq!(first.len(), 20);
    assert_eq!(first[0], 2);
    let verdict = c
        .record(Some(vec![ScoredCandidate { index: 1, score: 90 }, ScoredCandidate { index: 1, score: 10 }, ScoredCandidate { index: 40, score: 99 }]))
        .unwrap();
    assert_eq!(verdict.included, vec![(3, 90)]);
    assert_eq!(verdict.excluded.len(), 19);
    assert_eq!(verdict.excluded[0], 2);
    let second = c.next_chunk();
    assert_eq!(second, vec![22, 23]);
    assert!(c.record(None).is_none());
    assert!(c.finished());
    assert_eq!(c.finish(), vec![3, 0, 22, 23]);
}

#[test]
fn sort_pool_is_stable_with_unscored_items_last() {
    let pool = vec![(0, None), (1, Some(5)), (2, Some(9)), (3, Some(5)), (4, None)];
    assert_eq!(sort_pool(&pool), vec![(2, Some(9)), (1, Some(5)), (3, Some(5)), (0, None), (4, None)]);
}

#[test]
fn group_by_key_groups_positions_in_order_of_first_appearance() {
    let keys = vec!["b".to_string(), "a".to_string(), "b".to_string(), "c".to_string(), "a".to_string()];
    assert_eq!(group_by_key(&keys), vec![vec![0, 2], vec![1, 4], vec![3]]);
}
