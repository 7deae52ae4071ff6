//! Per-source settings of the catalogs (`source_settings`).
use vstd::prelude::*;

verus! {

/// The settings of a source as the interface lists them.
pub struct SourceSettings {
    pub id: String,
    pub label: String,
    pub curation_enabled: bool,
    pub mediatype_filter: Option<String>,
}

/// Whether a source's items go through curation by hint: only when it is
/// enabled for the source and an AI provider is active.
pub fn curates(curation_enabled: bool, has_provider: bool) -> (r: bool)
    ensures
        r == (curation_enabled && has_provider),
{
    curation_enabled && has_provider
}

} // verus!
